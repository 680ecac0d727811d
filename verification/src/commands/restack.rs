//! `kin restack`: moves branches that stand on an older version of the current branch onto it.

use crate::floating::{
    find_floating_base, floating_base, CommitDetails, FloatingTargetContext, NoTarget,
};
use crate::graph::{CommitGraph, Parents};
use crate::lists::{chosen, law_chosen, lemma_chosen_next, lemma_chosen_none};
use crate::names::{lemma_text_map_empty, lemma_text_map_insert, text_map, NameMap};
use crate::rebase_utils::{Operation, RebaseState};
use crate::stack::{names_of, views, BranchView, StackBranch};
use crate::text::{same, strs};
use vstd::prelude::*;

verus! {

/// The options of `kin restack`.
#[derive(Debug)]
pub struct RestackArgs {
    /// How many commits to look back; 0 for all.
    pub history_limit: Option<usize>,
    pub autostash: bool,
    pub no_autostash: bool,
}

/// The branches under other names.
pub open spec fn others(branches: Seq<BranchView>, current: Seq<char>) -> Seq<BranchView>
    decreases branches.len(),
{
    if branches.len() == 0 {
        Seq::empty()
    } else if branches.last().0 == current {
        others(branches.drop_last(), current)
    } else {
        others(branches.drop_last(), current).push(branches.last())
    }
}

/// The branches of which some may float: all but the current one.
pub fn restack_candidates(branches: &Vec<StackBranch>, current_branch: &str) -> (r: Vec<StackBranch>)
    ensures
        views(r@) == others(views(branches@), current_branch@),
{
    let ghost all = views(branches@);
    let mut out: Vec<StackBranch> = Vec::new();
    let mut i: usize = 0;
    assert(views(out@) =~= Seq::<BranchView>::empty());
    while i < branches.len()
        invariant
            i <= branches@.len(),
            all == views(branches@),
            views(out@) == others(all.take(i as int), current_branch@),
        decreases branches@.len() - i,
    {
        proof {
            assert(all.take(i + 1).drop_last() =~= all.take(i as int));
            assert(all.take(i + 1).last() == branches@[i as int]@);
        }
        if !same(branches[i].name.as_str(), current_branch) {
            let ghost before = out@;
            out.push(branches[i].copy());
            assert(views(out@) =~= views(before).push(branches@[i as int]@));
        }
        i += 1;
    }
    assert(all.take(all.len() as int) =~= all);
    out
}

/// The branches that float, each with the commit that it stands on.
pub open spec fn floating_children(
    g: Parents,
    candidates: Seq<BranchView>,
    histories: Seq<Vec<CommitDetails>>,
    target: FloatingTargetContext,
    limit: int,
    cache: Map<Seq<char>, Option<String>>,
) -> Seq<BranchView>
    decreases candidates.len(),
{
    if candidates.len() == 0 {
        Seq::empty()
    } else {
        let before = floating_children(g, candidates.drop_last(), histories, target, limit, cache);
        let branch = candidates.last();
        let history = histories[candidates.len() - 1]@;
        match floating_base(g, branch.1, history, target, limit, cache) {
            Some(base) => before.push((branch.0, base)),
            None => before,
        }
    }
}

/// Finds the branches that float among the candidates: each comes with the commit that it stands on
/// in place of its tip. `histories` holds the first-parent line of each candidate, from its tip down,
/// and the cache the patch ids of the commits of which only the patch can tell.
pub fn find_floating_children(
    graph: &CommitGraph,
    candidates: &Vec<StackBranch>,
    histories: &Vec<Vec<CommitDetails>>,
    target: &FloatingTargetContext,
    history_limit: usize,
    patch_id_cache: &NameMap<Option<String>>,
) -> (r: Result<Vec<StackBranch>, NoTarget>)
    requires
        histories@.len() == candidates@.len(),
    ensures
        r is Err <==> target.candidates@.len() == 0 && candidates@.len() > 0,
        r matches Ok(children) ==> views(children@) == floating_children(
            graph@,
            views(candidates@),
            histories@,
            *target,
            history_limit as int,
            patch_id_cache@,
        ),
{
    let ghost all = views(candidates@);
    let ghost limit = history_limit as int;
    let mut out: Vec<StackBranch> = Vec::new();
    let mut i: usize = 0;
    assert(views(out@) =~= Seq::<BranchView>::empty());
    while i < candidates.len()
        invariant
            i <= candidates@.len() == histories@.len(),
            all == views(candidates@),
            limit == history_limit as int,
            i > 0 ==> target.candidates@.len() > 0,
            views(out@) == floating_children(
                graph@,
                all.take(i as int),
                histories@,
                *target,
                limit,
                patch_id_cache@,
            ),
        decreases candidates@.len() - i,
    {
        let branch = &candidates[i];
        proof {
            assert(all.take(i + 1).drop_last() =~= all.take(i as int));
            assert(all.take(i + 1).last() == branch@);
        }
        let base = match find_floating_base(
            graph,
            branch.id.as_str(),
            &histories[i],
            target,
            history_limit,
            patch_id_cache,
        ) {
            Ok(base) => base,
            Err(e) => return Err(e),
        };
        let ghost before = out@;
        if let Some(base) = base {
            let child = StackBranch { name: branch.name.clone(), id: base };
            out.push(child);
            assert(views(out@) =~= views(before).push(child@));
        }
        i += 1;
    }
    assert(all.take(all.len() as int) =~= all);
    Ok(out)
}

/// The bases of branches, by name; a later branch replaces an earlier one of the same name.
pub open spec fn base_by_name(children: Seq<BranchView>) -> Map<Seq<char>, Seq<char>>
    decreases children.len(),
{
    if children.len() == 0 {
        Map::empty()
    } else {
        base_by_name(children.drop_last()).insert(children.last().0, children.last().1)
    }
}

/// The state of a restack: each child leaves its old base for the current branch. A child is a
/// branch with the commit that it stands on.
pub fn restack_state(
    current_branch_name: &str,
    children: &Vec<StackBranch>,
    original_tip_map: NameMap<String>,
    autostash: bool,
) -> (r: RebaseState)
    ensures
        r.operation == Operation::Move,
        r.original_branch@ == current_branch_name@,
        r.target_branch@ == current_branch_name@,
        r.caller_branch matches Some(b) && b@ == current_branch_name@,
        strs(r.remaining_branches@) == names_of(views(children@)),
        r.in_progress_branch is None,
        text_map(r.parent_id_map@) == base_by_name(views(children@)),
        r.parent_name_map@.dom() == r.parent_id_map@.dom(),
        forall|n: Seq<char>| #[trigger]
            r.parent_name_map@.contains_key(n) ==> r.parent_name_map@[n]@ == current_branch_name@,
        r.new_base_map@ == Map::<Seq<char>, String>::empty(),
        r.original_commit_count_map@ == Map::<Seq<char>, usize>::empty(),
        r.original_tip_map == original_tip_map,
        r.owned_tip_map@ == Map::<Seq<char>, String>::empty(),
        r.stash_ref is None,
        !r.unstage_on_restore,
        r.autostash == autostash,
        !r.suppress_editor,
        r.cleanup_merged_branches@.len() == 0,
        r.cleanup_checkout_fallback is None,
{
    let ghost all = views(children@);
    let mut parent_id_map: NameMap<String> = NameMap::new();
    let mut parent_name_map: NameMap<String> = NameMap::new();
    let mut remaining: Vec<String> = Vec::new();
    let mut i: usize = 0;
    proof {
        lemma_text_map_empty();
        assert(strs(remaining@) =~= names_of(all).take(0));
    }
    while i < children.len()
        invariant
            i <= children@.len(),
            all == views(children@),
            strs(remaining@) == names_of(all).take(i as int),
            text_map(parent_id_map@) == base_by_name(all.take(i as int)),
            parent_name_map@.dom() == parent_id_map@.dom(),
            forall|n: Seq<char>| #[trigger]
                parent_name_map@.contains_key(n) ==> parent_name_map@[n]@ == current_branch_name@,
        decreases children@.len() - i,
    {
        let child = &children[i];
        proof {
            assert(all.take(i + 1).drop_last() =~= all.take(i as int));
            assert(all.take(i + 1).last() == child@);
            lemma_text_map_insert(parent_id_map@, child.name@, child.id);
        }
        let ghost before = remaining@;
        remaining.push(child.name.clone());
        assert(strs(remaining@) =~= strs(before).push(child.name@));
        assert(names_of(all).take(i + 1) =~= names_of(all).take(i as int).push(child.name@));
        parent_id_map.insert(child.name.clone(), child.id.clone());
        parent_name_map.insert(child.name.clone(), current_branch_name.to_owned());
        assert(parent_name_map@.dom() =~= parent_id_map@.dom());
        i += 1;
    }
    assert(all.take(all.len() as int) =~= all);
    assert(names_of(all).take(all.len() as int) =~= names_of(all));
    RebaseState {
        operation: Operation::Move,
        original_branch: current_branch_name.to_owned(),
        target_branch: current_branch_name.to_owned(),
        caller_branch: Some(current_branch_name.to_owned()),
        remaining_branches: remaining,
        in_progress_branch: None,
        parent_id_map,
        parent_name_map,
        new_base_map: NameMap::new(),
        original_commit_count_map: NameMap::new(),
        original_tip_map,
        owned_tip_map: NameMap::new(),
        stash_ref: None,
        unstage_on_restore: false,
        autostash,
        suppress_editor: false,
        cleanup_merged_branches: Vec::new(),
        cleanup_checkout_fallback: None,
    }
}

/// A restack moves no branch that is not a child: the bases it knows are those of the children.
pub proof fn law_restack_knows_only_children(children: Seq<BranchView>, name: Seq<char>)
    ensures
        base_by_name(children).contains_key(name) <==> names_of(children).contains(name),
    decreases children.len(),
{
    if children.len() > 0 {
        let rest = children.drop_last();
        law_restack_knows_only_children(rest, name);
        let all = names_of(children);
        if names_of(rest).contains(name) {
            let k = names_of(rest).index_of(name);
            assert(all[k] == name);
        }
        assert(all[children.len() - 1] == children.last().0);
        if all.contains(name) {
            let k = all.index_of(name);
            if k < rest.len() {
                assert(names_of(rest)[k] == name);
            }
        }
    }
}

/// A restack finds every branch that floats and no other: of the candidates, in their order, exactly
/// those that stand on an old version of a commit of the target, each with that commit.
pub proof fn law_every_floating_branch_is_found(
    g: Parents,
    candidates: Seq<BranchView>,
    histories: Seq<Vec<CommitDetails>>,
    target: FloatingTargetContext,
    limit: int,
    cache: Map<Seq<char>, Option<String>>,
    n: int,
)
    requires
        0 <= n <= candidates.len(),
    ensures
        floating_children(g, candidates.take(n), histories, target, limit, cache) == chosen(
            n,
            |k: int|
                floating_base(g, candidates[k].1, histories[k]@, target, limit, cache) is Some,
            |k: int|
                (
                    candidates[k].0,
                    floating_base(g, candidates[k].1, histories[k]@, target, limit, cache)->0,
                ),
        ),
        forall|k: int|
            0 <= k < n ==> (floating_base(
                g,
                (#[trigger] candidates[k]).1,
                histories[k]@,
                target,
                limit,
                cache,
            ) matches Some(base) ==> floating_children(
                g,
                candidates.take(n),
                histories,
                target,
                limit,
                cache,
            ).contains((candidates[k].0, base))),
    decreases n,
{
    let keep = |k: int|
        floating_base(g, candidates[k].1, histories[k]@, target, limit, cache) is Some;
    let give = |k: int|
        (
            candidates[k].0,
            floating_base(g, candidates[k].1, histories[k]@, target, limit, cache)->0,
        );
    if n > 0 {
        law_every_floating_branch_is_found(
            g,
            candidates,
            histories,
            target,
            limit,
            cache,
            n - 1,
        );
        lemma_chosen_next(n - 1, keep, give);
        assert(candidates.take(n).drop_last() =~= candidates.take(n - 1));
        assert(candidates.take(n).last() == candidates[n - 1]);
    } else {
        lemma_chosen_none(keep, give);
    }
    law_chosen(n, keep, give);
    assert forall|k: int| 0 <= k < n implies (floating_base(
        g,
        (#[trigger] candidates[k]).1,
        histories[k]@,
        target,
        limit,
        cache,
    ) matches Some(base) ==> floating_children(
        g,
        candidates.take(n),
        histories,
        target,
        limit,
        cache,
    ).contains((candidates[k].0, base))) by {
        if keep(k) {
            assert(floating_children(
                g,
                candidates.take(n),
                histories,
                target,
                limit,
                cache,
            ).contains(give(k)));
        }
    }
}

/// The candidates of a restack are all branches but the current one, in their order.
pub proof fn law_every_other_branch_is_a_candidate(
    branches: Seq<BranchView>,
    current: Seq<char>,
    n: int,
)
    requires
        0 <= n <= branches.len(),
    ensures
        others(branches.take(n), current) == chosen(
            n,
            |k: int| branches[k].0 != current,
            |k: int| branches[k],
        ),
    decreases n,
{
    let keep = |k: int| branches[k].0 != current;
    let give = |k: int| branches[k];
    if n > 0 {
        law_every_other_branch_is_a_candidate(branches, current, n - 1);
        lemma_chosen_next(n - 1, keep, give);
        assert(branches.take(n).drop_last() =~= branches.take(n - 1));
        assert(branches.take(n).last() == branches[n - 1]);
    } else {
        lemma_chosen_none(keep, give);
    }
}

/// Each child leaves the commit that was found for it: where no two children have one name, that is
/// the base that the restack knows.
pub proof fn law_restack_leaves_the_old_bases(children: Seq<BranchView>, k: int)
    requires
        0 <= k < children.len(),
        names_of(children).no_duplicates(),
    ensures
        base_by_name(children).contains_key(children[k].0),
        base_by_name(children)[children[k].0] == children[k].1,
    decreases children.len(),
{
    let n = children.len() - 1;
    if k < n {
        let rest = children.drop_last();
        assert(names_of(rest) =~= names_of(children).drop_last());
        assert(names_of(children)[k] != names_of(children)[n]);
        law_restack_leaves_the_old_bases(rest, k);
    }
}

} // verus!
