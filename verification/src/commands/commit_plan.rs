//! What `kin commit` settles before its first step: where the changes go, what follows the target,
//! and the state that is left behind.

use crate::commands::commit::{
    asks_about_other_stack, autosquash_base, autosquash_base_of, choose_target,
    collect_target_sub_stack, commit_state, fold_into, has_dependents, has_dependents_to_rebase,
    names_without, original_tips, plan_commit, record_branch_tips_in_range, target_sub_stack,
    tips_in_range, with_arg, with_tips, CommitError, CommitPlan, Fold, StackCommit, TargetChoice,
};
use crate::commands::commit_args::{needs_staged_changes, requires_staged_changes, separator};
use crate::graph::{descends, parents_first, CommitGraph, Parents};
use crate::names::{lemma_text_map_empty, text_map, NameMap};
use crate::rebase_utils::{Operation, RebaseState};
use crate::stack::{
    above, at_or_below, build_parent_maps, get_stack_branches_from_merge_base, index_named,
    law_topological, names_of, parent_id_map, parent_name_map,
    sort_branches_topologically, topological, views, with_descendants, BranchView, StackBranch,
    StackError,
};
use crate::text::{opt_string, strs};
use vstd::prelude::*;

verus! {

/// What becomes of the arguments when a commit is picked, and how the changes are folded into it.
pub open spec fn is_fold(
    g: Parents,
    picked: Option<StackCommit>,
    head: Seq<char>,
    current: Seq<char>,
    before: Seq<Seq<char>>,
    after: Seq<Seq<char>>,
    fold: Fold,
) -> bool {
    match picked {
        None => after == before && fold.fixup is None && !fold.inline,
        Some(c) => if c.commit_id@ == head && c.branch_name@ == current {
            &&& fold.fixup is None
            &&& !fold.inline
            &&& after == with_arg(with_arg(before, "--amend"@), "--no-edit"@)
        } else {
            &&& opt_string(fold.fixup) == Some(c.commit_id@)
            &&& fold.inline == (c.commit_id@ != head && descends(g, head, c.commit_id@))
            &&& after == before.insert(separator(before), "--fixup="@ + c.commit_id@)
        },
    }
}

/// The branch that the commit goes to; none where the user is to choose.
pub open spec fn target_of(
    picked: Option<StackCommit>,
    inline: bool,
    on_target: Option<Option<Seq<char>>>,
    current: Seq<char>,
) -> Option<Seq<char>> {
    match picked {
        Some(c) => Some(
            if inline {
                current
            } else {
                c.branch_name@
            },
        ),
        None => match on_target {
            None => Some(current),
            Some(t) => t,
        },
    }
}

/// What `--on` was given, as texts.
pub open spec fn on_texts(on_target: Option<Option<String>>) -> Option<Option<Seq<char>>> {
    match on_target {
        None => None,
        Some(t) => Some(opt_string(t)),
    }
}

/// Folds the changes into the commit that was picked, where one was, and chooses the target. A
/// commit that was picked needs something to fold in: staged changes, unless the arguments bring
/// their own.
pub fn settle_target(
    graph: &CommitGraph,
    picked: &Option<StackCommit>,
    head_id: &str,
    current_branch_name: &str,
    on_target: &Option<Option<String>>,
    git_commit_args: &mut Vec<String>,
    staged: bool,
) -> (r: Result<(Fold, TargetChoice), CommitError>)
    ensures
        ({
            let before = strs(old(git_commit_args)@);
            let after = strs(final(git_commit_args)@);
            let lacks = *picked is Some && needs_staged_changes(after) && !staged;
            match r {
                Ok((fold, choice)) => {
                    &&& !lacks
                    &&& is_fold(
                        graph@,
                        *picked,
                        head_id@,
                        current_branch_name@,
                        before,
                        after,
                        fold,
                    )
                    &&& target_of(
                        *picked,
                        fold.inline,
                        on_texts(*on_target),
                        current_branch_name@,
                    ) == match choice {
                        TargetChoice::Branch(b) => Some(b@),
                        TargetChoice::Ask => None,
                    }
                },
                Err(e) => lacks && e is NothingToCommit && exists|fold: Fold|
                    is_fold(
                        graph@,
                        *picked,
                        head_id@,
                        current_branch_name@,
                        before,
                        after,
                        fold,
                    ),
            }
        }),
{
    let fold = match picked {
        Some(c) => fold_into(graph, c, head_id, current_branch_name, git_commit_args),
        None => Fold { fixup: None, inline: false },
    };
    if picked.is_some() && requires_staged_changes(git_commit_args) && !staged {
        assert(is_fold(
            graph@,
            *picked,
            head_id@,
            current_branch_name@,
            strs(old(git_commit_args)@),
            strs(git_commit_args@),
            fold,
        ));
        return Err(CommitError::NothingToCommit);
    }
    let choice = choose_target(picked, fold.inline, on_target, current_branch_name);
    Ok((fold, choice))
}

/// The target of a commit and what stands around it.
#[derive(Debug)]
pub struct CommitScope {
    pub target_branch: String,
    /// The commit that the target points at.
    pub target_id: String,
    /// Where the target comes from the upstream.
    pub merge_base: String,
    /// The stack of the target.
    pub stack: Vec<StackBranch>,
    /// The part of the stack that follows the target, parents first.
    pub sub_stack: Vec<StackBranch>,
    pub has_dependents: bool,
    /// The user is asked whether that stack is rebased.
    pub ask: bool,
}

/// The stack of a target.
pub open spec fn stack_of_target(
    g: Parents,
    locals: Seq<BranchView>,
    merge_base: Seq<char>,
    target_id: Seq<char>,
    upstream_id: Seq<char>,
    upstream: Seq<char>,
) -> Seq<BranchView> {
    locals.filter(at_or_below(g, target_id, upstream_id, upstream)) + locals.filter(
        above(g, merge_base, target_id, upstream_id, upstream),
    )
}

/// Finds what stands around the target. `merge_base` is the merge base of the target and the
/// upstream, `current_stack` the stack of the branch that the user is on.
pub fn commit_scope(
    graph: &CommitGraph,
    locals: &Vec<StackBranch>,
    current_stack: &Vec<StackBranch>,
    target_branch: &str,
    target_id: &str,
    merge_base: &str,
    upstream_id: &str,
    upstream_name: &str,
    on_flag: bool,
) -> (r: CommitScope)
    ensures
        r.target_branch@ == target_branch@,
        r.target_id@ == target_id@,
        r.merge_base@ == merge_base@,
        ({
            let stack = stack_of_target(
                graph@,
                views(locals@),
                merge_base@,
                target_id@,
                upstream_id@,
                upstream_name@,
            );
            let sub = target_sub_stack(
                graph@,
                target_branch@,
                target_id@,
                upstream_name@,
                stack,
            );
            &&& views(r.stack@) == stack
            &&& views(r.sub_stack@) == topological(graph@, sub)
            &&& r.has_dependents == has_dependents(target_branch@, upstream_name@, sub)
            &&& r.ask == (target_branch@ != upstream_name@ && !names_of(
                views(current_stack@),
            ).contains(target_branch@) && on_flag && r.has_dependents)
        }),
{
    let stack = get_stack_branches_from_merge_base(
        graph,
        locals,
        merge_base,
        target_id,
        upstream_id,
        upstream_name,
    );
    let mut sub = collect_target_sub_stack(graph, target_branch, target_id, upstream_name, &stack);
    let dependents = has_dependents_to_rebase(target_branch, upstream_name, &sub);
    let ask = asks_about_other_stack(
        target_branch,
        upstream_name,
        current_stack,
        on_flag,
        dependents,
    );
    sort_branches_topologically(graph, &mut sub);
    CommitScope {
        target_branch: target_branch.to_owned(),
        target_id: target_id.to_owned(),
        merge_base: merge_base.to_owned(),
        stack,
        sub_stack: sub,
        has_dependents: dependents,
        ask,
    }
}

/// The plan of a commit: `follow` says whether what depends on the target is rebased.
pub fn plan_in_scope(scope: &CommitScope, current_branch_name: &str, follow: bool, fold: &Fold) -> (r:
    CommitPlan)
    ensures
        r.target_branch@ == scope.target_branch@,
        r.switching == (scope.target_branch@ != current_branch_name@),
        strs(r.remaining@) == names_without(views(scope.sub_stack@), scope.target_branch@),
        r.will_rebase == (follow && scope.has_dependents && r.remaining@.len() > 0),
        r.autosquash == (fold.fixup is Some),
{
    plan_commit(
        current_branch_name,
        scope.target_branch.as_str(),
        &scope.sub_stack,
        follow,
        scope.has_dependents,
        fold.fixup.is_some(),
    )
}

/// The tips that an abort goes back to.
pub open spec fn tips_to_keep(
    g: Parents,
    locals: Seq<BranchView>,
    scope: CommitScope,
    will_rebase: bool,
    fold: Fold,
) -> Map<Seq<char>, Seq<char>> {
    let target = Map::<Seq<char>, Seq<char>>::empty().insert(
        scope.target_branch@,
        scope.target_id@,
    );
    let sub = views(scope.sub_stack@);
    let tips = if will_rebase {
        with_tips(target, sub, sub.len() as int)
    } else {
        target
    };
    if fold.inline && fold.fixup is Some {
        tips_in_range(
            g,
            autosquash_base_of(g, fold.fixup->0@),
            scope.target_id@,
            locals,
            tips,
            locals.len() as int,
        )
    } else {
        tips
    }
}

/// Every branch that follows the target is in its stack.
pub open spec fn sub_is_in_stack(scope: CommitScope) -> bool {
    let sub = views(scope.sub_stack@);
    let all = views(scope.stack@);
    forall|k: int| 0 <= k < sub.len() ==> index_named(all, (#[trigger] sub[k]).0) < all.len()
}

/// The state with which a commit begins, and the commit below which history stays as it is. The
/// bases of the branches to rebase are noted, and the tips of all branches that may move.
pub fn begin_commit(
    graph: &CommitGraph,
    locals: &Vec<StackBranch>,
    scope: &CommitScope,
    plan: &CommitPlan,
    current_branch_name: &str,
    fold: &Fold,
    autostash: bool,
) -> (r: Result<(RebaseState, Option<String>), StackError>)
    ensures
        ({
            let sub = views(scope.sub_stack@);
            let all = views(scope.stack@);
            match r {
                Ok((state, base)) => {
                    &&& plan.will_rebase ==> sub_is_in_stack(*scope)
                    &&& opt_string(base) == match fold.fixup {
                        Some(c) => autosquash_base_of(graph@, c@),
                        None => None,
                    }
                    &&& state.operation == Operation::Commit
                    &&& state.original_branch@ == plan.target_branch@
                    &&& state.target_branch@ == plan.target_branch@
                    &&& opt_string(state.caller_branch) == if plan.switching {
                        Some(current_branch_name@)
                    } else {
                        None
                    }
                    &&& strs(state.remaining_branches@) == if plan.will_rebase {
                        strs(plan.remaining@)
                    } else {
                        Seq::empty()
                    }
                    &&& state.in_progress_branch is None
                    &&& text_map(state.parent_id_map@) == if plan.will_rebase {
                        parent_id_map(graph@, sub, all, scope.merge_base@, sub.len() as int)
                    } else {
                        Map::empty()
                    }
                    &&& text_map(state.parent_name_map@) == if plan.will_rebase {
                        parent_name_map(
                            graph@,
                            sub,
                            all,
                            scope.merge_base@,
                            scope.target_id@,
                            scope.target_branch@,
                            sub.len() as int,
                        )
                    } else {
                        Map::empty()
                    }
                    &&& text_map(state.original_tip_map@) == tips_to_keep(
                        graph@,
                        views(locals@),
                        *scope,
                        plan.will_rebase,
                        *fold,
                    )
                    &&& state.new_base_map@ == Map::<Seq<char>, String>::empty()
                    &&& state.original_commit_count_map@ == Map::<Seq<char>, usize>::empty()
                    &&& state.owned_tip_map@ == Map::<Seq<char>, String>::empty()
                    &&& state.stash_ref is None
                    &&& state.unstage_on_restore == plan.switching
                    &&& state.autostash == autostash
                    &&& !state.suppress_editor
                    &&& state.cleanup_merged_branches@.len() == 0
                    &&& state.cleanup_checkout_fallback is None
                },
                Err(StackError::NotInStack(name)) => plan.will_rebase && exists|k: int|
                    0 <= k < sub.len() && (#[trigger] sub[k]).0 == name@ && index_named(all, sub[k].0)
                        == all.len() && forall|j: int|
                        0 <= j < k ==> index_named(all, (#[trigger] sub[j]).0) < all.len(),
                Err(_) => false,
            }
        }),
{
    proof {
        lemma_text_map_empty();
    }
    let (ids, names) = if plan.will_rebase {
        match build_parent_maps(
            graph,
            &scope.sub_stack,
            &scope.stack,
            scope.merge_base.as_str(),
            scope.target_id.as_str(),
            scope.target_branch.as_str(),
        ) {
            Ok(maps) => maps,
            Err(e) => return Err(e),
        }
    } else {
        (NameMap::new(), NameMap::new())
    };
    let mut tips = original_tips(
        scope.target_branch.as_str(),
        scope.target_id.as_str(),
        &scope.sub_stack,
        plan.will_rebase,
    );
    let base = match &fold.fixup {
        Some(c) => autosquash_base(graph, c.as_str()),
        None => None,
    };
    if fold.inline && fold.fixup.is_some() {
        record_branch_tips_in_range(graph, locals, &base, scope.target_id.as_str(), &mut tips);
    }
    let state = commit_state(plan, current_branch_name, ids, names, tips, autostash);
    Ok((state, base))
}

proof fn lemma_found_is_listed(g: Parents, root: Seq<char>, all: Seq<BranchView>, have: Seq<BranchView>)
    ensures
        forall|k: int|
            0 <= k < with_descendants(g, root, all, have).len() ==> have.contains(
                #[trigger] with_descendants(g, root, all, have)[k],
            ) || all.contains(with_descendants(g, root, all, have)[k]),
    decreases all.len(),
{
    let found = with_descendants(g, root, all, have);
    assert forall|k: int| 0 <= k < found.len() implies have.contains(#[trigger] found[k])
        || all.contains(found[k]) by {
        if all.len() == 0 {
            assert(have[k] == found[k]);
        } else {
            let rest = all.drop_last();
            lemma_found_is_listed(g, root, rest, have);
            let before = with_descendants(g, root, rest, have);
            if k < before.len() {
                assert(before[k] == found[k]);
                if rest.contains(before[k]) {
                    assert(all[rest.index_of(before[k])] == found[k]);
                }
            } else {
                assert(all[all.len() - 1] == found[k]);
            }
        }
    }
}

proof fn lemma_listed_is_named(all: Seq<BranchView>, b: BranchView)
    requires
        all.contains(b),
    ensures
        index_named(all, b.0) < all.len(),
    decreases all.len(),
{
    if all[0].0 != b.0 {
        let i = all.index_of(b);
        assert(all.drop_first()[i - 1] == b);
        lemma_listed_is_named(all.drop_first(), b);
    }
}

/// A commit can always begin: what follows the target is part of its stack, so that the base of
/// every branch to rebase is known.
pub proof fn law_commit_can_begin(
    g: Parents,
    order: Seq<Seq<char>>,
    scope: CommitScope,
    upstream: Seq<char>,
)
    requires
        parents_first(g, order),
        views(scope.sub_stack@) == topological(
            g,
            target_sub_stack(
                g,
                scope.target_branch@,
                scope.target_id@,
                upstream,
                views(scope.stack@),
            ),
        ),
    ensures
        sub_is_in_stack(scope),
{
    let all = views(scope.stack@);
    let target = scope.target_branch@;
    let at = index_named(all, target);
    let found = target_sub_stack(g, target, scope.target_id@, upstream, all);
    let sub = views(scope.sub_stack@);
    law_topological(g, order, found);
    broadcast use vstd::seq_lib::group_to_multiset_ensures;

    assert forall|k: int| 0 <= k < sub.len() implies index_named(all, (#[trigger] sub[k]).0)
        < all.len() by {
        assert(sub.contains(sub[k]));
        assert(sub.to_multiset().count(sub[k]) > 0);
        assert(found.contains(sub[k]));
        let i = found.index_of(sub[k]);
        if target == upstream {
            lemma_found_is_listed(g, scope.target_id@, all, Seq::empty());
        } else if at < all.len() {
            lemma_index_is_a_place(all, target);
            lemma_found_is_listed(g, all[at].1, all, seq![all[at]]);
            assert(all.contains(all[at]));
        }
        assert(all.contains(found[i]));
        lemma_listed_is_named(all, sub[k]);
    }
}

proof fn lemma_index_is_a_place(all: Seq<BranchView>, name: Seq<char>)
    ensures
        0 <= index_named(all, name) <= all.len(),
    decreases all.len(),
{
    if all.len() > 0 && all[0].0 != name {
        lemma_index_is_a_place(all.drop_first(), name);
    }
}

} // verus!
