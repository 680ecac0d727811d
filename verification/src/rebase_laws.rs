//! What is promised of a rebase over several branches: where each branch goes, when it counts as
//! replayed, and what is remembered of where branches were.

use crate::boundary_laws::{is_first_parent_line, law_chain_is_the_line_of_first_parents, lemma_line_descends};
use crate::graph::{law_descent_is_strict, parents_first, reaches, Parents};
use crate::names::text_map;
use crate::oid::{full_oid, is_oid_text};
use crate::rebase_loop::{decision, RebaseDecision};
use crate::rebase_utils::{
    active_branch, advanced, augmented_tips, elsewhere, is_rebased, is_tracked, leading_true,
    new_base_of, nothing_pending, owned_tips, replay_done, restore_branch_of, stash_message,
    stash_with_message, worktree_lines, Operation, RebaseState,
};
use crate::stack::BranchView;
use crate::text::{index_of_char, lemma_index_of_char, strs, trim_of};
use vstd::prelude::*;

verus! {

/// A branch goes where the edit puts it. Where nothing was edited, the branch that the operation is
/// about goes to its target, and any other follows the branch that it stood on by name, or stays on
/// the commit that it stood on.
pub proof fn law_branch_follows_its_parent(state: RebaseState, name: Seq<char>)
    ensures
        state.new_base_map@.contains_key(name) ==> new_base_of(state, name)
            == state.new_base_map@[name]@,
        !state.new_base_map@.contains_key(name) && name == state.original_branch@ ==> new_base_of(
            state,
            name,
        ) == state.target_branch@,
        !state.new_base_map@.contains_key(name) && name != state.original_branch@
            && state.parent_name_map@.contains_key(name) ==> new_base_of(state, name)
            == state.parent_name_map@[name]@,
        !state.new_base_map@.contains_key(name) && name != state.original_branch@
            && !state.parent_name_map@.contains_key(name) ==> new_base_of(state, name)
            == state.parent_id_map@[name]@,
{
}

/// A branch leaves the list unrebased exactly where it has been replayed, git is in no rebase, and
/// the loop rebased something before or had begun this branch. Any other is rebased: again where it
/// was begun, for the first time where it was not.
pub proof fn law_branch_is_rebased_unless_replayed(
    state: RebaseState,
    started_any: bool,
    is_done: bool,
    git_rebase: bool,
)
    requires
        state.remaining_branches@.len() > 0,
    ensures
        ({
            let begun = state.in_progress_branch is Some && state.in_progress_branch->0@
                == state.remaining_branches@[0]@;
            let r = decision(state, started_any, is_done, git_rebase);
            &&& r == RebaseDecision::Skip <==> is_done && !git_rebase && (begun || started_any)
            &&& r != RebaseDecision::Skip ==> (r == RebaseDecision::Resume <==> begun)
        }),
{
}

/// A branch counts as replayed only where its tip is the new base or comes from it; the tip that is
/// the new base counts. A branch of which the commits were counted has not grown: the line of first
/// parents from the new base up to its tip is no longer than it was. The lowest commit that was
/// replayed stands on the new base.
pub proof fn law_replayed_branch_stands_on_its_base(
    g: Parents,
    order: Seq<Seq<char>>,
    count: Option<usize>,
    current: Seq<char>,
    new_base: Seq<char>,
    walk: Seq<Seq<char>>,
)
    requires
        parents_first(g, order),
    ensures
        ({
            let done = replay_done(g, order.len(), count, current, new_base, walk);
            &&& done == Some(true) ==> reaches(g, current, new_base)
            &&& current == new_base ==> done == Some(true)
            &&& !reaches(g, current, new_base) ==> done == Some(false)
            &&& done == Some(true) && current != new_base && walk.len() > 0 && g.contains_key(
                walk.last(),
            ) && g[walk.last()].len() > 0 ==> g[walk.last()][0] == new_base
            &&& reaches(g, current, new_base) && current != new_base && walk.len() > 0
                && g.contains_key(walk.last()) && g[walk.last()].len() > 0 && g[walk.last()][0]
                != new_base ==> done != Some(true)
            &&& reaches(g, current, new_base) && count is None && walk.len() > 0 && g.contains_key(
                walk.last(),
            ) && g[walk.last()].len() > 0 && g[walk.last()][0] == new_base ==> done == Some(true)
            &&& forall|line: Seq<Seq<char>>|
                #![trigger is_first_parent_line(g, line)]
                count is Some && line.len() > 1 && line[0] == new_base && line.last() == current
                    && is_first_parent_line(g, line) ==> (done == Some(true) ==> line.len() - 1
                    <= count->0) && (line.len() - 1 > count->0 ==> done == Some(false)) && (
                line.len() - 1 <= count->0 && walk.len() > 0 && g.contains_key(walk.last())
                    && g[walk.last()].len() > 0 && g[walk.last()][0] == new_base ==> done == Some(
                    true,
                ))
        }),
{
    law_chain_is_the_line_of_first_parents(g, order, new_base, current);
    let done = replay_done(g, order.len(), count, current, new_base, walk);
    assert forall|line: Seq<Seq<char>>|
        #![trigger is_first_parent_line(g, line)]
        count is Some && line.len() > 1 && line[0] == new_base && line.last() == current
            && is_first_parent_line(g, line) implies (done == Some(true) ==> line.len() - 1
        <= count->0) && (line.len() - 1 > count->0 ==> done == Some(false)) && (line.len() - 1
        <= count->0 && walk.len() > 0 && g.contains_key(walk.last()) && g[walk.last()].len() > 0
        && g[walk.last()][0] == new_base ==> done == Some(true)) by {
        if line.skip(1).contains(new_base) {
            let m = line.skip(1).index_of(new_base);
            lemma_line_descends(g, line, 0, m + 1);
            law_descent_is_strict(g, order, new_base, new_base);
        }
        lemma_line_descends(g, line, 0, line.len() - 1);
        law_descent_is_strict(g, order, current, current);
        assert(line.skip(1).len() == line.len() - 1);
    }
}

/// Only branches at the front that have been replayed leave a saved state, in their order; what is
/// left begins with the first that has not.
pub proof fn law_replayed_branches_leave_from_the_front(v: Seq<bool>, n: int)
    requires
        0 <= n,
    ensures
        0 <= leading_true(v, n) <= n,
        leading_true(v, n) <= v.len(),
        forall|i: int| 0 <= i < leading_true(v, n) ==> #[trigger] v[i],
        leading_true(v, n) < n && leading_true(v, n) < v.len() ==> !v[leading_true(v, n)],
    decreases v.len(),
{
    if n > 0 && v.len() > 0 && v[0] {
        let t = v.drop_first();
        law_replayed_branches_leave_from_the_front(t, n - 1);
        assert forall|i: int| 0 <= i < leading_true(v, n) implies #[trigger] v[i] by {
            if i > 0 {
                assert(t[i - 1] == v[i]);
            }
        }
        if leading_true(v, n) < n && leading_true(v, n) < v.len() {
            assert(t[leading_true(t, n - 1)] == v[leading_true(v, n)]);
        }
    }
}

/// A state that loses its first branches keeps everything else: the plan, the maps, the stash and the
/// branches behind, in their order.
pub proof fn law_advanced_state_keeps_the_rest(before: RebaseState, after: RebaseState, k: int)
    requires
        advanced(before, after, k),
        0 <= k <= before.remaining_branches@.len(),
    ensures
        after.remaining_branches@.len() == before.remaining_branches@.len() - k,
        forall|i: int|
            0 <= i < after.remaining_branches@.len() ==> #[trigger] after.remaining_branches@[i]
                == before.remaining_branches@[i + k],
        after.operation == before.operation,
        after.original_branch == before.original_branch,
        after.target_branch == before.target_branch,
        after.caller_branch == before.caller_branch,
        after.parent_id_map == before.parent_id_map,
        after.parent_name_map == before.parent_name_map,
        after.new_base_map == before.new_base_map,
        after.original_commit_count_map == before.original_commit_count_map,
        after.original_tip_map == before.original_tip_map,
        after.owned_tip_map == before.owned_tip_map,
        after.stash_ref == before.stash_ref,
        after.unstage_on_restore == before.unstage_on_restore,
        after.autostash == before.autostash,
        before.in_progress_branch is None ==> after.in_progress_branch is None,
        before.in_progress_branch is Some && after.in_progress_branch is Some
            ==> after.in_progress_branch->0@ == before.in_progress_branch->0@ && !strs(
            before.remaining_branches@.take(k),
        ).contains(before.in_progress_branch->0@),
{
}

/// The user ends on the branch that they called from; where none is noted, on the one that the
/// operation is about.
pub proof fn law_user_ends_where_they_were(state: RebaseState)
    ensures
        state.caller_branch matches Some(b) ==> restore_branch_of(state) == b@,
        state.caller_branch is None ==> restore_branch_of(state) == state.original_branch@,
{
}

/// A finished state goes away by itself only where nothing of the user's is left in it: no stash, no
/// staged changes, nothing to clean up; and the user is where the operation would end, unless it is
/// a sync.
pub proof fn law_finished_state_is_not_lost(state: RebaseState, current: Option<Seq<char>>)
    ensures
        nothing_pending(state, current) <==> state.stash_ref is None && !state.unstage_on_restore
            && state.cleanup_merged_branches@.len() == 0 && (state.operation == Operation::Sync
            || current == Some(
            if state.caller_branch is Some {
                state.caller_branch->0@
            } else {
                state.original_branch@
            },
        )),
{
}

/// The commit is one that the operation replays: it lies above the commit that a branch stood on, and
/// at or below the tip that the branch had.
pub open spec fn is_replayed(g: Parents, state: RebaseState, id: Seq<char>) -> bool {
    exists|name: Seq<char>| #[trigger]
        state.original_tip_map@.contains_key(name) && state.parent_id_map@.contains_key(name)
            && is_oid_text(state.original_tip_map@[name]@) && is_oid_text(
            state.parent_id_map@[name]@,
        ) && full_oid(state.original_tip_map@[name]@) != full_oid(state.parent_id_map@[name]@)
            && g.contains_key(full_oid(state.original_tip_map@[name]@)) && g.contains_key(
            full_oid(state.parent_id_map@[name]@),
        ) && reaches(g, full_oid(state.original_tip_map@[name]@), id) && !reaches(
            g,
            full_oid(state.parent_id_map@[name]@),
            id,
        )
}

/// What is told to be replayed is exactly what lies between where a branch stood and its old tip.
pub proof fn law_replayed_commits_lie_between(g: Parents, state: RebaseState, id: Seq<char>)
    ensures
        is_rebased(g, state, id) <==> is_replayed(g, state, id),
{
    if is_rebased(g, state, id) {
        let name = choose|name: Seq<char>|
            crate::rebase_utils::brought_along(g, state, name, id);
        assert(state.original_tip_map@.contains_key(name));
    }
    if is_replayed(g, state, id) {
        let name = choose|name: Seq<char>| #[trigger]
            state.original_tip_map@.contains_key(name) && state.parent_id_map@.contains_key(name)
                && is_oid_text(state.original_tip_map@[name]@) && is_oid_text(
                state.parent_id_map@[name]@,
            ) && full_oid(state.original_tip_map@[name]@) != full_oid(state.parent_id_map@[name]@)
                && g.contains_key(full_oid(state.original_tip_map@[name]@)) && g.contains_key(
                full_oid(state.parent_id_map@[name]@),
            ) && reaches(g, full_oid(state.original_tip_map@[name]@), id) && !reaches(
                g,
                full_oid(state.parent_id_map@[name]@),
                id,
            );
        assert(crate::rebase_utils::brought_along(g, state, name, id));
    }
}

/// The state speaks of the branch.
pub open spec fn speaks_of(state: RebaseState, name: Seq<char>) -> bool {
    ||| state.original_tip_map@.contains_key(name)
    ||| strs(state.remaining_branches@).contains(name)
    ||| state.original_branch@ == name
    ||| state.caller_branch is Some && state.caller_branch->0@ == name
    ||| state.in_progress_branch is Some && state.in_progress_branch->0@ == name
}

/// The tips that an operation leaves behind are noted for exactly the local branches that its state
/// speaks of or that are on a commit that it replays: for each the tip that it has.
pub proof fn law_owned_tips_are_those_of_the_operation(
    g: Parents,
    state: RebaseState,
    locals: Seq<BranchView>,
    n: int,
    name: Seq<char>,
)
    requires
        0 <= n <= locals.len(),
    ensures
        ({
            let tips = owned_tips(g, state, locals, n);
            &&& tips.contains_key(name) <==> exists|k: int|
                0 <= k < n && (#[trigger] locals[k]).0 == name && (speaks_of(state, name)
                    || is_replayed(g, state, locals[k].1))
            &&& tips.contains_key(name) ==> exists|k: int|
                0 <= k < n && (#[trigger] locals[k]).0 == name && locals[k].1 == tips[name] && (
                speaks_of(state, name) || is_replayed(g, state, locals[k].1))
        }),
    decreases n,
{
    if n > 0 {
        law_owned_tips_are_those_of_the_operation(g, state, locals, n - 1, name);
        let before = owned_tips(g, state, locals, n - 1);
        let b = locals[n - 1];
        law_replayed_commits_lie_between(g, state, b.1);
        assert(is_tracked(state, b.0) == speaks_of(state, b.0));
        if before.contains_key(name) {
            let k = choose|k: int|
                0 <= k < n - 1 && (#[trigger] locals[k]).0 == name && locals[k].1 == before[name]
                    && (speaks_of(state, name) || is_replayed(g, state, locals[k].1));
            assert(0 <= k < n && locals[k].0 == name);
        }
        if b.0 == name && (speaks_of(state, name) || is_replayed(g, state, b.1)) {
            assert(0 <= n - 1 < n && locals[n - 1].0 == name);
        }
    }
}

/// The original tips grow by exactly the local branches that are on a commit that the operation
/// replays and have no original tip yet: each gets the tip that it has.
pub proof fn law_tips_of_bystanders_are_noted(
    g: Parents,
    state: RebaseState,
    locals: Seq<BranchView>,
    n: int,
    name: Seq<char>,
)
    requires
        0 <= n <= locals.len(),
    ensures
        ({
            let tips = augmented_tips(g, state, locals, n);
            let known = state.original_tip_map@.contains_key(name);
            &&& known ==> tips.contains_key(name) && tips[name] == state.original_tip_map@[name]@
            &&& tips.contains_key(name) <==> known || exists|k: int|
                0 <= k < n && (#[trigger] locals[k]).0 == name && is_replayed(
                    g,
                    state,
                    locals[k].1,
                )
            &&& tips.contains_key(name) && !known ==> exists|k: int|
                0 <= k < n && (#[trigger] locals[k]).0 == name && locals[k].1 == tips[name]
                    && is_replayed(g, state, locals[k].1)
        }),
    decreases n,
{
    if n > 0 {
        law_tips_of_bystanders_are_noted(g, state, locals, n - 1, name);
        let before = augmented_tips(g, state, locals, n - 1);
        let b = locals[n - 1];
        law_replayed_commits_lie_between(g, state, b.1);
        if before.contains_key(name) && !state.original_tip_map@.contains_key(name) {
            let k = choose|k: int|
                0 <= k < n - 1 && (#[trigger] locals[k]).0 == name && locals[k].1 == before[name]
                    && is_replayed(g, state, locals[k].1);
            assert(0 <= k < n && locals[k].0 == name);
        }
        if b.0 == name && is_replayed(g, state, b.1) {
            assert(0 <= n - 1 < n && locals[n - 1].0 == name);
        }
    } else {
        assert(text_map(state.original_tip_map@).contains_key(name)
            == state.original_tip_map@.contains_key(name));
    }
}

/// The text names the branch: by its full reference or by its name, with white space around it or
/// without.
pub open spec fn names_head(text: Seq<char>, branch: Seq<char>) -> bool {
    ||| trim_of(text) == "refs/heads/"@ + branch
    ||| trim_of(text) == branch && !"refs/heads/"@.is_prefix_of(branch)
}

/// The branch that git rebases is the one that the merging rebase names, or else the one that the
/// applying rebase names. An empty name counts as none.
pub proof fn law_active_branch_is_the_named_one(
    merge_head: Option<Seq<char>>,
    apply_head: Option<Seq<char>>,
    branch: Seq<char>,
)
    ensures
        active_branch(merge_head, apply_head) == Some(branch) <==> branch.len() > 0 && ((
        merge_head is Some && names_head(merge_head->0, branch)) || ((merge_head is None
            || names_head(merge_head->0, Seq::empty())) && apply_head is Some && names_head(
            apply_head->0,
            branch,
        ))),
{
    if merge_head is Some {
        lemma_names_head(merge_head->0, branch);
        lemma_names_head(merge_head->0, Seq::empty());
        let name = crate::rebase_utils::head_name_branch(merge_head->0);
        if name.len() == 0 {
            assert(name =~= Seq::<char>::empty());
        }
    }
    if apply_head is Some {
        lemma_names_head(apply_head->0, branch);
    }
}

proof fn lemma_names_head(text: Seq<char>, branch: Seq<char>)
    ensures
        names_head(text, branch) <==> crate::rebase_utils::head_name_branch(text) == branch,
{
    let full = "refs/heads/"@;
    let t = trim_of(text);
    if full.is_prefix_of(t) {
        assert(t =~= full + t.skip(full.len() as int));
    }
    if t == full + branch {
        assert(t.subrange(0, full.len() as int) =~= full);
        assert(t.skip(full.len() as int) =~= branch);
    }
}

/// Line `j` is the nearest at or above line `k` that begins a worktree.
pub open spec fn is_worktree_above(lines: Seq<Seq<char>>, j: int, k: int) -> bool {
    0 <= j < k && "worktree "@.is_prefix_of(lines[j]) && forall|m: int|
        j < m < k ==> !"worktree "@.is_prefix_of(#[trigger] lines[m])
}

/// The line says that the branch is checked out.
pub open spec fn says_branch(line: Seq<char>, branch: Seq<char>) -> bool {
    &&& "branch "@.is_prefix_of(line)
    &&& !"worktree "@.is_prefix_of(line)
    &&& {
        let value = line.skip("branch "@.len() as int);
        branch == trim_of(
            if "refs/heads/"@.is_prefix_of(value) {
                value.skip("refs/heads/"@.len() as int)
            } else {
                value
            },
        )
    }
}

/// In what `git worktree list --porcelain` prints, a branch is in the worktree of the section that
/// names it; the last section counts. Branches that no section names are in none.
pub proof fn law_branch_is_in_its_worktree(lines: Seq<Seq<char>>, n: int, branch: Seq<char>)
    requires
        0 <= n <= lines.len(),
    ensures
        ({
            let (path, map) = worktree_lines(lines.take(n));
            &&& map.contains_key(branch) <==> exists|k: int|
                0 <= k < n && says_branch(#[trigger] lines[k], branch)
            &&& (path == Seq::<char>::empty() && forall|k: int|
                0 <= k < n ==> !"worktree "@.is_prefix_of(#[trigger] lines[k])) || exists|j: int|
                #[trigger]
                is_worktree_above(lines, j, n) && path == trim_of(
                    lines[j].skip("worktree "@.len() as int),
                )
            &&& map.contains_key(branch) ==> exists|k: int| #[trigger]
                is_last_saying(lines, n, branch, k) && (map[branch] == Seq::<char>::empty()
                    || exists|j: int| #[trigger]
                    is_worktree_above(lines, j, k) && map[branch] == trim_of(
                        lines[j].skip("worktree "@.len() as int),
                    )) && ((exists|j: int|
                    0 <= j < k && "worktree "@.is_prefix_of(#[trigger] lines[j])) ==> exists|
                    j: int,
                | #[trigger]
                    is_worktree_above(lines, j, k) && map[branch] == trim_of(
                        lines[j].skip("worktree "@.len() as int),
                    ))
        }),
    decreases n,
{
    let part = lines.take(n);
    if n > 0 {
        assert(part.drop_last() =~= lines.take(n - 1));
        let line = lines[n - 1];
        assert(part.last() == line);
        law_branch_is_in_its_worktree(lines, n - 1, branch);
        let (path0, map0) = worktree_lines(lines.take(n - 1));
        let (path, map) = worktree_lines(part);
        if "worktree "@.is_prefix_of(line) {
            assert(is_worktree_above(lines, n - 1, n));
        } else {
            if exists|j: int| #[trigger]
                is_worktree_above(lines, j, n - 1) && path0 == trim_of(
                    lines[j].skip("worktree "@.len() as int),
                ) {
                let j = choose|j: int| #[trigger]
                    is_worktree_above(lines, j, n - 1) && path0 == trim_of(
                        lines[j].skip("worktree "@.len() as int),
                    );
                assert(is_worktree_above(lines, j, n));
            }
        }
        if exists|k: int| 0 <= k < n - 1 && says_branch(#[trigger] lines[k], branch) {
            let k = choose|k: int| 0 <= k < n - 1 && says_branch(#[trigger] lines[k], branch);
            assert(0 <= k < n && says_branch(lines[k], branch));
        }
        if says_branch(line, branch) {
            assert(0 <= n - 1 < n && says_branch(lines[n - 1], branch));
            assert(is_last_saying(lines, n, branch, n - 1));
            assert(map[branch] == path0);
        } else if map.contains_key(branch) {
            assert(map0.contains_key(branch) && map0[branch] == map[branch]);
            let k = choose|k: int| #[trigger]
                is_last_saying(lines, n - 1, branch, k) && (map0[branch] == Seq::<char>::empty()
                    || exists|j: int| #[trigger]
                    is_worktree_above(lines, j, k) && map0[branch] == trim_of(
                        lines[j].skip("worktree "@.len() as int),
                    )) && ((exists|j: int|
                    0 <= j < k && "worktree "@.is_prefix_of(#[trigger] lines[j])) ==> exists|
                    j: int,
                | #[trigger]
                    is_worktree_above(lines, j, k) && map0[branch] == trim_of(
                        lines[j].skip("worktree "@.len() as int),
                    ));
            assert(is_last_saying(lines, n, branch, k));
        }
    }
}

/// Line `k` is the last of the first `n` that says that the branch is checked out.
pub open spec fn is_last_saying(lines: Seq<Seq<char>>, n: int, branch: Seq<char>, k: int) -> bool {
    0 <= k < n && says_branch(lines[k], branch) && forall|m: int|
        k < m < n ==> !says_branch(#[trigger] lines[m], branch)
}

/// A branch is elsewhere where its worktree is known and is another one.
pub proof fn law_elsewhere_is_another_worktree(
    map: Map<Seq<char>, Seq<char>>,
    here: Seq<char>,
    branch: Seq<char>,
)
    ensures
        elsewhere(map, here, branch) <==> map.contains_key(branch) && map[branch] != here,
{
}

/// The line is about a stash with that message.
pub open spec fn is_stash_line(line: Seq<char>, message: Seq<char>) -> bool {
    line.contains('\t') && stash_message(line.skip(index_of_char(line, '\t') + 1)) == message
}

/// The stash with a message is the one of the first line that has it: what stands before the tab.
pub proof fn law_stash_is_the_first_with_its_message(lines: Seq<Seq<char>>, message: Seq<char>)
    ensures
        match stash_with_message(lines, message) {
            Some(s) => exists|k: int| {
                &&& 0 <= k < lines.len()
                &&& is_stash_line(#[trigger] lines[k], message)
                &&& s == lines[k].take(index_of_char(lines[k], '\t'))
                &&& forall|j: int| 0 <= j < k ==> !is_stash_line(#[trigger] lines[j], message)
            },
            None => forall|j: int|
                0 <= j < lines.len() ==> !is_stash_line(#[trigger] lines[j], message),
        },
    decreases lines.len(),
{
    if lines.len() > 0 {
        let first = lines[0];
        lemma_index_of_char(first, '\t');
        let at = index_of_char(first, '\t');
        if at < first.len() {
            assert(first.contains(first[at]));
        }
        if is_stash_line(first, message) {
            assert(is_stash_line(lines[0], message));
        } else {
            let rest = lines.drop_first();
            law_stash_is_the_first_with_its_message(rest, message);
            assert forall|j: int| 0 <= j < rest.len() implies #[trigger] rest[j] == lines[j + 1] by {}
            match stash_with_message(rest, message) {
                Some(s) => {
                    let k = choose|k: int| {
                        &&& 0 <= k < rest.len()
                        &&& is_stash_line(#[trigger] rest[k], message)
                        &&& s == rest[k].take(index_of_char(rest[k], '\t'))
                        &&& forall|j: int|
                            0 <= j < k ==> !is_stash_line(#[trigger] rest[j], message)
                    };
                    assert(is_stash_line(lines[k + 1], message));
                    assert forall|j: int| 0 <= j < k + 1 implies !is_stash_line(
                        #[trigger] lines[j],
                        message,
                    ) by {
                        if j > 0 {
                            assert(rest[j - 1] == lines[j]);
                        }
                    }
                },
                None => {
                    assert forall|j: int| 0 <= j < lines.len() implies !is_stash_line(
                        #[trigger] lines[j],
                        message,
                    ) by {
                        if j > 0 {
                            assert(rest[j - 1] == lines[j]);
                        }
                    }
                },
            }
        }
    }
}

} // verus!
