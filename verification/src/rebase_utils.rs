//! The state of a rebase that runs over several branches, and the decisions on the way.

use crate::boundary::{collect_first_parent_chain, first_parent_chain, BrokenHistory};
use crate::graph::{reaches, reaches_commit, CommitGraph, Parents};
use crate::names::{lemma_text_map_insert, text_map, NameMap};
use crate::oid::{full_oid, is_oid_text, parse_oid};
use crate::stack::{names_of, views, BranchView, StackBranch};
use crate::text::{
    cat3, cat4, has_text, is_text, lines_of, opt_string, opt_text, same, split_lines, split_once,
    split_once_spec, split_once_text, split_once_text_of, starts_with, strip_prefix, strs, trim,
    trim_of,
};
use vstd::prelude::*;

verus! {

#[derive(Debug, Clone, Copy, PartialEq, Eq, Structural)]
pub enum Operation {
    Move,
    Reorder,
    Commit,
    Sync,
}

/// What is kept on disk between the steps of an operation that rebases several branches.
#[derive(Debug)]
pub struct RebaseState {
    pub operation: Operation,
    /// The branch at the root of the rebase.
    pub original_branch: String,
    /// The branch that the operation goes to.
    pub target_branch: String,
    /// The branch to go back to at the end, where it is not the original branch.
    pub caller_branch: Option<String>,
    /// The branches that are still to be rebased, the next one first.
    pub remaining_branches: Vec<String>,
    /// The branch whose rebase was begun.
    pub in_progress_branch: Option<String>,
    /// The commit that each branch stood on.
    pub parent_id_map: NameMap<String>,
    /// The branch that each branch stood on, where there was one.
    pub parent_name_map: NameMap<String>,
    /// New bases that are given outright, as a branch or a commit.
    pub new_base_map: NameMap<String>,
    /// How many first-parent commits each branch had of its own.
    pub original_commit_count_map: NameMap<usize>,
    /// The tips before the operation began.
    pub original_tip_map: NameMap<String>,
    /// The tips that the operation left behind when it last stopped.
    pub owned_tip_map: NameMap<String>,
    /// The stash that holds changes set aside.
    pub stash_ref: Option<String>,
    /// Whether to unstage everything on return to the original branch.
    pub unstage_on_restore: bool,
    /// Whether the rebases set changes aside by themselves.
    pub autostash: bool,
    /// Whether a continued rebase keeps commit messages without asking.
    pub suppress_editor: bool,
    /// Merged branches to delete after a sync.
    pub cleanup_merged_branches: Vec<String>,
    /// The branch to go to where the current one is deleted after a sync.
    pub cleanup_checkout_fallback: Option<String>,
}

#[derive(Debug, Clone, Copy, PartialEq, Eq, Structural)]
pub enum ReconcileMode {
    Continue,
    Passive,
}

/// The two states differ at most in the branches that are left and the branch in progress.
pub open spec fn same_plan(a: RebaseState, b: RebaseState) -> bool {
    &&& a.operation == b.operation
    &&& a.original_branch == b.original_branch
    &&& a.target_branch == b.target_branch
    &&& a.caller_branch == b.caller_branch
    &&& a.parent_id_map == b.parent_id_map
    &&& a.parent_name_map == b.parent_name_map
    &&& a.new_base_map == b.new_base_map
    &&& a.original_commit_count_map == b.original_commit_count_map
    &&& a.original_tip_map == b.original_tip_map
    &&& a.owned_tip_map == b.owned_tip_map
    &&& a.stash_ref == b.stash_ref
    &&& a.unstage_on_restore == b.unstage_on_restore
    &&& a.autostash == b.autostash
    &&& a.suppress_editor == b.suppress_editor
    &&& a.cleanup_merged_branches == b.cleanup_merged_branches
    &&& a.cleanup_checkout_fallback == b.cleanup_checkout_fallback
}

/// Why a rebase over several branches stops.
#[derive(Debug)]
pub enum RebaseError {
    /// The state does not say what the branch stood on.
    NoParent(String),
    /// The first-parent line of a branch does not come by its new base.
    History(BrokenHistory),
    /// git stopped in the middle of a rebase.
    Conflict(String),
    /// git did not begin the rebase.
    NotStarted(String),
    /// A rebase is active that the state does not know.
    ForeignRebase,
    /// The branch is checked out at that path.
    CheckedOut(String, String),
    /// No stash has that message.
    NoStash(String),
}

impl RebaseError {
    pub open spec fn text(self) -> Seq<char> {
        match self {
            RebaseError::NoParent(b) => "Parent ID not found for branch '"@ + b@ + "'"@,
            RebaseError::History(e) => "Failed to walk first-parent history from "@ + e.tip@
                + " to merge-base "@ + e.base@ + "."@,
            RebaseError::Conflict(b) => "Rebase failed for branch "@ + b@
                + ". Resolve conflicts and run 'kin continue'."@,
            RebaseError::NotStarted(b) => "Rebase failed for branch "@ + b@
                + ". It seems to have failed before starting (e.g., dirty working tree). Fix the issue and run 'kin continue'."@,
            RebaseError::ForeignRebase =>
                "Active git rebase does not match saved Kindra rebase state. Resolve or abort the active git rebase before continuing."@,
            RebaseError::CheckedOut(b, path) => b@ + " is checked out in "@ + path@
                + ", aborting as a full rebase can not be completed. Use --force to ignore this check."@,
            RebaseError::NoStash(s) => "Could not locate stash entry '"@ + s@ + "'."@,
        }
    }

    pub fn message(&self) -> (r: String)
        ensures
            r@ == self.text(),
    {
        match self {
            RebaseError::NoParent(b) => cat3("Parent ID not found for branch '", b.as_str(), "'"),
            RebaseError::History(e) => e.message(),
            RebaseError::Conflict(b) => cat3(
                "Rebase failed for branch ",
                b.as_str(),
                ". Resolve conflicts and run 'kin continue'.",
            ),
            RebaseError::NotStarted(b) => cat3(
                "Rebase failed for branch ",
                b.as_str(),
                ". It seems to have failed before starting (e.g., dirty working tree). Fix the issue and run 'kin continue'.",
            ),
            RebaseError::ForeignRebase =>
                "Active git rebase does not match saved Kindra rebase state. Resolve or abort the active git rebase before continuing.".to_owned(),
            RebaseError::CheckedOut(b, path) => cat4(
                b.as_str(),
                " is checked out in ",
                path.as_str(),
                ", aborting as a full rebase can not be completed. Use --force to ignore this check.",
            ),
            RebaseError::NoStash(s) => cat3("Could not locate stash entry '", s.as_str(), "'."),
        }
    }
}

/// Where a branch goes: the base that is given outright, the target for the original branch, the
/// branch that it stood on, or else the commit that it stood on.
pub open spec fn new_base_of(state: RebaseState, name: Seq<char>) -> Seq<char> {
    if state.new_base_map@.contains_key(name) {
        state.new_base_map@[name]@
    } else if name == state.original_branch@ {
        state.target_branch@
    } else if state.parent_name_map@.contains_key(name) {
        state.parent_name_map@[name]@
    } else {
        state.parent_id_map@[name]@
    }
}

/// The commit that the branch stood on, and where it goes.
pub fn branch_rebase_target(state: &RebaseState, branch_name: &str) -> (r: Result<
    (String, String),
    RebaseError,
>)
    ensures
        match r {
            Ok((old_parent, new_base)) => {
                &&& state.parent_id_map@.contains_key(branch_name@)
                &&& old_parent@ == state.parent_id_map@[branch_name@]@
                &&& new_base@ == new_base_of(*state, branch_name@)
            },
            Err(RebaseError::NoParent(b)) => b@ == branch_name@
                && !state.parent_id_map@.contains_key(branch_name@),
            Err(_) => false,
        },
{
    let old_parent = match state.parent_id_map.get(branch_name) {
        Some(p) => p.clone(),
        None => return Err(RebaseError::NoParent(branch_name.to_owned())),
    };
    let new_base = match state.new_base_map.get(branch_name) {
        Some(base) => base.clone(),
        None => if same(branch_name, state.original_branch.as_str()) {
            state.target_branch.clone()
        } else {
            match state.parent_name_map.get(branch_name) {
                Some(name) => name.clone(),
                None => old_parent.clone(),
            }
        },
    };
    Ok((old_parent, new_base))
}

/// The first replayed commit is attached to the new base by its first parent. `walk` lists the
/// commits above the base, the newest first.
pub open spec fn attached(g: Parents, walk: Seq<Seq<char>>, new_base: Seq<char>) -> bool {
    walk.len() == 0 || !g.contains_key(walk.last()) || g[walk.last()].len() == 0
        || g[walk.last()][0] == new_base
}

/// Whether the branch has been replayed onto its new base: its tip is the base or comes from it, it
/// has no more first-parent commits than it had, and the first of them is attached to the base.
/// `None` where the commits cannot be counted.
pub open spec fn replay_done(
    g: Parents,
    steps: nat,
    count: Option<usize>,
    current: Seq<char>,
    new_base: Seq<char>,
    walk: Seq<Seq<char>>,
) -> Option<bool> {
    if !reaches(g, current, new_base) {
        Some(false)
    } else if current == new_base {
        Some(true)
    } else {
        match count {
            None => Some(attached(g, walk, new_base)),
            Some(n) => match first_parent_chain(g, new_base, current, steps) {
                None => None,
                Some(chain) => Some(chain.len() <= n && attached(g, walk, new_base)),
            },
        }
    }
}

/// How many commits of its own a branch had, where that is known.
pub open spec fn own_count(state: RebaseState, name: Seq<char>) -> Option<usize> {
    if state.original_commit_count_map@.contains_key(name) {
        Some(state.original_commit_count_map@[name])
    } else {
        None
    }
}

/// Whether a branch has been replayed. `current_id` is its tip, `new_base_id` the commit behind its
/// new base, and `walk` lists what lies between them, the newest first.
pub fn branch_rebase_completed(
    graph: &CommitGraph,
    state: &RebaseState,
    branch_name: &str,
    current_id: &str,
    new_base_id: &str,
    walk: &Vec<String>,
) -> (r: Result<bool, RebaseError>)
    ensures
        ({
            let known = state.parent_id_map@.contains_key(branch_name@);
            let done = replay_done(
                graph@,
                graph.order().len(),
                own_count(*state, branch_name@),
                current_id@,
                new_base_id@,
                strs(walk@),
            );
            match r {
                Ok(yes) => known && done == Some(yes),
                Err(RebaseError::NoParent(b)) => !known && b@ == branch_name@,
                Err(RebaseError::History(e)) => known && done is None && e.tip@ == current_id@
                    && e.base@ == new_base_id@,
                Err(_) => false,
            }
        }),
{
    if !state.parent_id_map.contains(branch_name) {
        return Err(RebaseError::NoParent(branch_name.to_owned()));
    }
    if !reaches_commit(graph, current_id, new_base_id) {
        return Ok(false);
    }
    if same(current_id, new_base_id) {
        return Ok(true);
    }
    if let Some(count) = state.original_commit_count_map.get(branch_name) {
        match collect_first_parent_chain(graph, new_base_id, current_id) {
            Ok(chain) => {
                assert(strs(chain@).len() == chain@.len());
                if chain.len() > *count {
                    return Ok(false);
                }
            },
            Err(e) => return Err(RebaseError::History(e)),
        }
    }
    let n: usize = walk.len();
    assert(strs(walk@).len() == n);
    if n == 0 {
        return Ok(true);
    }
    assert(strs(walk@).last() == walk@[n - 1]@);
    match graph.parents(walk[n - 1].as_str()) {
        Some(ps) => {
            assert(strs(ps@).len() == ps@.len());
            if ps.len() > 0 {
                assert(strs(ps@)[0] == ps@[0]@);
                Ok(same(ps[0].as_str(), new_base_id))
            } else {
                Ok(true)
            }
        },
        None => Ok(true),
    }
}

/// Whether a sync has finished its rebase: the original branch is the target or comes from it.
pub fn sync_rebase_completed(graph: &CommitGraph, original_tip: &str, target_tip: &str) -> (r: bool)
    ensures
        r == reaches(graph@, original_tip@, target_tip@),
{
    reaches_commit(graph, original_tip, target_tip)
}

/// The branch to end on.
pub open spec fn restore_branch_of(state: RebaseState) -> Seq<char> {
    match state.caller_branch {
        Some(b) => b@,
        None => state.original_branch@,
    }
}

pub fn restore_branch(state: &RebaseState) -> (r: String)
    ensures
        r@ == restore_branch_of(*state),
{
    match &state.caller_branch {
        Some(b) => b.clone(),
        None => state.original_branch.clone(),
    }
}

/// Nothing is left to do for a finished state: no stash to bring back, nothing to unstage, nothing
/// to clean up, and the user is where the operation would end.
pub open spec fn nothing_pending(state: RebaseState, current: Option<Seq<char>>) -> bool {
    &&& state.stash_ref is None
    &&& !state.unstage_on_restore
    &&& state.cleanup_merged_branches@.len() == 0
    &&& state.operation == Operation::Sync || current == Some(restore_branch_of(state))
}

pub fn can_passively_clear_completed_state(
    state: &RebaseState,
    current_branch: &Option<String>,
) -> (r: bool)
    ensures
        r == nothing_pending(*state, opt_string(*current_branch)),
{
    if state.stash_ref.is_some() || state.unstage_on_restore
        || state.cleanup_merged_branches.len() != 0 {
        return false;
    }
    if state.operation == Operation::Sync {
        return true;
    }
    is_text(current_branch, restore_branch(state).as_str())
}

/// What is seen of the repository when a saved state is looked at.
#[derive(Debug)]
pub struct ReconcileFacts {
    /// git is in the middle of a rebase.
    pub git_rebase_in_progress: bool,
    /// That rebase is the one that the state knows.
    pub active_matches: bool,
    /// For a sync: its rebase has finished.
    pub sync_done: bool,
    /// For the first branches that are left: whether each has been replayed.
    pub completed: Vec<bool>,
    /// The branch that is checked out.
    pub current_branch: Option<String>,
}

/// What becomes of a saved state.
#[derive(Debug, Clone, Copy, PartialEq, Eq, Structural)]
pub enum Reconciled {
    /// Another rebase than the saved one is active.
    Mismatch,
    /// The saved rebase is active.
    Active,
    /// Everything is done: the state goes away.
    Clear,
    /// The state stays; it is written again where it changed.
    Keep { save: bool },
}

/// The number of values `true` that a list begins with, counted up to `n`.
pub open spec fn leading_true(v: Seq<bool>, n: int) -> int
    decreases v.len(),
{
    if n <= 0 || v.len() == 0 || !v[0] {
        0
    } else {
        1 + leading_true(v.drop_first(), n - 1)
    }
}

proof fn lemma_leading_true(v: Seq<bool>, n: int, k: int)
    requires
        0 <= k <= n,
        k <= v.len(),
        forall|i: int| 0 <= i < k ==> #[trigger] v[i],
        k == n || k == v.len() || !v[k],
    ensures
        leading_true(v, n) == k,
    decreases v.len(),
{
    if k > 0 {
        assert(v[0]);
        let t = v.drop_first();
        assert forall|i: int| 0 <= i < k - 1 implies #[trigger] t[i] by {
            assert(t[i] == v[i + 1]);
        }
        lemma_leading_true(t, n - 1, k - 1);
    }
}

/// The state without its first `k` branches.
pub open spec fn advanced(before: RebaseState, after: RebaseState, k: int) -> bool {
    &&& same_plan(before, after)
    &&& after.remaining_branches@ == before.remaining_branches@.skip(k)
    &&& opt_string(after.in_progress_branch) == if before.in_progress_branch is Some && strs(
        before.remaining_branches@.take(k),
    ).contains(before.in_progress_branch->0@) {
        None
    } else {
        opt_string(before.in_progress_branch)
    }
}

/// Takes the branches that have been replayed off the front.
fn drop_completed(state: &mut RebaseState, completed: &Vec<bool>) -> (r: usize)
    ensures
        r == leading_true(completed@, old(state).remaining_branches@.len() as int),
        advanced(*old(state), *final(state), r as int),
        r <= old(state).remaining_branches@.len(),
{
    let n: usize = state.remaining_branches.len();
    let mut k: usize = 0;
    let mut hit = false;
    while k < n && k < completed.len() && completed[k]
        invariant
            k <= n == state.remaining_branches@.len(),
            k <= completed@.len(),
            *state == *old(state),
            forall|i: int| 0 <= i < k ==> #[trigger] completed@[i],
            hit == (state.in_progress_branch is Some && strs(
                state.remaining_branches@.take(k as int),
            ).contains(state.in_progress_branch->0@)),
        decreases n - k,
    {
        let ghost part = strs(state.remaining_branches@.take(k as int));
        let ghost next = strs(state.remaining_branches@.take(k + 1));
        assert(next =~= part.push(state.remaining_branches@[k as int]@));
        if is_text(&state.in_progress_branch, state.remaining_branches[k].as_str()) {
            assert(next[k as int] == state.in_progress_branch->0@);
            hit = true;
        }
        proof {
            if hit && part.contains(state.in_progress_branch->0@) {
                let j = part.index_of(state.in_progress_branch->0@);
                assert(next[j] == part[j]);
            }
            if state.in_progress_branch is Some && next.contains(state.in_progress_branch->0@) {
                let j = next.index_of(state.in_progress_branch->0@);
                if j < k {
                    assert(part[j] == next[j]);
                }
            }
        }
        k += 1;
    }
    proof {
        lemma_leading_true(completed@, n as int, k as int);
    }
    if hit {
        state.in_progress_branch = None;
    }
    let rest = state.remaining_branches.split_off(k);
    state.remaining_branches = rest;
    assert(rest@ =~= old(state).remaining_branches@.skip(k as int));
    k
}

/// Brings a saved state up to date with the repository and says what becomes of it.
pub fn reconcile_saved_rebase_state(
    state: &mut RebaseState,
    mode: ReconcileMode,
    facts: &ReconcileFacts,
) -> (r: Reconciled)
    ensures
        ({
            let before = *old(state);
            let after = *final(state);
            let k = leading_true(facts.completed@, before.remaining_branches@.len() as int);
            if facts.git_rebase_in_progress {
                after == before && r == if facts.active_matches {
                    Reconciled::Active
                } else {
                    Reconciled::Mismatch
                }
            } else {
                &&& if before.operation == Operation::Sync {
                    if facts.sync_done {
                        same_plan(before, after) && after.remaining_branches@.len() == 0
                            && after.in_progress_branch is None
                    } else {
                        after == before
                    }
                } else {
                    advanced(before, after, k)
                }
                &&& r == if after.remaining_branches@.len() == 0 && after.in_progress_branch is None
                    && mode == ReconcileMode::Passive && nothing_pending(
                    after,
                    opt_string(facts.current_branch),
                ) {
                    Reconciled::Clear
                } else {
                    Reconciled::Keep {
                        save: if before.operation == Operation::Sync {
                            facts.sync_done
                        } else {
                            k > 0
                        },
                    }
                }
            }
        }),
{
    if facts.git_rebase_in_progress {
        return if facts.active_matches {
            Reconciled::Active
        } else {
            Reconciled::Mismatch
        };
    }
    let changed = if state.operation == Operation::Sync {
        if facts.sync_done {
            state.remaining_branches.clear();
            state.in_progress_branch = None;
        }
        facts.sync_done
    } else {
        drop_completed(state, &facts.completed) > 0
    };
    if state.remaining_branches.len() == 0 && state.in_progress_branch.is_none() && mode
        == ReconcileMode::Passive && can_passively_clear_completed_state(
        state,
        &facts.current_branch,
    ) {
        return Reconciled::Clear;
    }
    Reconciled::Keep { save: changed }
}

/// Whether an operation counts as in progress after its state was looked at in passing.
pub fn passively_reconcile_rebase_state(outcome: Reconciled) -> (r: bool)
    ensures
        r == (outcome != Reconciled::Clear),
{
    outcome != Reconciled::Clear
}

/// The commit was among those that a branch brought along: above what the branch stood on, at or
/// below its original tip.
pub open spec fn brought_along(g: Parents, state: RebaseState, name: Seq<char>, id: Seq<char>) -> bool {
    let tip = state.original_tip_map@[name]@;
    let parent = state.parent_id_map@[name]@;
    &&& state.original_tip_map@.contains_key(name)
    &&& state.parent_id_map@.contains_key(name)
    &&& is_oid_text(tip)
    &&& is_oid_text(parent)
    &&& full_oid(tip) != full_oid(parent)
    &&& g.contains_key(full_oid(tip))
    &&& g.contains_key(full_oid(parent))
    &&& reaches(g, full_oid(tip), id)
    &&& !reaches(g, full_oid(parent), id)
}

/// The commit is one of those that the operation rebases.
pub open spec fn is_rebased(g: Parents, state: RebaseState, id: Seq<char>) -> bool {
    exists|name: Seq<char>| brought_along(g, state, name, id)
}

/// Whether the commit is one of those that the operation rebases.
pub fn in_rebased_commit_set(graph: &CommitGraph, state: &RebaseState, id: &str) -> (r: bool)
    ensures
        r == is_rebased(graph@, *state, id@),
{
    let n = state.original_tip_map.len();
    let mut i: usize = 0;
    while i < n
        invariant
            i <= n == state.original_tip_map.names().len(),
            state.original_tip_map.listed(),
            forall|j: int|
                0 <= j < i ==> !brought_along(
                    graph@,
                    *state,
                    #[trigger] state.original_tip_map.names()[j],
                    id@,
                ),
        decreases n - i,
    {
        let name = state.original_tip_map.name_at(i);
        let tip_text = state.original_tip_map.value_at(i);
        if let Some(parent_text) = state.parent_id_map.get(name.as_str()) {
            if let Some(tip) = parse_oid(tip_text.as_str()) {
                if let Some(parent) = parse_oid(parent_text.as_str()) {
                    if !same(tip.as_str(), parent.as_str()) && graph.contains(tip.as_str())
                        && graph.contains(parent.as_str()) && reaches_commit(graph, tip.as_str(), id)
                        && !reaches_commit(graph, parent.as_str(), id) {
                        assert(brought_along(graph@, *state, name@, id@));
                        return true;
                    }
                }
            }
        }
        i += 1;
    }
    proof {
        assert forall|name: Seq<char>| !brought_along(graph@, *state, name, id@) by {
            if state.original_tip_map@.contains_key(name) {
                let j = state.original_tip_map.names().index_of(name);
                assert(state.original_tip_map.names()[j] == name);
            }
        }
    }
    false
}

/// The branches that the state speaks of.
pub open spec fn is_tracked(state: RebaseState, name: Seq<char>) -> bool {
    ||| state.original_tip_map@.contains_key(name)
    ||| strs(state.remaining_branches@).contains(name)
    ||| state.original_branch@ == name
    ||| opt_string(state.caller_branch) == Some(name)
    ||| opt_string(state.in_progress_branch) == Some(name)
}

/// Whether the state speaks of the branch.
pub fn tracks(state: &RebaseState, name: &str) -> (r: bool)
    ensures
        r == is_tracked(*state, name@),
{
    state.original_tip_map.contains(name) || has_text(&state.remaining_branches, name) || same(
        state.original_branch.as_str(),
        name,
    ) || is_text(&state.caller_branch, name) || is_text(&state.in_progress_branch, name)
}

/// The tips of the first `n` local branches that the state speaks of or that point at a commit that
/// the operation rebases.
pub open spec fn owned_tips(
    g: Parents,
    state: RebaseState,
    locals: Seq<BranchView>,
    n: int,
) -> Map<Seq<char>, Seq<char>>
    decreases n,
{
    if n <= 0 {
        Map::empty()
    } else {
        let before = owned_tips(g, state, locals, n - 1);
        let b = locals[n - 1];
        if (is_tracked(state, b.0) || is_rebased(g, state, b.1)) && !before.contains_key(b.0) {
            before.insert(b.0, b.1)
        } else {
            before
        }
    }
}

/// The tips that the operation is about to leave behind.
pub fn capture_owned_tip_map(
    graph: &CommitGraph,
    locals: &Vec<StackBranch>,
    state: &RebaseState,
) -> (r: NameMap<String>)
    ensures
        text_map(r@) == owned_tips(graph@, *state, views(locals@), locals@.len() as int),
{
    let ghost all = views(locals@);
    let mut out: NameMap<String> = NameMap::new();
    let mut i: usize = 0;
    proof {
        crate::names::lemma_text_map_empty();
    }
    while i < locals.len()
        invariant
            i <= locals@.len(),
            all == views(locals@),
            text_map(out@) == owned_tips(graph@, *state, all, i as int),
        decreases locals@.len() - i,
    {
        let b = &locals[i];
        assert(all[i as int] == b@);
        assert(text_map(out@).contains_key(b.name@) == out@.contains_key(b.name@));
        if (tracks(state, b.name.as_str()) || in_rebased_commit_set(graph, state, b.id.as_str()))
            && !out.contains(b.name.as_str()) {
            proof {
                lemma_text_map_insert(out@, b.name@, b.id);
            }
            out.insert(b.name.clone(), b.id.clone());
        }
        i += 1;
    }
    out
}

/// Whether the tips are still those that the operation left behind. A state that names none proves
/// nothing, so then they are not.
pub fn owned_tip_state_matches(
    graph: &CommitGraph,
    locals: &Vec<StackBranch>,
    state: &RebaseState,
) -> (r: bool)
    ensures
        r == (state.owned_tip_map.names().len() > 0 && owned_tips(
            graph@,
            *state,
            views(locals@),
            locals@.len() as int,
        ) == text_map(state.owned_tip_map@)),
{
    if state.owned_tip_map.len() == 0 {
        return false;
    }
    let current = capture_owned_tip_map(graph, locals, state);
    current.same_texts(&state.owned_tip_map)
}

/// The tips with those added of the first `n` local branches that point at a commit that the
/// operation rebases. A tip that is known stays.
pub open spec fn augmented_tips(
    g: Parents,
    state: RebaseState,
    locals: Seq<BranchView>,
    n: int,
) -> Map<Seq<char>, Seq<char>>
    decreases n,
{
    if n <= 0 {
        text_map(state.original_tip_map@)
    } else {
        let before = augmented_tips(g, state, locals, n - 1);
        let b = locals[n - 1];
        if is_rebased(g, state, b.1) && !before.contains_key(b.0) {
            before.insert(b.0, b.1)
        } else {
            before
        }
    }
}

/// The original tips, with those of other local branches that point at a commit that the operation
/// rebases.
pub fn augment_original_tip_map(
    graph: &CommitGraph,
    locals: &Vec<StackBranch>,
    state: &RebaseState,
) -> (r: NameMap<String>)
    ensures
        text_map(r@) == augmented_tips(graph@, *state, views(locals@), locals@.len() as int),
{
    let ghost all = views(locals@);
    let mut out = state.original_tip_map.copy();
    let mut i: usize = 0;
    while i < locals.len()
        invariant
            i <= locals@.len(),
            all == views(locals@),
            text_map(out@) == augmented_tips(graph@, *state, all, i as int),
        decreases locals@.len() - i,
    {
        let b = &locals[i];
        assert(all[i as int] == b@);
        assert(text_map(out@).contains_key(b.name@) == out@.contains_key(b.name@));
        if in_rebased_commit_set(graph, state, b.id.as_str()) && !out.contains(b.name.as_str()) {
            proof {
                lemma_text_map_insert(out@, b.name@, b.id);
            }
            out.insert(b.name.clone(), b.id.clone());
        }
        i += 1;
    }
    out
}

/// The tips of `map`, and those of `earlier` for the names that `map` does not have.
pub open spec fn tips_or_earlier(
    map: Map<Seq<char>, Seq<char>>,
    earlier: Map<Seq<char>, Seq<char>>,
) -> Map<Seq<char>, Seq<char>> {
    earlier.union_prefer_right(map)
}

/// Adds the tips that an earlier save of the state knew of other branches.
pub fn merge_persisted_original_tips(tips: &mut NameMap<String>, earlier: &NameMap<String>)
    ensures
        text_map(final(tips)@) == tips_or_earlier(text_map(old(tips)@), text_map(earlier@)),
{
    let ghost start = text_map(tips@);
    let ghost other = text_map(earlier@);
    let n = earlier.len();
    let mut i: usize = 0;
    while i < n
        invariant
            i <= n == earlier.names().len(),
            earlier.listed(),
            other == text_map(earlier@),
            forall|k: Seq<char>| #[trigger]
                text_map(tips@).contains_key(k) <==> start.contains_key(k) || earlier.names().take(
                    i as int,
                ).contains(k),
            forall|k: Seq<char>| #[trigger]
                text_map(tips@).contains_key(k) ==> text_map(tips@)[k] == if start.contains_key(k) {
                    start[k]
                } else {
                    other[k]
                },
        decreases n - i,
    {
        let name = earlier.name_at(i);
        let tip = earlier.value_at(i);
        let ghost before = text_map(tips@);
        proof {
            let part = earlier.names().take(i as int);
            let next = earlier.names().take(i + 1);
            assert(next =~= part.push(name@));
            assert forall|k: Seq<char>| #[trigger] next.contains(k) == (part.contains(k) || k
                == name@) by {
                if part.contains(k) {
                    assert(next[part.index_of(k)] == k);
                }
                assert(next[i as int] == name@);
                if next.contains(k) && k != name@ {
                    assert(part[next.index_of(k)] == k);
                }
            }
            lemma_text_map_insert(tips@, name@, *tip);
            assert(before.contains_key(name@) == tips@.contains_key(name@));
            assert(other.contains_key(name@) && other[name@] == tip@);
        }
        if !tips.contains(name.as_str()) {
            tips.insert(name.clone(), tip.clone());
        }
        i += 1;
    }
    proof {
        assert(earlier.names().take(n as int) =~= earlier.names());
        assert forall|k: Seq<char>| other.contains_key(k) == #[trigger] earlier.names().contains(k) by {
            assert(earlier@.contains_key(k) == earlier.names().contains(k));
        }
        assert(text_map(tips@) =~= tips_or_earlier(start, other));
    }
}

/// A tip that is known is never replaced by a later one, whichever save it comes from.
pub proof fn law_known_tips_stay(
    map: Map<Seq<char>, Seq<char>>,
    earlier: Map<Seq<char>, Seq<char>>,
    name: Seq<char>,
)
    ensures
        map.contains_key(name) ==> tips_or_earlier(map, earlier).contains_key(name)
            && tips_or_earlier(map, earlier)[name] == map[name],
        !map.contains_key(name) && earlier.contains_key(name) ==> tips_or_earlier(
            map,
            earlier,
        ).contains_key(name) && tips_or_earlier(map, earlier)[name] == earlier[name],
{
}

/// The state as it is written down: with the original tips that an earlier save knew, with those of
/// other branches that point at a commit that the operation rebases, and with the tips that the
/// operation leaves behind.
pub open spec fn is_persisted(
    g: Parents,
    locals: Seq<BranchView>,
    before: RebaseState,
    earlier: Map<Seq<char>, Seq<char>>,
    after: RebaseState,
) -> bool {
    &&& after == (RebaseState {
        original_tip_map: after.original_tip_map,
        owned_tip_map: after.owned_tip_map,
        ..before
    })
    &&& exists|merged: RebaseState| {
        &&& merged == (RebaseState { original_tip_map: merged.original_tip_map, ..before })
        &&& text_map(merged.original_tip_map@) == tips_or_earlier(
            text_map(before.original_tip_map@),
            earlier,
        )
        &&& text_map(after.original_tip_map@) == #[trigger] augmented_tips(
            g,
            merged,
            locals,
            locals.len() as int,
        )
    }
    &&& text_map(after.owned_tip_map@) == owned_tips(g, after, locals, locals.len() as int)
}

/// Brings a state into the form in which it is written down. `earlier` are the original tips of the
/// state as it was last written, where it was.
pub fn save_state(
    graph: &CommitGraph,
    locals: &Vec<StackBranch>,
    state: &mut RebaseState,
    earlier: &NameMap<String>,
)
    ensures
        is_persisted(graph@, views(locals@), *old(state), text_map(earlier@), *final(state)),
{
    merge_persisted_original_tips(&mut state.original_tip_map, earlier);
    let ghost merged = *state;
    let tips = augment_original_tip_map(graph, locals, state);
    state.original_tip_map = tips;
    let ghost augmented = *state;
    let owned = capture_owned_tip_map(graph, locals, state);
    state.owned_tip_map = owned;
    proof {
        let all = views(locals@);
        lemma_owned_tips_alike(graph@, augmented, *state, all, all.len() as int);
        assert(merged == (RebaseState { original_tip_map: merged.original_tip_map, ..*old(state) }));
        assert(text_map(state.original_tip_map@) == augmented_tips(
            graph@,
            merged,
            all,
            all.len() as int,
        ));
    }
}

/// The tips that an operation leaves behind do not depend on those that it left before.
proof fn lemma_owned_tips_alike(
    g: Parents,
    a: RebaseState,
    b: RebaseState,
    locals: Seq<BranchView>,
    n: int,
)
    requires
        b == (RebaseState { owned_tip_map: b.owned_tip_map, ..a }),
    ensures
        owned_tips(g, a, locals, n) == owned_tips(g, b, locals, n),
    decreases n,
{
    if n > 0 {
        lemma_owned_tips_alike(g, a, b, locals, n - 1);
        let x = locals[n - 1];
        assert(is_tracked(a, x.0) == is_tracked(b, x.0));
        assert forall|name: Seq<char>| brought_along(g, a, name, x.1) == #[trigger] brought_along(
            g,
            b,
            name,
            x.1,
        ) by {}
        assert(is_rebased(g, a, x.1) == is_rebased(g, b, x.1)) by {
            if is_rebased(g, a, x.1) {
                let name = choose|name: Seq<char>| brought_along(g, a, name, x.1);
                assert(brought_along(g, b, name, x.1));
            }
            if is_rebased(g, b, x.1) {
                let name = choose|name: Seq<char>| brought_along(g, b, name, x.1);
                assert(brought_along(g, a, name, x.1));
            }
        }
    }
}

/// As long as no branch moves, an operation owns the branches as it last left them, its original
/// branch among them, so that an abort puts them back.
pub proof fn law_saved_state_is_owned(
    g: Parents,
    locals: Seq<BranchView>,
    before: RebaseState,
    earlier: Map<Seq<char>, Seq<char>>,
    saved: RebaseState,
)
    requires
        is_persisted(g, locals, before, earlier, saved),
        names_of(locals).contains(before.original_branch@),
    ensures
        owned_tips(g, saved, locals, locals.len() as int) == text_map(saved.owned_tip_map@),
        saved.owned_tip_map@.contains_key(before.original_branch@),
{
    let name = before.original_branch@;
    let at = names_of(locals).index_of(name);
    lemma_tip_is_owned(g, saved, locals, locals.len() as int, at);
    assert(text_map(saved.owned_tip_map@).contains_key(locals[at].0)
        == saved.owned_tip_map@.contains_key(locals[at].0));
}

proof fn lemma_tip_is_owned(
    g: Parents,
    state: RebaseState,
    locals: Seq<BranchView>,
    n: int,
    at: int,
)
    requires
        0 <= at < n <= locals.len(),
        is_tracked(state, locals[at].0),
    ensures
        owned_tips(g, state, locals, n).contains_key(locals[at].0),
    decreases n,
{
    if at < n - 1 {
        lemma_tip_is_owned(g, state, locals, n - 1, at);
    }
}

/// Saving forgets no original tip that is known, from the state itself or from an earlier save.
pub proof fn law_saving_keeps_original_tips(
    g: Parents,
    locals: Seq<BranchView>,
    before: RebaseState,
    earlier: Map<Seq<char>, Seq<char>>,
    saved: RebaseState,
    name: Seq<char>,
)
    requires
        is_persisted(g, locals, before, earlier, saved),
    ensures
        before.original_tip_map@.contains_key(name) ==> saved.original_tip_map@.contains_key(name)
            && saved.original_tip_map@[name]@ == before.original_tip_map@[name]@,
        !before.original_tip_map@.contains_key(name) && earlier.contains_key(name)
            ==> saved.original_tip_map@.contains_key(name) && saved.original_tip_map@[name]@
            == earlier[name],
{
    let merged = choose|merged: RebaseState| {
        &&& merged == (RebaseState { original_tip_map: merged.original_tip_map, ..before })
        &&& text_map(merged.original_tip_map@) == tips_or_earlier(
            text_map(before.original_tip_map@),
            earlier,
        )
        &&& text_map(saved.original_tip_map@) == #[trigger] augmented_tips(
            g,
            merged,
            locals,
            locals.len() as int,
        )
    };
    lemma_augmented_keeps(g, merged, locals, locals.len() as int, name);
    assert(text_map(before.original_tip_map@).contains_key(name)
        == before.original_tip_map@.contains_key(name));
    assert(text_map(saved.original_tip_map@).contains_key(name)
        == saved.original_tip_map@.contains_key(name));
}

proof fn lemma_augmented_keeps(
    g: Parents,
    state: RebaseState,
    locals: Seq<BranchView>,
    n: int,
    name: Seq<char>,
)
    ensures
        text_map(state.original_tip_map@).contains_key(name) ==> augmented_tips(
            g,
            state,
            locals,
            n,
        ).contains_key(name) && augmented_tips(g, state, locals, n)[name] == text_map(
            state.original_tip_map@,
        )[name],
    decreases n,
{
    if n > 0 {
        lemma_augmented_keeps(g, state, locals, n - 1, name);
    }
}

/// The branch that a `head-name` file of a rebase names.
pub open spec fn head_name_branch(text: Seq<char>) -> Seq<char> {
    let t = trim_of(text);
    if "refs/heads/"@.is_prefix_of(t) {
        t.skip("refs/heads/"@.len() as int)
    } else {
        t
    }
}

fn read_head_name(text: &str) -> (r: String)
    ensures
        r@ == head_name_branch(text@),
{
    let t = trim(text);
    match strip_prefix(t.as_str(), "refs/heads/") {
        Some(rest) => rest,
        None => t,
    }
}

/// The branch that git is rebasing: the first that the two files name.
pub open spec fn active_branch(
    merge_head: Option<Seq<char>>,
    apply_head: Option<Seq<char>>,
) -> Option<Seq<char>> {
    if merge_head is Some && head_name_branch(merge_head->0).len() > 0 {
        Some(head_name_branch(merge_head->0))
    } else if apply_head is Some && head_name_branch(apply_head->0).len() > 0 {
        Some(head_name_branch(apply_head->0))
    } else {
        None
    }
}

/// The branch that git is rebasing, from the `head-name` files of its two kinds of rebase.
pub fn active_git_rebase_branch(merge_head: Option<&str>, apply_head: Option<&str>) -> (r: Option<
    String,
>)
    ensures
        opt_string(r) == active_branch(opt_text(merge_head), opt_text(apply_head)),
{
    if let Some(text) = merge_head {
        let name = read_head_name(text);
        if !name.as_str().is_empty() {
            return Some(name);
        }
    }
    if let Some(text) = apply_head {
        let name = read_head_name(text);
        if !name.as_str().is_empty() {
            return Some(name);
        }
    }
    None
}

/// Whether the rebase that git is in belongs to the state: it is on the branch in progress, or,
/// where git names no branch, the tips are those that the operation left.
pub fn active_git_rebase_matches_state(
    state: &RebaseState,
    active: &Option<String>,
    tips_match: bool,
) -> (r: bool)
    ensures
        r == match *active {
            Some(b) => opt_string(state.in_progress_branch) == Some(b@),
            None => tips_match,
        },
{
    match active {
        Some(b) => is_text(&state.in_progress_branch, b.as_str()),
        None => tips_match,
    }
}

/// The branch of a `branch` line of `git worktree list --porcelain`.
pub open spec fn worktree_line_branch(value: Seq<char>) -> Seq<char> {
    if "refs/heads/"@.is_prefix_of(value) {
        trim_of(value.skip("refs/heads/"@.len() as int))
    } else {
        trim_of(value)
    }
}

/// The path of the worktree that the lines end in, and the worktree of each branch.
pub open spec fn worktree_lines(lines: Seq<Seq<char>>) -> (Seq<char>, Map<Seq<char>, Seq<char>>)
    decreases lines.len(),
{
    if lines.len() == 0 {
        (Seq::empty(), Map::empty())
    } else {
        let (path, map) = worktree_lines(lines.drop_last());
        let line = lines.last();
        if "worktree "@.is_prefix_of(line) {
            (trim_of(line.skip("worktree "@.len() as int)), map)
        } else if "branch "@.is_prefix_of(line) {
            (path, map.insert(worktree_line_branch(line.skip("branch "@.len() as int)), path))
        } else {
            (path, map)
        }
    }
}

fn read_worktree_lines(stdout: &str) -> (r: NameMap<String>)
    ensures
        text_map(r@) == worktree_lines(lines_of(stdout@)).1,
{
    let lines = split_lines(stdout);
    let ghost all = strs(lines@);
    let mut map: NameMap<String> = NameMap::new();
    let mut path = String::new();
    let mut i: usize = 0;
    proof {
        crate::names::lemma_text_map_empty();
        assert(all.take(0) =~= Seq::<Seq<char>>::empty());
    }
    while i < lines.len()
        invariant
            i <= lines@.len(),
            all == strs(lines@),
            worktree_lines(all.take(i as int)) == (path@, text_map(map@)),
        decreases lines@.len() - i,
    {
        let line = lines[i].as_str();
        proof {
            assert(all.take(i + 1).drop_last() =~= all.take(i as int));
            assert(all.take(i + 1).last() == line@);
        }
        if let Some(p) = strip_prefix(line, "worktree ") {
            path = trim(p.as_str());
        } else if let Some(b) = strip_prefix(line, "branch ") {
            let name = match strip_prefix(b.as_str(), "refs/heads/") {
                Some(n) => trim(n.as_str()),
                None => trim(b.as_str()),
            };
            proof {
                lemma_text_map_insert(map@, name@, path);
            }
            map.insert(name, path.clone());
        }
        i += 1;
    }
    assert(all.take(all.len() as int) =~= all);
    map
}

/// The branch is checked out in another worktree.
pub open spec fn elsewhere(
    map: Map<Seq<char>, Seq<char>>,
    here: Seq<char>,
    branch: Seq<char>,
) -> bool {
    map.contains_key(branch) && map[branch] != here
}

/// Refuses branches that are checked out in another worktree, unless forced. The two outputs are
/// those of `git rev-parse --show-toplevel` and `git worktree list --porcelain`.
pub fn check_worktrees(
    branches: &Vec<String>,
    force: bool,
    toplevel_output: &str,
    worktree_output: &str,
) -> (r: Result<(), RebaseError>)
    ensures
        ({
            let map = worktree_lines(lines_of(worktree_output@)).1;
            let here = trim_of(toplevel_output@);
            let names = strs(branches@);
            match r {
                Ok(_) => force || forall|i: int|
                    0 <= i < names.len() ==> !elsewhere(map, here, #[trigger] names[i]),
                Err(RebaseError::CheckedOut(b, path)) => !force && exists|i: int| {
                    &&& 0 <= i < names.len()
                    &&& elsewhere(map, here, #[trigger] names[i])
                    &&& names[i] == b@
                    &&& map[b@] == path@
                    &&& forall|j: int| 0 <= j < i ==> !elsewhere(map, here, #[trigger] names[j])
                },
                Err(_) => false,
            }
        }),
{
    if force {
        return Ok(());
    }
    let here = trim(toplevel_output);
    let map = read_worktree_lines(worktree_output);
    let ghost all = text_map(map@);
    let ghost names = strs(branches@);
    let mut i: usize = 0;
    while i < branches.len()
        invariant
            i <= branches@.len(),
            !force,
            all == text_map(map@),
            all == worktree_lines(lines_of(worktree_output@)).1,
            here@ == trim_of(toplevel_output@),
            names == strs(branches@),
            forall|j: int| 0 <= j < i ==> !elsewhere(all, here@, #[trigger] names[j]),
        decreases branches@.len() - i,
    {
        let b = &branches[i];
        assert(names[i as int] == b@);
        assert(all.contains_key(b@) == map@.contains_key(b@));
        if let Some(path) = map.get(b.as_str()) {
            assert(all[b@] == path@);
            if !same(path.as_str(), here.as_str()) {
                assert(elsewhere(all, here@, names[i as int]));
                return Err(RebaseError::CheckedOut(b.clone(), path.clone()));
            }
        }
        i += 1;
    }
    Ok(())
}

/// Whether a stash is named by its place in git's list.
pub fn is_stash_reference(stash_ref: &str) -> (r: bool)
    ensures
        r == "stash@{"@.is_prefix_of(stash_ref@),
{
    starts_with(stash_ref, "stash@{")
}

/// The message of a stash: what follows the branch in its subject.
pub open spec fn stash_message(subject: Seq<char>) -> Seq<char> {
    match split_once_text_of(subject, ": "@) {
        Some((_, message)) => trim_of(message),
        None => trim_of(subject),
    }
}

/// The reference of the first stash in the list with that message.
pub open spec fn stash_with_message(lines: Seq<Seq<char>>, message: Seq<char>) -> Option<Seq<char>>
    decreases lines.len(),
{
    if lines.len() == 0 {
        None
    } else {
        match split_once_spec(lines[0], '\t') {
            Some((reference, subject)) => if stash_message(subject) == message {
                Some(reference)
            } else {
                stash_with_message(lines.drop_first(), message)
            },
            None => stash_with_message(lines.drop_first(), message),
        }
    }
}

/// The reference of a stash: itself, or the first in what `git stash list --format=%gd%x09%gs`
/// prints that has it as its message.
pub fn resolve_stash_reference(stash_ref: &str, stash_list: &str) -> (r: Result<String, RebaseError>)
    ensures
        match r {
            Ok(s) => if "stash@{"@.is_prefix_of(stash_ref@) {
                s@ == stash_ref@
            } else {
                stash_with_message(lines_of(stash_list@), stash_ref@) == Some(s@)
            },
            Err(RebaseError::NoStash(s)) => s@ == stash_ref@ && !"stash@{"@.is_prefix_of(stash_ref@)
                && stash_with_message(lines_of(stash_list@), stash_ref@) is None,
            Err(_) => false,
        },
{
    if is_stash_reference(stash_ref) {
        return Ok(stash_ref.to_owned());
    }
    let lines = split_lines(stash_list);
    let ghost all = strs(lines@);
    let mut i: usize = 0;
    assert(all.skip(0) =~= all);
    while i < lines.len()
        invariant
            i <= lines@.len(),
            all == strs(lines@),
            all == lines_of(stash_list@),
            !"stash@{"@.is_prefix_of(stash_ref@),
            stash_with_message(all, stash_ref@) == stash_with_message(
                all.skip(i as int),
                stash_ref@,
            ),
        decreases lines@.len() - i,
    {
        assert(all.skip(i as int)[0] == lines@[i as int]@);
        assert(all.skip(i as int).drop_first() =~= all.skip(i + 1));
        if let Some((reference, subject)) = split_once(lines[i].as_str(), '\t') {
            let message = match split_once_text(subject.as_str(), ": ") {
                Some((_, m)) => trim(m.as_str()),
                None => trim(subject.as_str()),
            };
            if same(message.as_str(), stash_ref) {
                return Ok(reference);
            }
        }
        i += 1;
    }
    Err(RebaseError::NoStash(stash_ref.to_owned()))
}

} // verus!
