//! The loop that rebases the branches of a state one by one, and what follows when it is through.

use crate::rebase_utils::{
    branch_rebase_target, new_base_of, restore_branch, restore_branch_of, same_plan, RebaseError,
    RebaseState,
};
use crate::text::{is_text, list, opt_string, strs};
use vstd::prelude::*;

verus! {

/// The branch that comes next, the commit that it stood on and where it goes.
#[derive(Debug)]
pub struct RebaseTarget {
    pub branch: String,
    pub old_parent: String,
    pub new_base: String,
}

/// What is done about the branch that comes next.
#[derive(Debug, Clone, Copy, PartialEq, Eq, Structural)]
pub enum RebaseDecision {
    /// It has been replayed already, so it leaves the list.
    Skip,
    /// Its rebase begins.
    Start,
    /// Its rebase was begun before and is run again.
    Resume,
}

/// Only the branch that comes next can have been begun.
pub open spec fn begun_is_next(state: RebaseState) -> bool {
    state.in_progress_branch is Some ==> state.remaining_branches@.len() > 0
        && state.remaining_branches@[0]@ == state.in_progress_branch->0@
}

/// The rebase of the branch that comes next was begun.
pub open spec fn is_resuming(state: RebaseState) -> bool {
    opt_string(state.in_progress_branch) == Some(state.remaining_branches@[0]@)
}

/// A branch is skipped where it has been replayed, git is not in a rebase, and the loop has
/// rebased something before: this branch itself, or another one that took it along.
pub open spec fn decision(
    state: RebaseState,
    started_any: bool,
    is_done: bool,
    git_rebase: bool,
) -> RebaseDecision {
    if is_done && (is_resuming(state) || started_any) && !git_rebase {
        RebaseDecision::Skip
    } else if is_resuming(state) {
        RebaseDecision::Resume
    } else {
        RebaseDecision::Start
    }
}

/// The branch that comes next; none where all are through.
pub fn next_target(state: &RebaseState) -> (r: Result<Option<RebaseTarget>, RebaseError>)
    ensures
        match r {
            Ok(None) => state.remaining_branches@.len() == 0,
            Ok(Some(t)) => {
                &&& state.remaining_branches@.len() > 0
                &&& t.branch@ == state.remaining_branches@[0]@
                &&& state.parent_id_map@.contains_key(t.branch@)
                &&& t.old_parent@ == state.parent_id_map@[t.branch@]@
                &&& t.new_base@ == new_base_of(*state, t.branch@)
            },
            Err(RebaseError::NoParent(b)) => state.remaining_branches@.len() > 0 && b@
                == state.remaining_branches@[0]@ && !state.parent_id_map@.contains_key(b@),
            Err(_) => false,
        },
{
    if state.remaining_branches.len() == 0 {
        return Ok(None);
    }
    let branch = state.remaining_branches[0].clone();
    match branch_rebase_target(state, branch.as_str()) {
        Ok((old_parent, new_base)) => Ok(Some(RebaseTarget { branch, old_parent, new_base })),
        Err(e) => Err(e),
    }
}

/// Decides about the branch that comes next. After `Skip` and `Start` the state is to be saved.
pub fn decide_next(
    state: &mut RebaseState,
    started_any: &mut bool,
    is_done: bool,
    git_rebase: bool,
) -> (r: RebaseDecision)
    requires
        old(state).remaining_branches@.len() > 0,
    ensures
        r == decision(*old(state), *old(started_any), is_done, git_rebase),
        same_plan(*old(state), *final(state)),
        r == RebaseDecision::Skip ==> {
            &&& final(state).remaining_branches@ == old(state).remaining_branches@.drop_first()
            &&& opt_string(final(state).in_progress_branch) == if is_resuming(*old(state)) {
                None
            } else {
                opt_string(old(state).in_progress_branch)
            }
            &&& *final(started_any) == (*old(started_any) || is_resuming(*old(state)))
        },
        r == RebaseDecision::Start ==> {
            &&& final(state).remaining_branches == old(state).remaining_branches
            &&& opt_string(final(state).in_progress_branch) == Some(
                old(state).remaining_branches@[0]@,
            )
            &&& *final(started_any) == *old(started_any)
        },
        r == RebaseDecision::Resume ==> *final(state) == *old(state) && *final(started_any) == *old(started_any),
        begun_is_next(*old(state)) ==> begun_is_next(*final(state)),
{
    let resuming = is_text(&state.in_progress_branch, state.remaining_branches[0].as_str());
    if is_done && (resuming || *started_any) && !git_rebase {
        state.remaining_branches.remove(0);
        assert(state.remaining_branches@ =~= old(state).remaining_branches@.drop_first());
        if resuming {
            state.in_progress_branch = None;
            *started_any = true;
        }
        return RebaseDecision::Skip;
    }
    if resuming {
        return RebaseDecision::Resume;
    }
    let name = state.remaining_branches[0].clone();
    state.in_progress_branch = Some(name);
    RebaseDecision::Start
}

/// The arguments with which git rebases a branch.
pub fn rebase_args(autostash: bool, target: &RebaseTarget) -> (r: Vec<String>)
    ensures
        strs(r@) == seq![
            "rebase"@,
            "--no-ff"@,
            if autostash {
                "--autostash"@
            } else {
                "--no-autostash"@
            },
            "--update-refs"@,
            "--onto"@,
            target.new_base@,
            target.old_parent@,
            target.branch@,
        ],
{
    let stash = if autostash {
        "--autostash"
    } else {
        "--no-autostash"
    };
    let r = list(
        &[
            "rebase",
            "--no-ff",
            stash,
            "--update-refs",
            "--onto",
            target.new_base.as_str(),
            target.old_parent.as_str(),
            target.branch.as_str(),
        ],
    );
    assert(strs(r@) =~= seq![
        "rebase"@,
        "--no-ff"@,
        stash@,
        "--update-refs"@,
        "--onto"@,
        target.new_base@,
        target.old_parent@,
        target.branch@,
    ]);
    r
}

/// Takes in how git's rebase of the next branch went. The state is to be saved in any case: a
/// branch that git rebased leaves the list, one that git stopped in stays begun, and one that git
/// did not begin is as if it had never been tried.
pub fn take_rebase_result(
    state: &mut RebaseState,
    started_any: &mut bool,
    success: bool,
    git_rebase: bool,
) -> (r: Result<(), RebaseError>)
    requires
        old(state).remaining_branches@.len() > 0,
    ensures
        same_plan(*old(state), *final(state)),
        match r {
            Ok(_) => {
                &&& success
                &&& final(state).remaining_branches@ == old(state).remaining_branches@.drop_first()
                &&& final(state).in_progress_branch is None
                &&& *final(started_any)
            },
            Err(RebaseError::Conflict(b)) => {
                &&& !success && git_rebase
                &&& b@ == old(state).remaining_branches@[0]@
                &&& *final(state) == *old(state)
                &&& *final(started_any) == *old(started_any)
            },
            Err(RebaseError::NotStarted(b)) => {
                &&& !success && !git_rebase
                &&& b@ == old(state).remaining_branches@[0]@
                &&& final(state).remaining_branches == old(state).remaining_branches
                &&& final(state).in_progress_branch is None
                &&& *final(started_any) == *old(started_any)
            },
            Err(_) => false,
        },
        begun_is_next(*old(state)) ==> begun_is_next(*final(state)),
{
    if success {
        state.remaining_branches.remove(0);
        assert(state.remaining_branches@ =~= old(state).remaining_branches@.drop_first());
        state.in_progress_branch = None;
        *started_any = true;
        return Ok(());
    }
    let branch = state.remaining_branches[0].clone();
    if git_rebase {
        return Err(RebaseError::Conflict(branch));
    }
    state.in_progress_branch = None;
    Err(RebaseError::NotStarted(branch))
}

/// A branch that git stopped in and the user finished by hand is not rebased again.
pub proof fn law_finished_branch_is_skipped(state: RebaseState, started_any: bool)
    requires
        state.remaining_branches@.len() > 0,
        is_resuming(state),
    ensures
        decision(state, started_any, true, false) == RebaseDecision::Skip,
{
}

/// The first branch of a fresh loop is rebased even where it already stands on its new base, so that
/// what stands on it is taken along.
pub proof fn law_first_branch_is_rebased(state: RebaseState, is_done: bool, git_rebase: bool)
    requires
        state.remaining_branches@.len() > 0,
        state.in_progress_branch is None,
    ensures
        decision(state, false, is_done, git_rebase) == RebaseDecision::Start,
{
}

/// While git is in a rebase nothing leaves the list.
pub proof fn law_nothing_is_skipped_during_a_rebase(
    state: RebaseState,
    started_any: bool,
    is_done: bool,
)
    ensures
        decision(state, started_any, is_done, true) != RebaseDecision::Skip,
{
}

/// What is done when all branches are through, step by step.
#[derive(Debug)]
pub enum FinishStep {
    /// Go back to the branch to end on.
    Checkout(String),
    /// Bring back what was set aside.
    ApplyStash(String),
    /// Save the state, which no longer names the stash, and drop the stash.
    SaveAndDropStash(String),
    /// Unstage everything.
    Unstage,
    /// Delete the state.
    Clear,
    /// Nothing is left.
    Done,
}

/// The first step.
pub fn first_finish_step(state: &RebaseState) -> (r: FinishStep)
    ensures
        r matches FinishStep::Checkout(b) && b@ == restore_branch_of(*state),
{
    FinishStep::Checkout(restore_branch(state))
}

/// The step after the stash has been dealt with.
pub open spec fn is_last_part(state: RebaseState, step: FinishStep) -> bool {
    if state.unstage_on_restore {
        step is Unstage
    } else {
        step is Clear
    }
}

/// The step that follows one that succeeded. A stash is forgotten only after it was applied.
pub fn next_finish_step(state: &mut RebaseState, done: &FinishStep) -> (r: FinishStep)
    ensures
        match *done {
            FinishStep::Checkout(_) => *final(state) == *old(state) && match old(state).stash_ref {
                Some(s) => r matches FinishStep::ApplyStash(t) && t@ == s@,
                None => is_last_part(*old(state), r),
            },
            FinishStep::ApplyStash(s) => {
                &&& r matches FinishStep::SaveAndDropStash(t) && t@ == s@
                &&& *final(state) == (RebaseState { stash_ref: None, ..*old(state) })
            },
            FinishStep::SaveAndDropStash(_) => *final(state) == *old(state) && is_last_part(
                *old(state),
                r,
            ),
            FinishStep::Unstage => *final(state) == *old(state) && r is Clear,
            FinishStep::Clear | FinishStep::Done => *final(state) == *old(state) && r is Done,
        },
{
    match done {
        FinishStep::Checkout(_) => match &state.stash_ref {
            Some(s) => FinishStep::ApplyStash(s.clone()),
            None => if state.unstage_on_restore {
                FinishStep::Unstage
            } else {
                FinishStep::Clear
            },
        },
        FinishStep::ApplyStash(s) => {
            state.stash_ref = None;
            FinishStep::SaveAndDropStash(s.clone())
        },
        FinishStep::SaveAndDropStash(_) => if state.unstage_on_restore {
            FinishStep::Unstage
        } else {
            FinishStep::Clear
        },
        FinishStep::Unstage => FinishStep::Clear,
        FinishStep::Clear => FinishStep::Done,
        FinishStep::Done => FinishStep::Done,
    }
}

} // verus!
