//! `kin continue`: goes on with an operation that stopped.

use crate::rebase_utils::Operation;
use crate::text::opt_string;
use vstd::prelude::*;

verus! {

/// Why nothing is continued.
#[derive(Debug, Clone, Copy, PartialEq, Eq, Structural)]
pub enum ContinueError {
    Several,
    NativeRebase,
    InterruptedRun,
    /// Git stopped again; there are conflicts.
    Conflicts,
    /// Git stopped again, for another reason.
    Stopped,
}

impl ContinueError {
    pub open spec fn text(self) -> Seq<char> {
        match self {
            ContinueError::Several =>
                "Multiple Kindra operations are persisted. Run 'kin abort' to clear state before continuing."@,
            ContinueError::NativeRebase =>
                "A native git rebase is in progress. Use 'git rebase --continue'."@,
            ContinueError::InterruptedRun =>
                "A previous 'kin run' was interrupted before it could restore the working tree. Use 'kin abort' to restore it."@,
            ContinueError::Conflicts =>
                "git rebase --continue failed. Resolve conflicts and run 'kin continue' again."@,
            ContinueError::Stopped =>
                "git rebase --continue failed. See the git error above for the cause; once addressed, run 'kin continue' again."@,
        }
    }

    pub fn message(&self) -> (r: String)
        ensures
            r@ == self.text(),
    {
        match self {
            ContinueError::Several =>
                "Multiple Kindra operations are persisted. Run 'kin abort' to clear state before continuing.".to_owned(),
            ContinueError::NativeRebase =>
                "A native git rebase is in progress. Use 'git rebase --continue'.".to_owned(),
            ContinueError::InterruptedRun =>
                "A previous 'kin run' was interrupted before it could restore the working tree. Use 'kin abort' to restore it.".to_owned(),
            ContinueError::Conflicts =>
                "git rebase --continue failed. Resolve conflicts and run 'kin continue' again.".to_owned(),
            ContinueError::Stopped =>
                "git rebase --continue failed. See the git error above for the cause; once addressed, run 'kin continue' again.".to_owned(),
        }
    }
}

/// What is continued.
#[derive(Debug, Clone, Copy, PartialEq, Eq, Structural)]
pub enum ContinueStep {
    /// The rebase that git is in.
    GitRebase,
    /// The end of a sync.
    FinishSync,
    /// The remaining branches.
    RebaseLoop,
    Nothing,
}

/// Where an operation goes on once git is in no rebase.
pub open spec fn resumed(operation: Option<Operation>, run: bool) -> Result<
    ContinueStep,
    ContinueError,
> {
    match operation {
        Some(Operation::Sync) => Ok(ContinueStep::FinishSync),
        Some(_) => Ok(ContinueStep::RebaseLoop),
        None => if run {
            Err(ContinueError::InterruptedRun)
        } else {
            Ok(ContinueStep::Nothing)
        },
    }
}

/// What is continued first: `operation` is that of the saved rebase, where one is left.
pub fn continue_start(operation: Option<Operation>, has_run_state: bool, git_rebase: bool) -> (r:
    Result<ContinueStep, ContinueError>)
    ensures
        r == if operation is Some && has_run_state {
            Err(ContinueError::Several)
        } else if git_rebase {
            if operation is None {
                Err(ContinueError::NativeRebase)
            } else {
                Ok(ContinueStep::GitRebase)
            }
        } else {
            resumed(operation, has_run_state)
        },
{
    if operation.is_some() && has_run_state {
        return Err(ContinueError::Several);
    }
    if git_rebase {
        return if operation.is_none() {
            Err(ContinueError::NativeRebase)
        } else {
            Ok(ContinueStep::GitRebase)
        };
    }
    after_git_rebase(operation, has_run_state)
}

/// Where an operation goes on once git is in no rebase.
pub fn after_git_rebase(operation: Option<Operation>, has_run_state: bool) -> (r: Result<
    ContinueStep,
    ContinueError,
>)
    ensures
        r == resumed(operation, has_run_state),
{
    match operation {
        Some(Operation::Sync) => Ok(ContinueStep::FinishSync),
        Some(_) => Ok(ContinueStep::RebaseLoop),
        None => if has_run_state {
            Err(ContinueError::InterruptedRun)
        } else {
            Ok(ContinueStep::Nothing)
        },
    }
}

/// What lies in the directory of git's rebase, and what the index holds.
#[derive(Debug, Clone, Copy)]
pub struct StallFacts {
    pub rebase_dir: bool,
    pub message: bool,
    pub amend: bool,
    pub merge_msg: bool,
    pub staged: bool,
    pub unmerged: bool,
}

/// A commit was staged and then not made: the message is missing, though git has written it down,
/// and nothing conflicts. A stop for a conflict has its message, and a stop to edit its mark.
pub open spec fn is_stalled(f: StallFacts) -> bool {
    f.rebase_dir && !f.message && !f.amend && f.merge_msg && f.staged && !f.unmerged
}

/// Whether a rebase stalled because a commit was staged and then not made.
pub fn stalled_pick(f: &StallFacts) -> (r: bool)
    ensures
        r == is_stalled(*f),
{
    f.rebase_dir && !f.message && !f.amend && f.merge_msg && f.staged && !f.unmerged
}

/// What follows a step of git's rebase.
#[derive(Debug, Clone, Copy, PartialEq, Eq, Structural)]
pub enum AfterStep {
    /// The rebase is through.
    GoOn,
    /// The commit has become empty and is skipped.
    Skip,
    Fail(ContinueError),
}

/// Git's error is about conflicts, or not.
pub fn continue_failure_error(unmerged: bool) -> (r: ContinueError)
    ensures
        r == if unmerged {
            ContinueError::Conflicts
        } else {
            ContinueError::Stopped
        },
{
    if unmerged {
        ContinueError::Conflicts
    } else {
        ContinueError::Stopped
    }
}

/// The rebase is still under way, with nothing staged and nothing in conflict.
pub open spec fn is_empty_stop(git_rebase: bool, staged: bool, unmerged: bool) -> bool {
    git_rebase && !staged && !unmerged
}

/// Whether the rebase stopped on a commit that has become empty.
pub fn rebase_stopped_on_empty_pick(git_rebase: bool, staged: bool, unmerged: bool) -> (r: bool)
    ensures
        r == is_empty_stop(git_rebase, staged, unmerged),
{
    git_rebase && !staged && !unmerged
}

/// What follows `git rebase --continue`. Only after a stall was repaired is an empty commit skipped.
pub open spec fn continued(success: bool, repaired: bool, empty: bool, unmerged: bool) -> AfterStep {
    if success {
        AfterStep::GoOn
    } else if repaired && empty {
        AfterStep::Skip
    } else if unmerged {
        AfterStep::Fail(ContinueError::Conflicts)
    } else {
        AfterStep::Fail(ContinueError::Stopped)
    }
}

/// What follows `git rebase --continue`.
pub fn after_continue(success: bool, repaired: bool, stopped_on_empty: bool, unmerged: bool) -> (r:
    AfterStep)
    ensures
        r == continued(success, repaired, stopped_on_empty, unmerged),
{
    if success {
        AfterStep::GoOn
    } else if repaired && stopped_on_empty {
        AfterStep::Skip
    } else {
        AfterStep::Fail(continue_failure_error(unmerged))
    }
}

/// What follows `git rebase --skip`.
pub fn after_skip(success: bool, unmerged: bool) -> (r: AfterStep)
    ensures
        r == if success {
            AfterStep::GoOn
        } else if unmerged {
            AfterStep::Fail(ContinueError::Conflicts)
        } else {
            AfterStep::Fail(ContinueError::Stopped)
        },
{
    if success {
        AfterStep::GoOn
    } else {
        AfterStep::Fail(continue_failure_error(unmerged))
    }
}

/// The value that `GIT_EDITOR` gets: none opens where the operation came without one; a value that
/// is set stays; or else it is the editor of the rest of the program.
pub fn rebase_editor(suppress_editor: bool, git_editor_set: bool, resolved: &str) -> (r: Option<
    String,
>)
    ensures
        opt_string(r) == if suppress_editor {
            Some("true"@)
        } else if git_editor_set {
            None
        } else {
            Some(resolved@)
        },
{
    if suppress_editor {
        Some("true".to_owned())
    } else if git_editor_set {
        None
    } else {
        Some(resolved.to_owned())
    }
}

/// A commit is skipped only where a stall was repaired, the rebase is still under way and nothing is
/// staged or in conflict.
pub proof fn law_only_repaired_commits_are_skipped(
    f: StallFacts,
    success: bool,
    git_rebase: bool,
    staged: bool,
    unmerged: bool,
)
    requires
        continued(success, is_stalled(f), is_empty_stop(git_rebase, staged, unmerged), unmerged)
            == AfterStep::Skip,
    ensures
        !success,
        f.merge_msg && f.staged && !f.unmerged,
        git_rebase && !staged && !unmerged,
{
}

/// A saved rebase is gone on with by its loop, a sync by its end; an interrupted run is an error, and
/// where nothing is saved there is nothing to do.
pub proof fn law_saved_work_is_gone_on_with(operation: Option<Operation>, run: bool)
    ensures
        operation == Some(Operation::Sync) ==> resumed(operation, run) == Ok::<_, ContinueError>(
            ContinueStep::FinishSync,
        ),
        operation is Some && operation != Some(Operation::Sync) ==> resumed(operation, run)
            == Ok::<_, ContinueError>(ContinueStep::RebaseLoop),
        operation is None && run ==> resumed(operation, run) is Err,
        operation is None && !run ==> resumed(operation, run) == Ok::<_, ContinueError>(
            ContinueStep::Nothing,
        ),
{
}

/// A rebase counts as stalled exactly where git has a message for a staged commit, nothing conflicts,
/// and it is neither a stop for a conflict nor one to edit.
pub proof fn law_stall_is_a_commit_not_made(f: StallFacts)
    ensures
        is_stalled(f) <==> f.rebase_dir && f.merge_msg && f.staged && !f.message && !f.amend
            && !f.unmerged,
{
}

/// A step of git's rebase that succeeds is gone on from. One that fails is skipped only where a stall
/// was repaired and the commit has become empty; any other failure is told, as one of conflicts
/// exactly where there are some.
pub proof fn law_failed_step_is_told(success: bool, repaired: bool, empty: bool, unmerged: bool)
    ensures
        ({
            let r = continued(success, repaired, empty, unmerged);
            &&& r == AfterStep::GoOn <==> success
            &&& r == AfterStep::Skip <==> !success && repaired && empty
            &&& r == AfterStep::Fail(ContinueError::Conflicts) <==> !success && !(repaired && empty)
                && unmerged
            &&& r == AfterStep::Fail(ContinueError::Stopped) <==> !success && !(repaired && empty)
                && !unmerged
        }),
{
}

/// A stop counts as one on an empty commit exactly where the rebase is under way, with nothing staged
/// and nothing in conflict.
pub proof fn law_empty_stop(git_rebase: bool, staged: bool, unmerged: bool)
    ensures
        is_empty_stop(git_rebase, staged, unmerged) <==> git_rebase && !staged && !unmerged,
{
}

} // verus!
