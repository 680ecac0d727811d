//! When local overrides are put aside and brought back, and in which order.

use crate::commands::run::{variables, Variable};
use crate::overrides::{some_unindexed, OverridesError, Phase, SavedFile};
use crate::text::{cat2, cat3, opt_string, opt_text};
use crate::worktree::hooks::{shell_call, HookStep};
use vstd::prelude::*;

verus! {

/// What is known before an operation.
#[derive(Debug)]
pub struct SuspendFacts {
    /// The phase of a saved state, and whether it is one of a removal.
    pub saved: Option<(Phase, bool)>,
    /// The operation is one that recovers: a continue or an abort.
    pub recovery: bool,
    /// Overrides are disabled in this worktree.
    pub disabled: bool,
    /// There are settings for overrides.
    pub configured: bool,
    /// An operation of git or of this program is under way.
    pub busy: bool,
    pub root: String,
}

/// What an operation begins with.
#[derive(Debug, Clone, Copy, PartialEq, Eq, Structural)]
pub enum SuspendStart {
    /// The operation runs, and there is nothing to bring back after it.
    Run,
    /// What was being put aside is brought back, and the operation runs.
    RollBackThenRun,
    /// A removal is finished, and the operation runs.
    FinishRemovalThenRun,
    /// The overrides have been put aside before.
    Resume,
    /// The overrides are put aside.
    Prepare,
}

/// What an operation begins with; none where it does not run.
pub open spec fn suspend_start(f: SuspendFacts) -> Option<SuspendStart> {
    match f.saved {
        Some((phase, removing)) => if !f.recovery {
            None
        } else if phase == Phase::Preparing {
            Some(SuspendStart::RollBackThenRun)
        } else if removing {
            if f.busy {
                None
            } else {
                Some(SuspendStart::FinishRemovalThenRun)
            }
        } else {
            Some(SuspendStart::Resume)
        },
        None => if f.recovery || f.disabled || !f.configured {
            Some(SuspendStart::Run)
        } else if f.busy {
            None
        } else {
            Some(SuspendStart::Prepare)
        },
    }
}

/// Decides what an operation begins with.
pub fn decide_suspend(f: &SuspendFacts) -> (r: Result<SuspendStart, OverridesError>)
    ensures
        match suspend_start(*f) {
            Some(start) => r matches Ok(s) && s == start,
            None => match f.saved {
                Some(_) => if !f.recovery {
                    r matches Err(OverridesError::Pending(p)) && p@ == f.root@
                } else {
                    r matches Err(OverridesError::BusyRemoving)
                },
                None => r matches Err(OverridesError::BusySuspending),
            },
        },
{
    match f.saved {
        Some((phase, removing)) => {
            if !f.recovery {
                return Err(OverridesError::Pending(f.root.clone()));
            }
            if phase == Phase::Preparing {
                return Ok(SuspendStart::RollBackThenRun);
            }
            if removing {
                return if f.busy {
                    Err(OverridesError::BusyRemoving)
                } else {
                    Ok(SuspendStart::FinishRemovalThenRun)
                };
            }
            Ok(SuspendStart::Resume)
        },
        None => {
            if f.recovery || f.disabled || !f.configured {
                return Ok(SuspendStart::Run);
            }
            if f.busy {
                return Err(OverridesError::BusySuspending);
            }
            Ok(SuspendStart::Prepare)
        },
    }
}

/// Nothing is put aside while an operation is under way, nor where overrides are disabled or put
/// aside already.
pub proof fn law_nothing_is_put_aside_twice(f: SuspendFacts)
    requires
        suspend_start(f) == Some(SuspendStart::Prepare),
    ensures
        f.saved is None && !f.busy && !f.disabled && f.configured && !f.recovery,
{
}

/// A saved state is not passed over: an operation that does not recover is refused.
pub proof fn law_pending_recovery_comes_first(f: SuspendFacts)
    requires
        f.saved is Some,
        !f.recovery,
    ensures
        suspend_start(f) is None,
{
}

/// What is done after an operation for which overrides were put aside.
#[derive(Debug, Clone, Copy, PartialEq, Eq, Structural)]
pub enum SuspendEnd {
    /// It has stopped midway: they stay aside.
    Keep,
    /// They are brought back, whatever came of it.
    Apply,
}

/// What is done after an operation for which overrides were put aside.
pub fn after_operation(busy: bool) -> (r: SuspendEnd)
    ensures
        r == if busy {
            SuspendEnd::Keep
        } else {
            SuspendEnd::Apply
        },
{
    if busy {
        SuspendEnd::Keep
    } else {
        SuspendEnd::Apply
    }
}

/// Two errors in one, or the one that there is.
pub open spec fn both_errors(
    first: Option<Seq<char>>,
    joint: Seq<char>,
    second: Option<Seq<char>>,
) -> Option<Seq<char>> {
    match (first, second) {
        (None, None) => None,
        (Some(e), None) => Some(e),
        (None, Some(e)) => Some(e),
        (Some(a), Some(b)) => Some(a + joint + b),
    }
}

fn combine(first: Option<&str>, joint: &str, second: Option<&str>) -> (r: Option<String>)
    ensures
        opt_string(r) == both_errors(opt_text(first), joint@, opt_text(second)),
{
    match (first, second) {
        (None, None) => None,
        (Some(e), None) => Some(e.to_owned()),
        (None, Some(e)) => Some(e.to_owned()),
        (Some(a), Some(b)) => Some(cat3(a, joint, b)),
    }
}

/// The error of an operation and of bringing the overrides back after it.
pub fn operation_error(operation: Option<&str>, applied: Option<&str>) -> (r: Option<String>)
    ensures
        opt_string(r) == both_errors(
            opt_text(operation),
            "\nReapplying local overrides also failed: "@,
            opt_text(applied),
        ),
{
    combine(operation, "\nReapplying local overrides also failed: ", applied)
}

/// The error of putting the overrides aside and of bringing back what had been put aside.
pub fn preparation_error(suspended: &str, rolled_back: Option<&str>) -> (r: Option<String>)
    ensures
        opt_string(r) == both_errors(
            Some(suspended@),
            "\nOverride recovery also failed: "@,
            opt_text(rolled_back),
        ),
{
    combine(Some(suspended), "\nOverride recovery also failed: ", rolled_back)
}

/// A step of putting overrides aside.
#[derive(Debug, Clone, Copy, PartialEq, Eq, Structural)]
pub enum PrepareStep {
    /// The state is saved, with all contents.
    Save,
    /// Git looks at the files again.
    ClearFlags,
    /// The files are removed.
    RemoveFiles,
    /// The files of the index are written.
    CheckoutIndex,
    /// The state is saved as suspended.
    SaveSuspended,
    Done,
}

pub open spec fn prepare_after(done: Option<PrepareStep>) -> PrepareStep {
    match done {
        None => PrepareStep::Save,
        Some(PrepareStep::Save) => PrepareStep::ClearFlags,
        Some(PrepareStep::ClearFlags) => PrepareStep::RemoveFiles,
        Some(PrepareStep::RemoveFiles) => PrepareStep::CheckoutIndex,
        Some(PrepareStep::CheckoutIndex) => PrepareStep::SaveSuspended,
        Some(_) => PrepareStep::Done,
    }
}

/// The step behind one that succeeded.
pub fn next_prepare_step(done: Option<PrepareStep>) -> (r: PrepareStep)
    ensures
        r == prepare_after(done),
{
    match done {
        None => PrepareStep::Save,
        Some(PrepareStep::Save) => PrepareStep::ClearFlags,
        Some(PrepareStep::ClearFlags) => PrepareStep::RemoveFiles,
        Some(PrepareStep::RemoveFiles) => PrepareStep::CheckoutIndex,
        Some(PrepareStep::CheckoutIndex) => PrepareStep::SaveSuspended,
        Some(_) => PrepareStep::Done,
    }
}

/// Where a step failed, what had been done has to be taken back.
pub open spec fn needs_rollback(failed: PrepareStep) -> bool {
    failed != PrepareStep::Save
}

/// Whether a step that failed means that what had been done is taken back: all but the first, which
/// leaves files and flags as they were.
pub fn rolls_back(failed: PrepareStep) -> (r: bool)
    ensures
        r == needs_rollback(failed),
{
    failed != PrepareStep::Save
}

/// No file is touched before its contents are saved, and a failure after that is taken back.
pub proof fn law_contents_are_saved_first(done: Option<PrepareStep>)
    ensures
        done is None ==> prepare_after(done) == PrepareStep::Save,
        done is Some && prepare_after(done) != PrepareStep::Done ==> needs_rollback(
            prepare_after(done),
        ),
        prepare_after(done) == PrepareStep::ClearFlags ==> done == Some(PrepareStep::Save),
        prepare_after(done) == PrepareStep::RemoveFiles ==> done == Some(PrepareStep::ClearFlags),
{
}

/// A step of putting overrides back in place.
#[derive(Debug, Clone, Copy, PartialEq, Eq, Structural)]
pub enum ApplyStep {
    CheckStaged,
    /// The state is saved as applying.
    Save,
    /// The commands run.
    RunHooks,
    /// Git no longer looks at the files.
    SetFlags,
    /// Overrides are no longer disabled.
    RemoveMarker,
    RemoveState,
    Done,
}

pub open spec fn apply_after(done: Option<ApplyStep>) -> ApplyStep {
    match done {
        None => ApplyStep::CheckStaged,
        Some(ApplyStep::CheckStaged) => ApplyStep::Save,
        Some(ApplyStep::Save) => ApplyStep::RunHooks,
        Some(ApplyStep::RunHooks) => ApplyStep::SetFlags,
        Some(ApplyStep::SetFlags) => ApplyStep::RemoveMarker,
        Some(ApplyStep::RemoveMarker) => ApplyStep::RemoveState,
        Some(_) => ApplyStep::Done,
    }
}

/// The step behind one that succeeded.
pub fn next_apply_step(done: Option<ApplyStep>) -> (r: ApplyStep)
    ensures
        r == apply_after(done),
{
    match done {
        None => ApplyStep::CheckStaged,
        Some(ApplyStep::CheckStaged) => ApplyStep::Save,
        Some(ApplyStep::Save) => ApplyStep::RunHooks,
        Some(ApplyStep::RunHooks) => ApplyStep::SetFlags,
        Some(ApplyStep::SetFlags) => ApplyStep::RemoveMarker,
        Some(ApplyStep::RemoveMarker) => ApplyStep::RemoveState,
        Some(_) => ApplyStep::Done,
    }
}

/// Only overrides that are fully in place lose their saved state, and the mark that they are
/// disabled.
pub proof fn law_failed_apply_can_be_retried(done: Option<ApplyStep>)
    ensures
        apply_after(done) == ApplyStep::RemoveState ==> done == Some(ApplyStep::RemoveMarker),
        apply_after(done) == ApplyStep::RemoveMarker ==> done == Some(ApplyStep::SetFlags),
        apply_after(done) == ApplyStep::SetFlags ==> done == Some(ApplyStep::RunHooks),
{
}

/// A step of the end of a removal.
#[derive(Debug, Clone, Copy, PartialEq, Eq, Structural)]
pub enum RemovalStep {
    /// Overrides are marked as disabled.
    WriteMarker,
    RemoveState,
    Done,
}

pub open spec fn removal_after(done: Option<RemovalStep>) -> RemovalStep {
    match done {
        None => RemovalStep::WriteMarker,
        Some(RemovalStep::WriteMarker) => RemovalStep::RemoveState,
        Some(_) => RemovalStep::Done,
    }
}

/// The step behind one that succeeded.
pub fn finish_removal(done: Option<RemovalStep>) -> (r: RemovalStep)
    ensures
        r == removal_after(done),
{
    match done {
        None => RemovalStep::WriteMarker,
        Some(RemovalStep::WriteMarker) => RemovalStep::RemoveState,
        Some(_) => RemovalStep::Done,
    }
}

/// The saved state goes only once overrides are marked as disabled.
pub proof fn law_removal_is_marked_first(done: Option<RemovalStep>)
    ensures
        removal_after(done) == RemovalStep::RemoveState ==> done == Some(RemovalStep::WriteMarker),
{
}

/// What `kin overrides apply` does.
#[derive(Debug, Clone, Copy, PartialEq, Eq, Structural)]
pub enum ApplyStart {
    /// A pending recovery is finished.
    Recover,
    /// Overrides are enabled again.
    Enable,
    /// They are put aside and back in place.
    Renew,
}

/// Decides what `kin overrides apply` does.
pub fn apply_current(saved: bool, disabled: bool, busy: bool, configured: bool) -> (r: Result<
    ApplyStart,
    OverridesError,
>)
    ensures
        if saved {
            if busy {
                r matches Err(OverridesError::StaySuspended)
            } else {
                r matches Ok(s) && s == ApplyStart::Recover
            }
        } else if disabled {
            if busy {
                r matches Err(OverridesError::BusyEnabling)
            } else if !configured {
                r matches Err(OverridesError::NoConfig)
            } else {
                r matches Ok(s) && s == ApplyStart::Enable
            }
        } else {
            r matches Ok(s) && s == ApplyStart::Renew
        },
{
    if saved {
        if busy {
            return Err(OverridesError::StaySuspended);
        }
        return Ok(ApplyStart::Recover);
    }
    if disabled {
        if busy {
            return Err(OverridesError::BusyEnabling);
        }
        if !configured {
            return Err(OverridesError::NoConfig);
        }
        return Ok(ApplyStart::Enable);
    }
    Ok(ApplyStart::Renew)
}

/// Whether overrides may be enabled again: not over edits that are not committed, nor over files
/// that are not in the index.
pub fn check_enable(has_edits: bool, files: &Vec<SavedFile>) -> (r: Result<(), OverridesError>)
    ensures
        if has_edits || some_unindexed(files@) {
            r matches Err(OverridesError::UncommittedEdits)
        } else {
            r is Ok
        },
{
    if has_edits {
        return Err(OverridesError::UncommittedEdits);
    }
    let mut i: usize = 0;
    while i < files.len()
        invariant
            i <= files@.len(),
            !has_edits,
            forall|k: int| 0 <= k < i ==> (#[trigger] files@[k]).indexed,
        decreases files@.len() - i,
    {
        if !files[i].indexed {
            return Err(OverridesError::UncommittedEdits);
        }
        i += 1;
    }
    Ok(())
}

/// What `kin overrides remove` does.
#[derive(Debug, Clone, Copy, PartialEq, Eq, Structural)]
pub enum RemoveStart {
    AlreadyDisabled,
    Remove,
}

/// Decides what `kin overrides remove` does.
pub fn remove_current(saved: bool, disabled: bool, busy: bool, configured: bool) -> (r: Result<
    RemoveStart,
    OverridesError,
>)
    ensures
        if saved {
            r matches Err(OverridesError::RecoveryFirst)
        } else if disabled {
            r matches Ok(s) && s == RemoveStart::AlreadyDisabled
        } else if busy {
            r matches Err(OverridesError::BusyRemove)
        } else if !configured {
            r matches Err(OverridesError::NoConfig)
        } else {
            r matches Ok(s) && s == RemoveStart::Remove
        },
{
    if saved {
        return Err(OverridesError::RecoveryFirst);
    }
    if disabled {
        return Ok(RemoveStart::AlreadyDisabled);
    }
    if busy {
        return Err(OverridesError::BusyRemove);
    }
    if !configured {
        return Err(OverridesError::NoConfig);
    }
    Ok(RemoveStart::Remove)
}

/// Whether a snapshot may be taken: not with staged changes at an override path, nor in a sparse
/// checkout.
pub fn check_snapshot(has_staged: bool, sparse: bool) -> (r: Result<(), OverridesError>)
    ensures
        if has_staged {
            r matches Err(OverridesError::StagedChanges)
        } else if sparse {
            r matches Err(OverridesError::SparseCheckout)
        } else {
            r is Ok
        },
{
    if has_staged {
        Err(OverridesError::StagedChanges)
    } else if sparse {
        Err(OverridesError::SparseCheckout)
    } else {
        Ok(())
    }
}

/// What a command that puts overrides in place is told.
pub open spec fn apply_env(root: Seq<char>, branch: Seq<char>) -> Seq<(Seq<char>, Seq<char>)> {
    seq![("KINDRA_WORKTREE_PATH"@, root), ("KINDRA_WORKTREE_BRANCH"@, branch)]
}

/// What is told of such a command that failed.
pub open spec fn apply_failure_text(status: Seq<char>, root: Seq<char>, state: Seq<char>) -> Seq<
    char,
> {
    ("Override apply hook failed ("@ + status + "). Fix the hook and run 'kin continue' in "@) + (
    root + ". Recovery state: "@ + state)
}

/// The first failure, or the number of statuses.
pub open spec fn first_bad_status(statuses: Seq<Option<String>>) -> int
    decreases statuses.len(),
{
    if statuses.len() == 0 || statuses[0] is Some {
        0
    } else {
        1 + first_bad_status(statuses.drop_first())
    }
}

/// What comes next after the first commands have run: each runs in the worktree and is told its path
/// and branch; the first failure is the end.
pub open spec fn is_next_apply_hook(
    step: HookStep,
    apply: Seq<String>,
    root: Seq<char>,
    branch: Seq<char>,
    state_path: Seq<char>,
    windows: bool,
    statuses: Seq<Option<String>>,
) -> bool {
    let at = first_bad_status(statuses);
    if at < statuses.len() {
        step matches HookStep::Failed(text) && text@ == apply_failure_text(
            statuses[at]->0@,
            root,
            state_path,
        )
    } else if statuses.len() < apply.len() {
        step matches HookStep::Run(call) && call.runs(apply[statuses.len() as int]@, windows)
            && call.directory@ == root && variables(call.env@) == apply_env(root, branch)
    } else {
        step is Done
    }
}

/// Runs the commands that put overrides in place, one step at a time: `statuses` holds for each that
/// has run how it failed, or nothing where it succeeded.
pub fn next_apply_hook(
    apply: &Vec<String>,
    root: &str,
    branch: &str,
    state_path: &str,
    windows: bool,
    statuses: &Vec<Option<String>>,
) -> (r: HookStep)
    requires
        statuses@.len() <= apply@.len(),
    ensures
        is_next_apply_hook(r, apply@, root@, branch@, state_path@, windows, statuses@),
{
    let mut i: usize = 0;
    assert(statuses@.skip(0) =~= statuses@);
    while i < statuses.len()
        invariant
            i <= statuses@.len() <= apply@.len(),
            first_bad_status(statuses@) == i + first_bad_status(statuses@.skip(i as int)),
        decreases statuses@.len() - i,
    {
        assert(statuses@.skip(i as int)[0] == statuses@[i as int]);
        assert(statuses@.skip(i as int).drop_first() =~= statuses@.skip(i + 1));
        if let Some(status) = &statuses[i] {
            let a = cat3(
                "Override apply hook failed (",
                status.as_str(),
                "). Fix the hook and run 'kin continue' in ",
            );
            let b = cat3(root, ". Recovery state: ", state_path);
            return HookStep::Failed(cat2(a.as_str(), b.as_str()));
        }
        i += 1;
    }
    assert(statuses@.skip(i as int).len() == 0);
    if i < apply.len() {
        let mut env: Vec<Variable> = Vec::new();
        env.push(("KINDRA_WORKTREE_PATH".to_owned(), root.to_owned()));
        env.push(("KINDRA_WORKTREE_BRANCH".to_owned(), branch.to_owned()));
        assert(variables(env@) =~= apply_env(root@, branch@));
        HookStep::Run(shell_call(apply[i].as_str(), root, env, windows))
    } else {
        HookStep::Done
    }
}

proof fn lemma_first_bad_status(statuses: Seq<Option<String>>)
    ensures
        0 <= first_bad_status(statuses) <= statuses.len(),
        forall|i: int| 0 <= i < first_bad_status(statuses) ==> (#[trigger] statuses[i]) is None,
        first_bad_status(statuses) < statuses.len() ==> statuses[first_bad_status(
            statuses,
        )] is Some,
    decreases statuses.len(),
{
    if statuses.len() > 0 && statuses[0] is None {
        let rest = statuses.drop_first();
        lemma_first_bad_status(rest);
        assert forall|i: int| 0 <= i < first_bad_status(statuses) implies (
        #[trigger] statuses[i]) is None by {
            if i > 0 {
                assert(statuses[i] == rest[i - 1]);
            }
        }
        if first_bad_status(rest) < rest.len() {
            assert(statuses[first_bad_status(statuses)] == rest[first_bad_status(rest)]);
        }
    }
}

/// The commands run one by one in their order, and the first that fails ends them: another runs
/// exactly where all before it succeeded, and all is well exactly where every one has run and
/// succeeded.
pub proof fn law_apply_hooks_stop_at_the_first_failure(
    step: HookStep,
    apply: Seq<String>,
    root: Seq<char>,
    branch: Seq<char>,
    state_path: Seq<char>,
    windows: bool,
    statuses: Seq<Option<String>>,
)
    requires
        statuses.len() <= apply.len(),
        is_next_apply_hook(step, apply, root, branch, state_path, windows, statuses),
    ensures
        step is Run <==> statuses.len() < apply.len() && forall|i: int|
            0 <= i < statuses.len() ==> (#[trigger] statuses[i]) is None,
        step is Done <==> statuses.len() == apply.len() && forall|i: int|
            0 <= i < statuses.len() ==> (#[trigger] statuses[i]) is None,
{
    lemma_first_bad_status(statuses);
    let at = first_bad_status(statuses);
    if at < statuses.len() {
        assert(statuses[at] is Some);
    }
}

} // verus!
