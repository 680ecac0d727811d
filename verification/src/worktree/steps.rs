//! The order in which a worktree is made, switched or removed, with the hooks that are run in it,
//! and how that is taken back.

use vstd::prelude::*;

verus! {

/// What is done with a worktree.
#[derive(Debug, Clone, Copy, PartialEq, Eq, Structural)]
pub enum Job {
    /// It is made for a branch that is there.
    Create,
    /// It is made together with its branch.
    CreateWithBranch,
    /// It goes to another branch.
    Switch,
    /// It is removed.
    Remove,
}

/// What is to be done next.
#[derive(Debug, Clone, Copy, PartialEq, Eq, Structural)]
pub enum Step {
    /// Make the branch.
    MakeBranch,
    /// Read the commit at which the branch was made.
    ReadTip,
    /// Make, switch or remove the worktree.
    Act,
    /// Run the hooks, one after the other until one fails.
    RunHooks,
    /// Remove the worktree that was made, or switch it back.
    TakeBack,
    /// Delete the branch that was made, if it is still where it was made.
    DeleteBranch,
    /// All is done.
    Done,
    /// The job failed, and what could be taken back was.
    Failed,
}

/// How a step went.
#[derive(Debug, Clone, Copy, PartialEq, Eq, Structural)]
pub enum Outcome {
    Went,
    Failed,
    /// It failed, and something is at the worktree's path.
    FailedWithRest,
}

/// The first step.
pub open spec fn first(job: Job) -> Step {
    match job {
        Job::Create | Job::Switch => Step::Act,
        Job::CreateWithBranch => Step::MakeBranch,
        Job::Remove => Step::RunHooks,
    }
}

/// The step after a step. Hooks run once the worktree is made or switched, and before it is removed.
/// What was made before a failure is taken back, the worktree first.
pub open spec fn after(job: Job, step: Step, outcome: Outcome) -> Step {
    match step {
        Step::MakeBranch => if outcome == Outcome::Went {
            Step::ReadTip
        } else {
            Step::Failed
        },
        Step::ReadTip => if outcome == Outcome::Went {
            Step::Act
        } else {
            Step::Failed
        },
        Step::Act => if outcome == Outcome::Went {
            if job == Job::Remove {
                Step::Done
            } else {
                Step::RunHooks
            }
        } else if job != Job::CreateWithBranch {
            Step::Failed
        } else if outcome == Outcome::FailedWithRest {
            Step::TakeBack
        } else {
            Step::DeleteBranch
        },
        Step::RunHooks => match (job == Job::Remove, outcome == Outcome::Went) {
            (true, true) => Step::Act,
            (true, false) => Step::Failed,
            (false, true) => Step::Done,
            (false, false) => Step::TakeBack,
        },
        Step::TakeBack => if job == Job::CreateWithBranch {
            Step::DeleteBranch
        } else {
            Step::Failed
        },
        Step::DeleteBranch => Step::Failed,
        Step::Done => Step::Done,
        Step::Failed => Step::Failed,
    }
}

/// The first step of a job.
pub fn first_step(job: Job) -> (r: Step)
    ensures
        r == first(job),
{
    match job {
        Job::Create | Job::Switch => Step::Act,
        Job::CreateWithBranch => Step::MakeBranch,
        Job::Remove => Step::RunHooks,
    }
}

/// The step after a step that went as `outcome` says.
pub fn next_step(job: Job, step: Step, outcome: Outcome) -> (r: Step)
    ensures
        r == after(job, step, outcome),
{
    let went = outcome == Outcome::Went;
    match step {
        Step::MakeBranch => if went {
            Step::ReadTip
        } else {
            Step::Failed
        },
        Step::ReadTip => if went {
            Step::Act
        } else {
            Step::Failed
        },
        Step::Act => if went {
            if job == Job::Remove {
                Step::Done
            } else {
                Step::RunHooks
            }
        } else if job != Job::CreateWithBranch {
            Step::Failed
        } else if outcome == Outcome::FailedWithRest {
            Step::TakeBack
        } else {
            Step::DeleteBranch
        },
        Step::RunHooks => match (job == Job::Remove, went) {
            (true, true) => Step::Act,
            (true, false) => Step::Failed,
            (false, true) => Step::Done,
            (false, false) => Step::TakeBack,
        },
        Step::TakeBack => if job == Job::CreateWithBranch {
            Step::DeleteBranch
        } else {
            Step::Failed
        },
        Step::DeleteBranch => Step::Failed,
        Step::Done => Step::Done,
        Step::Failed => Step::Failed,
    }
}

/// What a job has done so far.
pub struct Work {
    pub step: Step,
    /// The branch was made and is there.
    pub branch: bool,
    /// The worktree was made, switched or removed, and that was not taken back.
    pub acted: bool,
    /// A worktree that could not be made left something at its path.
    pub rest: bool,
    /// The hooks have run without a failure.
    pub ran: bool,
    /// Something failed.
    pub failed: bool,
    /// The branch's commit could not be read, or taking something back failed.
    pub stuck: bool,
}

/// What a step does.
pub open spec fn work_after(job: Job, w: Work, outcome: Outcome) -> Work {
    let ok = outcome == Outcome::Went;
    let over = w.step == Step::Done || w.step == Step::Failed;
    let back = w.step == Step::TakeBack || w.step == Step::DeleteBranch;
    Work {
        step: after(job, w.step, outcome),
        branch: (w.branch || (w.step == Step::MakeBranch && ok)) && !(w.step == Step::DeleteBranch
            && ok),
        acted: (w.acted || (w.step == Step::Act && ok)) && !(w.step == Step::TakeBack && ok),
        rest: (w.rest || (w.step == Step::Act && outcome == Outcome::FailedWithRest)) && !(w.step
            == Step::TakeBack && ok),
        ran: w.ran || (w.step == Step::RunHooks && ok),
        failed: w.failed || (!over && !ok),
        stuck: w.stuck || (!ok && (back || w.step == Step::ReadTip)),
    }
}

/// A job after its first `k` steps, which went as `outcomes` says.
pub open spec fn work_at(job: Job, outcomes: spec_fn(int) -> Outcome, k: int) -> Work
    decreases k,
{
    if k <= 0 {
        Work {
            step: first(job),
            branch: false,
            acted: false,
            rest: false,
            ran: false,
            failed: false,
            stuck: false,
        }
    } else {
        work_after(job, work_at(job, outcomes, k - 1), outcomes(k - 1))
    }
}

/// What holds of a job at every step.
pub open spec fn in_order(job: Job, w: Work) -> bool {
    let with_branch = job == Job::CreateWithBranch;
    let removes = job == Job::Remove;
    &&& w.branch ==> with_branch
    &&& w.rest ==> w.failed
    &&& w.stuck ==> w.failed
    &&& match w.step {
        Step::MakeBranch => with_branch && !w.failed && !w.branch && !w.acted && !w.ran,
        Step::ReadTip => with_branch && !w.failed && w.branch && !w.acted && !w.ran,
        Step::Act => !w.failed && !w.acted && w.branch == with_branch && w.ran == removes,
        Step::RunHooks => !w.failed && w.acted == !removes && w.branch == with_branch && !w.ran,
        Step::TakeBack => w.failed && !w.stuck && !removes,
        Step::DeleteBranch => w.failed && (!w.stuck ==> !w.acted && !w.rest),
        Step::Done => !w.failed && w.acted && w.branch == with_branch && w.ran,
        Step::Failed => w.failed && (!w.stuck ==> !w.branch && !w.acted && (with_branch
            ==> !w.rest)),
    }
}

proof fn lemma_in_order(job: Job, outcomes: spec_fn(int) -> Outcome, k: int)
    requires
    ensures
        in_order(job, work_at(job, outcomes, k)),
    decreases k,
{
    if k > 0 {
        lemma_in_order(job, outcomes, k - 1);
    }
}

/// A job that fails leaves nothing behind that it made: no new branch, no worktree that was made, no
/// switch and nothing at the path of a worktree that was to be made with its branch; a worktree that
/// was to be removed is still there. This fails only where taking back failed, or where the commit of
/// the new branch could not be read.
pub proof fn law_failure_leaves_nothing_behind(
    job: Job,
    outcomes: spec_fn(int) -> Outcome,
    k: int,
)
    requires
        work_at(job, outcomes, k).step == Step::Failed,
    ensures
        ({
            let w = work_at(job, outcomes, k);
            w.failed && (!w.stuck ==> !w.branch && !w.acted && (job == Job::CreateWithBranch
                ==> !w.rest))
        }),
{
    lemma_in_order(job, outcomes, k);
}

/// A job that is done has done all of it: the worktree is made, switched or removed, with its branch
/// where that was asked for, and the hooks have run; nothing failed.
pub proof fn law_done_is_complete(
    job: Job,
    outcomes: spec_fn(int) -> Outcome,
    k: int,
)
    requires
        work_at(job, outcomes, k).step == Step::Done,
    ensures
        ({
            let w = work_at(job, outcomes, k);
            !w.failed && w.acted && w.branch == (job == Job::CreateWithBranch) && w.ran
        }),
{
    lemma_in_order(job, outcomes, k);
}

/// Hooks run only while nothing has failed, and not twice. The worktree is there while they run: one
/// that is made or switched is so before, and one that is removed goes only after them.
pub proof fn law_hooks_run_in_the_worktree(job: Job, outcomes: spec_fn(int) -> Outcome, k: int)
    ensures
        ({
            let w = work_at(job, outcomes, k);
            &&& w.step == Step::RunHooks ==> !w.failed && !w.ran && w.acted == (job != Job::Remove)
            &&& w.step == Step::Act && job == Job::Remove ==> w.ran && !w.failed
        }),
{
    lemma_in_order(job, outcomes, k);
}

/// How many steps are left at most.
pub open spec fn steps_left(job: Job, step: Step) -> nat {
    match step {
        Step::MakeBranch => 6,
        Step::ReadTip => 5,
        Step::Act => if job == Job::Remove {
            1
        } else {
            4
        },
        Step::RunHooks => 3,
        Step::TakeBack => 2,
        Step::DeleteBranch => 1,
        Step::Done => 0,
        Step::Failed => 0,
    }
}

/// Every job ends, however its steps go.
pub proof fn law_every_job_ends(job: Job, outcomes: spec_fn(int) -> Outcome, k: int)
    requires
        k >= 6,
    ensures
        ({
            let step = work_at(job, outcomes, k).step;
            step == Step::Done || step == Step::Failed
        }),
{
    lemma_steps_left(job, outcomes, k);
}

proof fn lemma_steps_left(job: Job, outcomes: spec_fn(int) -> Outcome, k: int)
    requires
        k >= 0,
    ensures
        steps_left(job, work_at(job, outcomes, k).step) <= if k <= 6 {
            6 - k
        } else {
            0
        },
    decreases k,
{
    if k > 0 {
        lemma_steps_left(job, outcomes, k - 1);
    }
}

} // verus!
