//! `kin status`: which operation is under way.

use crate::commands::run::{RunState, RunStatus};
use crate::rebase_utils::{Operation, RebaseState};
use crate::text::{cat2, cat5, dec, decimal, join, join_of, opt_string, push_text, strs};
use vstd::prelude::*;

verus! {

/// The operation that is told of.
#[derive(Debug, Clone, Copy, PartialEq, Eq, Structural)]
pub enum ActiveOperation {
    /// More than one is persisted.
    Several,
    Hydration,
    Run,
    /// A rebase, where its state is still needed.
    Rebase,
}

/// Which operation is told of, from what is persisted.
pub fn active_operation(hydration: bool, rebase: bool, run: bool) -> (r: ActiveOperation)
    ensures
        r == if (hydration && rebase) || (hydration && run) || (rebase && run) {
            ActiveOperation::Several
        } else if hydration {
            ActiveOperation::Hydration
        } else if run {
            ActiveOperation::Run
        } else {
            ActiveOperation::Rebase
        },
{
    if (hydration && rebase) || (hydration && run) || (rebase && run) {
        ActiveOperation::Several
    } else if hydration {
        ActiveOperation::Hydration
    } else if run {
        ActiveOperation::Run
    } else {
        ActiveOperation::Rebase
    }
}

/// What is said of local overrides.
pub open spec fn overrides_notes(suspended: bool, disabled: bool) -> Seq<Seq<char>> {
    (if suspended {
        seq![
            "Local overrides are suspended or awaiting recovery. Run 'kin continue' or 'kin abort' after resolving the operation or apply-hook failure."@,
        ]
    } else {
        Seq::empty()
    }) + (if disabled {
        seq![
            "Local overrides are disabled in this worktree. Run 'kin overrides apply' to re-enable them."@,
        ]
    } else {
        Seq::empty()
    })
}

/// What is said of local overrides.
pub fn overrides_status(suspended: bool, disabled: bool) -> (r: Vec<String>)
    ensures
        strs(r@) == overrides_notes(suspended, disabled),
{
    let mut out: Vec<String> = Vec::new();
    if suspended {
        push_text(
            &mut out,
            "Local overrides are suspended or awaiting recovery. Run 'kin continue' or 'kin abort' after resolving the operation or apply-hook failure.".to_owned(),
        );
    }
    if disabled {
        push_text(
            &mut out,
            "Local overrides are disabled in this worktree. Run 'kin overrides apply' to re-enable them.".to_owned(),
        );
    }
    assert(strs(out@) =~= overrides_notes(suspended, disabled));
    out
}

/// What is said where several operations are persisted, or the hydration of a checkout.
pub fn fixed_status(operation: ActiveOperation) -> (r: Option<String>)
    ensures
        opt_string(r) == match operation {
            ActiveOperation::Several => Some(
                "Multiple Kindra operations are persisted. Resolve state manually before continuing or aborting."@,
            ),
            ActiveOperation::Hydration => Some(
                "Checkout hydration in progress. Run 'kin continue' to resume or 'kin abort' to stop."@,
            ),
            _ => None,
        },
{
    match operation {
        ActiveOperation::Several => Some(
            "Multiple Kindra operations are persisted. Resolve state manually before continuing or aborting.".to_owned(),
        ),
        ActiveOperation::Hydration => Some(
            "Checkout hydration in progress. Run 'kin continue' to resume or 'kin abort' to stop.".to_owned(),
        ),
        _ => None,
    }
}

pub open spec fn run_status_name(s: RunStatus) -> Seq<char> {
    match s {
        RunStatus::InProgress => "in progress"@,
        RunStatus::Failed => "failed"@,
        RunStatus::Aborted => "aborted"@,
    }
}

/// How many branches a run has been through.
pub open spec fn processed(s: RunState) -> int {
    if s.current_index <= s.target_branches@.len() {
        s.current_index as int
    } else {
        s.target_branches@.len() as int
    }
}

/// What is said of a run.
pub open spec fn run_lines(s: RunState) -> Seq<Seq<char>> {
    let total = s.target_branches@.len();
    let none = Seq::<Seq<char>>::empty();
    seq![
        "Run "@ + run_status_name(s.status) + ": "@ + (dec(processed(s) as nat) + " of "@ + dec(
            total,
        )) + " branch(es) processed"@,
    ] + (if processed(s) < total {
        seq!["Next branch: "@ + s.target_branches@[processed(s)]@]
    } else {
        none
    }) + (if s.failed_branches@.len() > 0 {
        seq!["Failed branches: "@ + join_of(strs(s.failed_branches@), ", "@)]
    } else {
        none
    }) + (match opt_string(s.last_error) {
        Some(e) => seq!["Last error: "@ + e],
        None => none,
    })
}

/// What is said of a run.
pub fn run_status(state: &RunState) -> (r: Vec<String>)
    ensures
        strs(r@) == run_lines(*state),
{
    let total: usize = state.target_branches.len();
    let at: usize = if state.current_index <= total {
        state.current_index
    } else {
        total
    };
    let name = match state.status {
        RunStatus::InProgress => "in progress",
        RunStatus::Failed => "failed",
        RunStatus::Aborted => "aborted",
    };
    let mut out: Vec<String> = Vec::new();
    let count = crate::text::cat3(
        decimal(at as u64).as_str(),
        " of ",
        decimal(total as u64).as_str(),
    );
    push_text(&mut out, cat5("Run ", name, ": ", count.as_str(), " branch(es) processed"));
    if at < total {
        push_text(&mut out, cat2("Next branch: ", state.target_branches[at].as_str()));
    }
    if state.failed_branches.len() > 0 {
        let names = join(&state.failed_branches, ", ");
        push_text(&mut out, cat2("Failed branches: ", names.as_str()));
    }
    match &state.last_error {
        Some(e) => push_text(&mut out, cat2("Last error: ", e.as_str())),
        None => {},
    }
    assert(strs(out@) =~= run_lines(*state));
    out
}

pub open spec fn operation_name(o: Operation) -> Seq<char> {
    match o {
        Operation::Move => "Move"@,
        Operation::Reorder => "Reorder"@,
        Operation::Commit => "Commit"@,
        Operation::Sync => "Sync"@,
    }
}

/// What is said of a rebase, or of none.
pub open spec fn rebase_lines(state: Option<RebaseState>) -> Seq<Seq<char>> {
    match state {
        None => seq!["No Kindra operation active."@],
        Some(s) => seq![
            if s.operation == Operation::Reorder {
                "Reorder"@ + " in progress from "@ + s.original_branch@
            } else {
                operation_name(s.operation) + " in progress: "@ + s.original_branch@ + " onto "@
                    + s.target_branch@
            },
            "Remaining branches: "@ + join_of(strs(s.remaining_branches@), ", "@),
        ],
    }
}

/// What is said of a rebase, or of none.
pub fn rebase_status(state: &Option<RebaseState>) -> (r: Vec<String>)
    ensures
        strs(r@) == rebase_lines(*state),
{
    let mut out: Vec<String> = Vec::new();
    match state {
        None => push_text(&mut out, "No Kindra operation active.".to_owned()),
        Some(s) => {
            if s.operation == Operation::Reorder {
                push_text(
                    &mut out,
                    crate::text::cat3(
                        "Reorder",
                        " in progress from ",
                        s.original_branch.as_str(),
                    ),
                );
            } else {
                let name = match s.operation {
                    Operation::Move => "Move",
                    Operation::Reorder => "Reorder",
                    Operation::Commit => "Commit",
                    Operation::Sync => "Sync",
                };
                push_text(
                    &mut out,
                    cat5(
                        name,
                        " in progress: ",
                        s.original_branch.as_str(),
                        " onto ",
                        s.target_branch.as_str(),
                    ),
                );
            }
            let names = join(&s.remaining_branches, ", ");
            push_text(&mut out, cat2("Remaining branches: ", names.as_str()));
        },
    }
    assert(strs(out@) =~= rebase_lines(*state));
    out
}

/// What is said of a run: how far it is, the branch that comes next where one is left, the branches that
/// failed, and the last error.
pub proof fn law_state_of_a_run_is_told(s: RunState)
    requires
        s.current_index <= s.target_branches@.len(),
    ensures
        ({
            let lines = run_lines(s);
            let total = s.target_branches@.len();
            &&& lines[0] == "Run "@ + run_status_name(s.status) + ": "@ + (dec(
                s.current_index as nat,
            ) + " of "@ + dec(total)) + " branch(es) processed"@
            &&& s.current_index < total ==> lines.contains(
                "Next branch: "@ + s.target_branches@[s.current_index as int]@,
            )
            &&& s.failed_branches@.len() > 0 ==> lines.contains(
                "Failed branches: "@ + join_of(strs(s.failed_branches@), ", "@),
            )
            &&& s.last_error matches Some(e) ==> lines.contains("Last error: "@ + e@)
        }),
{
    let lines = run_lines(s);
    let total = s.target_branches@.len();
    let a: int = if s.current_index < total {
        1
    } else {
        0
    };
    let b: int = if s.failed_branches@.len() > 0 {
        1
    } else {
        0
    };
    if s.current_index < total {
        assert(lines[1] == "Next branch: "@ + s.target_branches@[s.current_index as int]@);
    }
    if s.failed_branches@.len() > 0 {
        assert(lines[1 + a] == "Failed branches: "@ + join_of(strs(s.failed_branches@), ", "@));
    }
    if s.last_error is Some {
        assert(lines[1 + a + b] == "Last error: "@ + s.last_error->0@);
    }
}

/// What is said of a rebase: the operation, where it began and where it goes, and the branches that are
/// left. Without a rebase that is said.
pub proof fn law_state_of_a_rebase_is_told(s: RebaseState)
    ensures
        rebase_lines(None) == seq!["No Kindra operation active."@],
        rebase_lines(Some(s)).len() == 2,
        rebase_lines(Some(s))[1] == "Remaining branches: "@ + join_of(
            strs(s.remaining_branches@),
            ", "@,
        ),
        s.operation == Operation::Reorder ==> rebase_lines(Some(s))[0] == "Reorder"@
            + " in progress from "@ + s.original_branch@,
        s.operation != Operation::Reorder ==> rebase_lines(Some(s))[0] == operation_name(s.operation)
            + " in progress: "@ + s.original_branch@ + " onto "@ + s.target_branch@,
{
}

/// Overrides that are put aside are told of exactly where they are, and so are those that are disabled.
pub proof fn law_state_of_overrides_is_told(suspended: bool, disabled: bool)
    ensures
        overrides_notes(suspended, disabled).len() == (if suspended {
            1int
        } else {
            0
        }) + (if disabled {
            1int
        } else {
            0
        }),
        suspended ==> overrides_notes(suspended, disabled)[0]
            == "Local overrides are suspended or awaiting recovery. Run 'kin continue' or 'kin abort' after resolving the operation or apply-hook failure."@,
        disabled ==> overrides_notes(suspended, disabled).last()
            == "Local overrides are disabled in this worktree. Run 'kin overrides apply' to re-enable them."@,
{
}

} // verus!
