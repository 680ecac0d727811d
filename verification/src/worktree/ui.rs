//! How worktrees are listed, and the question before something is thrown away.

use crate::commands::prompt::{prompt_confirm, Confirmation, Fallback, PromptError};
use crate::interaction::Interaction;
use crate::text::{cat2, cat4, join, join_of, pad, padded, strs};
use vstd::prelude::*;
use vstd::utf8::encode_utf8;

verus! {

/// A worktree in the list.
#[derive(Debug, Clone, PartialEq, Eq)]
pub struct WorktreeListRow {
    pub role: String,
    pub branch: String,
    pub state: Vec<String>,
    pub path: String,
}

/// The state of a worktree in one word.
pub open spec fn state_text(flags: Seq<Seq<char>>) -> Seq<char> {
    if flags.len() == 0 {
        "clean"@
    } else {
        join_of(flags, ","@)
    }
}

pub fn format_state_flags(flags: &Vec<String>) -> (r: String)
    ensures
        r@ == state_text(strs(flags@)),
{
    assert(strs(flags@).len() == flags@.len());
    if flags.len() == 0 {
        "clean".to_owned()
    } else {
        join(flags, ",")
    }
}

/// The larger of two numbers.
pub open spec fn larger(a: nat, b: nat) -> nat {
    if a < b {
        b
    } else {
        a
    }
}

/// The widths of the first three columns: the bytes of the longest entry, the heading counted.
pub open spec fn column_widths(rows: Seq<WorktreeListRow>) -> (nat, nat, nat)
    decreases rows.len(),
{
    if rows.len() == 0 {
        ("ROLE"@.len(), "BRANCH"@.len(), "STATE"@.len())
    } else {
        let (a, b, c) = column_widths(rows.drop_last());
        let row = rows.last();
        (
            larger(a, encode_utf8(row.role@).len()),
            larger(b, encode_utf8(row.branch@).len()),
            larger(c, encode_utf8(state_text(strs(row.state@))).len()),
        )
    }
}

/// One line of the list.
pub open spec fn list_line(
    widths: (nat, nat, nat),
    role: Seq<char>,
    branch: Seq<char>,
    state: Seq<char>,
    path: Seq<char>,
) -> Seq<char> {
    (padded(role, widths.0) + " "@) + (padded(branch, widths.1) + " "@) + (padded(state, widths.2)
        + " "@) + path
}

fn render_line(
    widths: (usize, usize, usize),
    role: &str,
    branch: &str,
    state: &str,
    path: &str,
) -> (r: String)
    ensures
        r@ == list_line(
            (widths.0 as nat, widths.1 as nat, widths.2 as nat),
            role@,
            branch@,
            state@,
            path@,
        ),
{
    let a = cat2(pad(role, widths.0).as_str(), " ");
    let b = cat2(pad(branch, widths.1).as_str(), " ");
    let c = cat2(pad(state, widths.2).as_str(), " ");
    cat4(a.as_str(), b.as_str(), c.as_str(), path)
}

fn find_widths(rows: &Vec<WorktreeListRow>) -> (r: (usize, usize, usize))
    ensures
        (r.0 as nat, r.1 as nat, r.2 as nat) == column_widths(rows@),
{
    proof {
        reveal_strlit("ROLE");
        reveal_strlit("BRANCH");
        reveal_strlit("STATE");
    }
    let mut a: usize = 4;
    let mut b: usize = 6;
    let mut c: usize = 5;
    let mut i: usize = 0;
    while i < rows.len()
        invariant
            i <= rows@.len(),
            (a as nat, b as nat, c as nat) == column_widths(rows@.take(i as int)),
        decreases rows@.len() - i,
    {
        assert(rows@.take(i + 1).drop_last() =~= rows@.take(i as int));
        assert(rows@.take(i + 1).last() == rows@[i as int]);
        let x: usize = rows[i].role.as_str().as_bytes().len();
        let y: usize = rows[i].branch.as_str().as_bytes().len();
        let state = format_state_flags(&rows[i].state);
        let z: usize = state.as_str().as_bytes().len();
        if a < x {
            a = x;
        }
        if b < y {
            b = y;
        }
        if c < z {
            c = z;
        }
        i += 1;
    }
    assert(rows@.take(rows@.len() as int) =~= rows@);
    (a, b, c)
}

/// The lines of the list: a heading, and one line for each worktree, in columns.
pub fn render_list(rows: &Vec<WorktreeListRow>) -> (r: Vec<String>)
    ensures
        r@.len() == rows@.len() + 1,
        r@[0]@ == list_line(column_widths(rows@), "ROLE"@, "BRANCH"@, "STATE"@, "PATH"@),
        forall|i: int|
            0 <= i < rows@.len() ==> (#[trigger] r@[i + 1])@ == list_line(
                column_widths(rows@),
                rows@[i].role@,
                rows@[i].branch@,
                state_text(strs(rows@[i].state@)),
                rows@[i].path@,
            ),
{
    let widths = find_widths(rows);
    let mut out: Vec<String> = Vec::new();
    out.push(render_line(widths, "ROLE", "BRANCH", "STATE", "PATH"));
    let mut i: usize = 0;
    while i < rows.len()
        invariant
            i <= rows@.len(),
            out@.len() == i + 1,
            (widths.0 as nat, widths.1 as nat, widths.2 as nat) == column_widths(rows@),
            out@[0]@ == list_line(column_widths(rows@), "ROLE"@, "BRANCH"@, "STATE"@, "PATH"@),
            forall|k: int|
                0 <= k < i ==> (#[trigger] out@[k + 1])@ == list_line(
                    column_widths(rows@),
                    rows@[k].role@,
                    rows@[k].branch@,
                    state_text(strs(rows@[k].state@)),
                    rows@[k].path@,
                ),
        decreases rows@.len() - i,
    {
        let row = &rows[i];
        let state = format_state_flags(&row.state);
        out.push(
            render_line(
                widths,
                row.role.as_str(),
                row.branch.as_str(),
                state.as_str(),
                row.path.as_str(),
            ),
        );
        i += 1;
    }
    out
}

/// How a question before something is thrown away is settled.
#[derive(Debug, Clone, Copy, PartialEq, Eq, Structural)]
pub enum ConfirmStep {
    /// Go on.
    Proceed,
    /// A person is to answer.
    Ask,
    /// The answer was no.
    Abort,
}

/// The error of a question that was answered with no.
pub fn aborted() -> (r: String)
    ensures
        r@ == "Aborted."@,
{
    "Aborted.".to_owned()
}

/// Settles the question before something is thrown away. Nobody is asked where the answer is
/// assumed; where nobody can be asked, the fallback decides.
pub fn confirm_or_abort(
    mode: &Interaction,
    message: &str,
    assume_yes: bool,
    fallback: Fallback<bool>,
) -> (r: Result<ConfirmStep, PromptError>)
    ensures
        if assume_yes || mode.says_yes() {
            r == Ok::<_, PromptError>(ConfirmStep::Proceed)
        } else if *mode is Interactive {
            r == Ok::<_, PromptError>(ConfirmStep::Ask)
        } else {
            match fallback {
                Fallback::Default(yes) => r == Ok::<_, PromptError>(answered(yes)),
                Fallback::Require(hint) => r matches Err(PromptError::InputRequired(e)) && e.0@
                    == message@ + " "@ + hint@,
            }
        },
{
    if assume_yes {
        return Ok(ConfirmStep::Proceed);
    }
    match prompt_confirm(mode, message, fallback) {
        Ok(Confirmation::Ask) => Ok(ConfirmStep::Ask),
        Ok(Confirmation::Assumed) => Ok(ConfirmStep::Proceed),
        Ok(Confirmation::Fallback(yes)) => Ok(take_answer(yes)),
        Err(e) => Err(e),
    }
}

/// What follows from an answer.
pub open spec fn answered(yes: bool) -> ConfirmStep {
    if yes {
        ConfirmStep::Proceed
    } else {
        ConfirmStep::Abort
    }
}

pub fn take_answer(yes: bool) -> (r: ConfirmStep)
    ensures
        r == answered(yes),
{
    if yes {
        ConfirmStep::Proceed
    } else {
        ConfirmStep::Abort
    }
}

} // verus!
