//! `kin abort`: gives up an operation and puts back what it changed.

use crate::names::NameMap;
use crate::oid::{full_oid, is_oid_text, parse_oid};
use crate::rebase_utils::{restore_branch, restore_branch_of, RebaseState};
use crate::text::{cat2, cat3, cat5, list, opt_string, strs};
use vstd::prelude::*;

verus! {

/// What there is to abort.
#[derive(Debug, Clone, Copy, PartialEq, Eq, Structural)]
pub enum AbortTarget {
    /// More than one operation is persisted.
    Several,
    Rebase,
    Run,
    /// A rebase of git's own.
    NativeRebase,
    Nothing,
}

/// What there is to abort, from what is persisted and whether git is in a rebase.
pub fn abort_target(has_rebase_state: bool, has_run_state: bool, git_rebase: bool) -> (r: AbortTarget)
    ensures
        r == if has_rebase_state && has_run_state {
            AbortTarget::Several
        } else if has_rebase_state {
            AbortTarget::Rebase
        } else if has_run_state {
            AbortTarget::Run
        } else if git_rebase {
            AbortTarget::NativeRebase
        } else {
            AbortTarget::Nothing
        },
{
    if has_rebase_state && has_run_state {
        AbortTarget::Several
    } else if has_rebase_state {
        AbortTarget::Rebase
    } else if has_run_state {
        AbortTarget::Run
    } else if git_rebase {
        AbortTarget::NativeRebase
    } else {
        AbortTarget::Nothing
    }
}

/// What is said where there is nothing that is aborted.
pub fn abort_note(target: AbortTarget) -> (r: Option<String>)
    ensures
        opt_string(r) == match target {
            AbortTarget::Several => Some(
                "Multiple Kindra operations are persisted. Resolve state manually before aborting."@,
            ),
            AbortTarget::NativeRebase => Some(
                "A native git rebase is in progress. Use 'git rebase --abort'."@,
            ),
            AbortTarget::Nothing => Some("No operation in progress."@),
            _ => None,
        },
{
    match target {
        AbortTarget::Several => Some(
            "Multiple Kindra operations are persisted. Resolve state manually before aborting.".to_owned(),
        ),
        AbortTarget::NativeRebase => Some(
            "A native git rebase is in progress. Use 'git rebase --abort'.".to_owned(),
        ),
        AbortTarget::Nothing => Some("No operation in progress.".to_owned()),
        _ => None,
    }
}

/// A step of the abort of a rebase.
#[derive(Debug, Clone, Copy, PartialEq, Eq, Structural)]
pub enum AbortStep {
    /// `git rebase --abort`.
    AbortGitRebase,
    /// Every branch gets the tip that it had.
    RestoreTips,
    /// The branch that the operation came from is checked out.
    Checkout,
    /// What was set aside is applied.
    ApplyStash,
    /// The state is saved without what was set aside.
    ForgetStash,
    /// What was set aside is dropped; a failure is only told of.
    DropStash,
    /// Everything is unstaged.
    Unstage,
    /// The state is removed.
    Clear,
    Done,
}

/// What the abort of a rebase goes by.
#[derive(Debug, Clone, Copy)]
pub struct AbortFacts {
    /// The branches are as the operation left them.
    pub owns: bool,
    /// Git is in a rebase.
    pub git_rebase: bool,
    /// Something was set aside.
    pub stash: bool,
    pub unstage: bool,
}

pub open spec fn after_stash(f: AbortFacts) -> AbortStep {
    if f.unstage {
        AbortStep::Unstage
    } else {
        AbortStep::Clear
    }
}

pub open spec fn abort_after(f: AbortFacts, done: Option<AbortStep>) -> AbortStep {
    match done {
        None => if f.owns && f.git_rebase {
            AbortStep::AbortGitRebase
        } else if f.owns {
            AbortStep::RestoreTips
        } else {
            AbortStep::Clear
        },
        Some(AbortStep::AbortGitRebase) => AbortStep::RestoreTips,
        Some(AbortStep::RestoreTips) => AbortStep::Checkout,
        Some(AbortStep::Checkout) => if f.stash {
            AbortStep::ApplyStash
        } else {
            after_stash(f)
        },
        Some(AbortStep::ApplyStash) => AbortStep::ForgetStash,
        Some(AbortStep::ForgetStash) => AbortStep::DropStash,
        Some(AbortStep::DropStash) => after_stash(f),
        Some(AbortStep::Unstage) => AbortStep::Clear,
        Some(_) => AbortStep::Done,
    }
}

/// The step behind one that succeeded.
pub fn next_abort_step(facts: &AbortFacts, done: Option<AbortStep>) -> (r: AbortStep)
    ensures
        r == abort_after(*facts, done),
{
    match done {
        None => if facts.owns && facts.git_rebase {
            AbortStep::AbortGitRebase
        } else if facts.owns {
            AbortStep::RestoreTips
        } else {
            AbortStep::Clear
        },
        Some(AbortStep::AbortGitRebase) => AbortStep::RestoreTips,
        Some(AbortStep::RestoreTips) => AbortStep::Checkout,
        Some(AbortStep::Checkout) => if facts.stash {
            AbortStep::ApplyStash
        } else if facts.unstage {
            AbortStep::Unstage
        } else {
            AbortStep::Clear
        },
        Some(AbortStep::ApplyStash) => AbortStep::ForgetStash,
        Some(AbortStep::ForgetStash) => AbortStep::DropStash,
        Some(AbortStep::DropStash) => if facts.unstage {
            AbortStep::Unstage
        } else {
            AbortStep::Clear
        },
        Some(AbortStep::Unstage) => AbortStep::Clear,
        Some(_) => AbortStep::Done,
    }
}

/// The `n`-th step of an abort in which every step succeeds.
pub open spec fn nth_step(f: AbortFacts, n: nat) -> Option<AbortStep>
    decreases n,
{
    if n == 0 {
        None
    } else {
        Some(abort_after(f, nth_step(f, (n - 1) as nat)))
    }
}

/// A repository that is no longer as the operation left it is not touched: the state is removed, and
/// that is all.
pub proof fn law_foreign_changes_are_left_alone(f: AbortFacts)
    requires
        !f.owns,
    ensures
        nth_step(f, 1) == Some(AbortStep::Clear),
        nth_step(f, 2) == Some(AbortStep::Done),
{
    reveal_with_fuel(nth_step, 3);
}

/// An operation that still owns its branches puts their tips back before it is forgotten.
pub proof fn law_tips_are_put_back(f: AbortFacts)
    requires
        f.owns,
    ensures
        nth_step(f, 1) == Some(AbortStep::RestoreTips) || (nth_step(f, 1) == Some(
            AbortStep::AbortGitRebase,
        ) && nth_step(f, 2) == Some(AbortStep::RestoreTips)),
        f.git_rebase <==> nth_step(f, 1) == Some(AbortStep::AbortGitRebase),
{
    reveal_with_fuel(nth_step, 3);
}

/// What was set aside is dropped only after it has been applied and the state no longer names it.
pub proof fn law_stash_is_applied_before_it_is_dropped(f: AbortFacts, done: Option<AbortStep>)
    ensures
        abort_after(f, done) == AbortStep::DropStash ==> done == Some(AbortStep::ForgetStash),
        abort_after(f, done) == AbortStep::ForgetStash ==> done == Some(AbortStep::ApplyStash),
        abort_after(f, done) == AbortStep::ApplyStash ==> f.stash,
{
}

/// A reference and the commit that it gets; or why it gets none.
#[derive(Debug)]
pub enum TipRestore {
    /// How git is called.
    Update(Vec<String>),
    /// The saved tip of that branch is no id.
    Invalid(String, String),
}

/// How the branch gets its tip back.
pub open spec fn is_restore(r: TipRestore, branch: Seq<char>, tip: Seq<char>) -> bool {
    if is_oid_text(tip) {
        r matches TipRestore::Update(args) && strs(args@) == seq![
            "update-ref"@,
            "refs/heads/"@ + branch,
            full_oid(tip),
        ]
    } else {
        r matches TipRestore::Invalid(b, t) && b@ == branch && t@ == tip
    }
}

/// How a branch gets its tip back.
pub fn restore_tip(branch_name: &str, original_tip: &str) -> (r: TipRestore)
    ensures
        is_restore(r, branch_name@, original_tip@),
{
    match parse_oid(original_tip) {
        Some(id) => {
            let reference = cat2("refs/heads/", branch_name);
            let args = list(&["update-ref", reference.as_str(), id.as_str()]);
            assert(strs(args@) =~= seq![
                "update-ref"@,
                "refs/heads/"@ + branch_name@,
                full_oid(original_tip@),
            ]);
            TipRestore::Update(args)
        },
        None => TipRestore::Invalid(branch_name.to_owned(), original_tip.to_owned()),
    }
}

/// How every branch gets the tip that it had, in the order of the names.
pub fn restore_original_branch_tips(original_tip_map: &NameMap<String>) -> (r: Vec<TipRestore>)
    ensures
        original_tip_map.listed(),
        r@.len() == original_tip_map.names().len(),
        forall|i: int|
            0 <= i < r@.len() ==> is_restore(
                #[trigger] r@[i],
                original_tip_map.names()[i],
                original_tip_map@[original_tip_map.names()[i]]@,
            ),
{
    let n: usize = original_tip_map.len();
    let mut out: Vec<TipRestore> = Vec::new();
    let mut i: usize = 0;
    while i < n
        invariant
            i <= n,
            n == original_tip_map.names().len(),
            out@.len() == i,
            forall|k: int|
                0 <= k < i ==> is_restore(
                    #[trigger] out@[k],
                    original_tip_map.names()[k],
                    original_tip_map@[original_tip_map.names()[k]]@,
                ),
        decreases n - i,
    {
        let name = original_tip_map.name_at(i);
        let tip = original_tip_map.value_at(i);
        out.push(restore_tip(name.as_str(), tip.as_str()));
        i += 1;
    }
    out
}

/// What is said where a branch does not get its tip back; `tip` is there where that tip is no id.
pub fn tip_not_restored(branch_name: &str, tip: Option<&str>) -> (r: String)
    ensures
        r@ == match tip {
            Some(t) => "Saved original tip for branch '"@ + branch_name@ + "' is invalid: '"@ + t@
                + "'."@,
            None => "Failed to restore branch '"@ + branch_name@ + "' to its original tip."@,
        },
{
    match tip {
        Some(t) => cat5("Saved original tip for branch '", branch_name, "' is invalid: '", t, "'."),
        None => cat3("Failed to restore branch '", branch_name, "' to its original tip."),
    }
}

/// What is said at the end of an abort.
pub open spec fn abort_text(owns: bool, git_rebase: bool, stash: Option<Seq<char>>) -> Seq<char> {
    if owns {
        "Operation aborted (state cleared)."@
    } else {
        let what = if git_rebase {
            "Kindra state cleared without touching the active git rebase because the repository no longer matches Kindra's saved state."@
        } else {
            "Kindra state cleared without restoring refs because the repository no longer matches Kindra's saved state."@
        };
        match stash {
            Some(s) => what + " Saved stash '"@ + s + "' was left untouched for manual recovery."@,
            None => what,
        }
    }
}

/// What is said at the end of an abort.
pub fn abort_message(facts: &AbortFacts, stash_ref: &Option<String>) -> (r: String)
    ensures
        r@ == abort_text(facts.owns, facts.git_rebase, opt_string(*stash_ref)),
{
    if facts.owns {
        return "Operation aborted (state cleared).".to_owned();
    }
    let what = if facts.git_rebase {
        "Kindra state cleared without touching the active git rebase because the repository no longer matches Kindra's saved state."
    } else {
        "Kindra state cleared without restoring refs because the repository no longer matches Kindra's saved state."
    };
    match stash_ref {
        Some(s) => crate::text::cat4(
            what,
            " Saved stash '",
            s.as_str(),
            "' was left untouched for manual recovery.",
        ),
        None => what.to_owned(),
    }
}

/// Whether what was noted for an undo is thrown away after an abort: only where the branches are back
/// where they were. What an abort leaves in place can still be undone.
pub fn discards_undo(facts: &AbortFacts) -> (r: bool)
    ensures
        r == facts.owns,
{
    facts.owns
}

/// What the abort of a saved rebase goes by.
pub fn abort_facts(state: &RebaseState, owns: bool, git_rebase: bool) -> (r: (AbortFacts, String))
    ensures
        r.0.owns == owns,
        r.0.git_rebase == git_rebase,
        r.0.stash == (state.stash_ref is Some),
        r.0.unstage == state.unstage_on_restore,
        r.1@ == restore_branch_of(*state),
{
    (
        AbortFacts {
            owns,
            git_rebase,
            stash: state.stash_ref.is_some(),
            unstage: state.unstage_on_restore,
        },
        restore_branch(state),
    )
}

/// What an abort has done after `n` steps that succeeded.
pub struct AbortWork {
    pub git_rebase: bool,
    pub tips_back: bool,
    pub checked_out: bool,
    pub stash_applied: bool,
    /// The saved state names the stash.
    pub stash_known: bool,
    /// The stash is there.
    pub stash: bool,
    pub unstaged: bool,
    /// There is a saved state.
    pub state: bool,
}

/// What an abort has done after `n` steps that succeeded.
pub open spec fn abort_work(f: AbortFacts, n: nat) -> AbortWork
    decreases n,
{
    if n == 0 {
        AbortWork {
            git_rebase: f.git_rebase,
            tips_back: false,
            checked_out: false,
            stash_applied: false,
            stash_known: f.stash,
            stash: f.stash,
            unstaged: false,
            state: true,
        }
    } else {
        let w = abort_work(f, (n - 1) as nat);
        match nth_step(f, n) {
            Some(AbortStep::AbortGitRebase) => AbortWork { git_rebase: false, ..w },
            Some(AbortStep::RestoreTips) => AbortWork { tips_back: true, ..w },
            Some(AbortStep::Checkout) => AbortWork { checked_out: true, ..w },
            Some(AbortStep::ApplyStash) => AbortWork { stash_applied: true, ..w },
            Some(AbortStep::ForgetStash) => AbortWork { stash_known: false, ..w },
            Some(AbortStep::DropStash) => AbortWork { stash: false, ..w },
            Some(AbortStep::Unstage) => AbortWork { unstaged: true, ..w },
            Some(AbortStep::Clear) => AbortWork { state: false, ..w },
            _ => w,
        }
    }
}

spec fn abort_in_order(f: AbortFacts, step: Option<AbortStep>, w: AbortWork) -> bool {
    match step {
        None => w.git_rebase == f.git_rebase && !w.tips_back && !w.checked_out && !w.stash_applied
            && w.stash_known == f.stash && w.stash == f.stash && !w.unstaged && w.state,
        Some(AbortStep::AbortGitRebase) => f.owns && !w.git_rebase && !w.tips_back && !w.checked_out
            && !w.stash_applied && w.stash_known == f.stash && w.stash == f.stash && !w.unstaged
            && w.state,
        Some(AbortStep::RestoreTips) => f.owns && !w.git_rebase && w.tips_back && !w.checked_out
            && !w.stash_applied && w.stash_known == f.stash && w.stash == f.stash && !w.unstaged
            && w.state,
        Some(AbortStep::Checkout) => f.owns && !w.git_rebase && w.tips_back && w.checked_out
            && !w.stash_applied && w.stash_known == f.stash && w.stash == f.stash && !w.unstaged
            && w.state,
        Some(AbortStep::ApplyStash) => f.owns && f.stash && !w.git_rebase && w.tips_back
            && w.checked_out && w.stash_applied && w.stash_known && w.stash && !w.unstaged
            && w.state,
        Some(AbortStep::ForgetStash) => f.owns && f.stash && !w.git_rebase && w.tips_back
            && w.checked_out && w.stash_applied && !w.stash_known && w.stash && !w.unstaged
            && w.state,
        Some(AbortStep::DropStash) => f.owns && f.stash && !w.git_rebase && w.tips_back
            && w.checked_out && w.stash_applied && !w.stash_known && !w.stash && !w.unstaged
            && w.state,
        Some(AbortStep::Unstage) => f.owns && f.unstage && !w.git_rebase && w.tips_back
            && w.checked_out && w.stash_applied == f.stash && !w.stash_known && !w.stash
            && w.unstaged && w.state,
        Some(_) => !w.state && if f.owns {
            !w.git_rebase && w.tips_back && w.checked_out && w.stash_applied == f.stash
                && !w.stash && w.unstaged == f.unstage
        } else {
            w.git_rebase == f.git_rebase && !w.tips_back && !w.checked_out && !w.stash_applied
                && w.stash == f.stash && !w.unstaged
        },
    }
}

proof fn lemma_abort_in_order(f: AbortFacts, n: nat)
    ensures
        abort_in_order(f, nth_step(f, n), abort_work(f, n)),
    decreases n,
{
    if n > 0 {
        lemma_abort_in_order(f, (n - 1) as nat);
    }
}

/// An abort puts everything back before it forgets the operation: git's rebase is ended, every branch
/// has the tip that it had, the branch that the operation came from is checked out, what was set
/// aside is applied and only then dropped, and what is to be unstaged is. Where the branches are no
/// longer as the operation left them, nothing but the state goes.
pub proof fn law_aborted_operation_is_taken_back(f: AbortFacts, n: nat)
    ensures
        ({
            let w = abort_work(f, n);
            &&& !w.state ==> if f.owns {
                !w.git_rebase && w.tips_back && w.checked_out && w.stash_applied == f.stash
                    && !w.stash && w.unstaged == f.unstage
            } else {
                w.git_rebase == f.git_rebase && !w.tips_back && !w.checked_out && !w.stash_applied
                    && w.stash == f.stash && !w.unstaged
            }
            &&& f.stash && !w.stash ==> w.stash_applied
            &&& w.checked_out ==> w.tips_back
            &&& w.tips_back ==> !w.git_rebase && f.owns
        }),
{
    lemma_abort_in_order(f, n);
}

/// Every abort ends: after nine steps that succeed the operation is forgotten and nothing is left to
/// do.
pub proof fn law_abort_ends(f: AbortFacts)
    ensures
        nth_step(f, 9) == Some(AbortStep::Done),
        !abort_work(f, 9).state,
{
    reveal_with_fuel(nth_step, 10);
    lemma_abort_in_order(f, 9);
}

/// A branch gets exactly the tip that was noted for it, under its own reference.
pub proof fn law_branch_gets_its_own_tip(r: TipRestore, branch: Seq<char>, tip: Seq<char>)
    requires
        is_restore(r, branch, tip),
    ensures
        match r {
            TipRestore::Update(args) => args@.len() == 3 && args@[0]@ == "update-ref"@ && args@[1]@
                == "refs/heads/"@ + branch && args@[2]@ == full_oid(tip) && is_oid_text(tip),
            TipRestore::Invalid(b, t) => b@ == branch && t@ == tip && !is_oid_text(tip),
        },
{
    match r {
        TipRestore::Update(args) => {
            assert(strs(args@).len() == args@.len());
            assert(strs(args@)[0] == args@[0]@ && strs(args@)[1] == args@[1]@ && strs(args@)[2]
                == args@[2]@);
        },
        _ => {},
    }
}

} // verus!
