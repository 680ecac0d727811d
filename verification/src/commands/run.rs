//! `kin run`: one command on every branch of a stack, step by step.

use crate::lists::{chosen, lemma_chosen_next, lemma_chosen_none};
use crate::names::NameMap;
use crate::stack::{has_branch, names_of, views, StackBranch};
use crate::text::{
    cat2, cat3, cat4, cat5, dec, decimal, has_text, join, join_of, opt_string, opt_text, same, strs,
};
use crate::worktree::hooks::{show_code, shown_code};
use vstd::prelude::*;

verus! {

/// The options of `kin run`.
#[derive(Debug)]
pub struct RunArgs {
    /// The command, for `sh -c`.
    pub command: String,
    /// Go on with the other branches where it fails on one.
    pub continue_on_failure: bool,
    /// Run on the whole component of the stack.
    pub tree: bool,
    pub autostash: bool,
    pub no_autostash: bool,
}

#[derive(Debug, Clone, Copy, PartialEq, Eq, Structural)]
pub enum RunStatus {
    InProgress,
    Failed,
    Aborted,
}

/// A run that is under way.
#[derive(Debug)]
pub struct RunState {
    pub target_branches: Vec<String>,
    /// The parent of each branch when the run began.
    pub parent_branches: NameMap<String>,
    pub base_branch: String,
    pub current_index: usize,
    pub args: RunArgs,
    pub original_branch: Option<String>,
    pub original_head_id: String,
    pub status: RunStatus,
    pub failed_branches: Vec<String>,
    pub last_error: Option<String>,
    pub stash_ref: Option<String>,
}

/// Only what a run learns on its way differs.
pub open spec fn same_run(a: RunState, b: RunState) -> bool {
    &&& a.target_branches == b.target_branches
    &&& a.parent_branches == b.parent_branches
    &&& a.base_branch == b.base_branch
    &&& a.args == b.args
    &&& a.original_branch == b.original_branch
    &&& a.original_head_id == b.original_head_id
    &&& a.stash_ref == b.stash_ref
}

/// The branch whose component is run on: the current one where it is in the stack, or else the
/// first of the stack.
pub fn component_anchor(current: Option<&str>, stack_branches: &Vec<StackBranch>) -> (r: Option<
    String,
>)
    ensures
        ({
            let names = names_of(views(stack_branches@));
            opt_string(r) == if names.len() == 0 {
                None
            } else if opt_text(current) is Some && names.contains(opt_text(current)->0) {
                opt_text(current)
            } else {
                Some(names[0])
            }
        }),
{
    if stack_branches.len() == 0 {
        return None;
    }
    assert(names_of(views(stack_branches@))[0] == stack_branches@[0].name@);
    match current {
        Some(name) => if has_branch(stack_branches, name) {
            Some(name.to_owned())
        } else {
            Some(stack_branches[0].name.clone())
        },
        None => Some(stack_branches[0].name.clone()),
    }
}

/// What is done about uncommitted changes before a run.
#[derive(Debug, Clone, Copy, PartialEq, Eq, Structural)]
pub enum Autostash {
    /// There are none.
    Nothing,
    /// They are set aside.
    Stash,
    /// The run does not begin.
    Refuse,
}

/// Uncommitted changes never travel across the stack: they are set aside, or the run does not begin.
pub fn take_autostash(dirty: bool, autostash: bool) -> (r: Autostash)
    ensures
        r == if !dirty {
            Autostash::Nothing
        } else if autostash {
            Autostash::Stash
        } else {
            Autostash::Refuse
        },
{
    if !dirty {
        Autostash::Nothing
    } else if autostash {
        Autostash::Stash
    } else {
        Autostash::Refuse
    }
}

/// The state that a run begins with.
pub fn begin_run(
    target_branches: Vec<String>,
    parent_branches: NameMap<String>,
    base_branch: String,
    args: RunArgs,
    original_branch: Option<String>,
    original_head_id: String,
    stash_ref: Option<String>,
) -> (r: RunState)
    ensures
        r.target_branches == target_branches,
        r.parent_branches == parent_branches,
        r.base_branch == base_branch,
        r.current_index == 0,
        r.args == args,
        r.original_branch == original_branch,
        r.original_head_id == original_head_id,
        r.status == RunStatus::InProgress,
        r.failed_branches@.len() == 0,
        r.last_error is None,
        r.stash_ref == stash_ref,
{
    RunState {
        target_branches,
        parent_branches,
        base_branch,
        current_index: 0,
        args,
        original_branch,
        original_head_id,
        status: RunStatus::InProgress,
        failed_branches: Vec::new(),
        last_error: None,
        stash_ref,
    }
}

/// A variable and its value.
pub type Variable = (String, String);

pub open spec fn variables(v: Seq<Variable>) -> Seq<(Seq<char>, Seq<char>)> {
    Seq::new(v.len(), |i: int| (v[i].0@, v[i].1@))
}

/// What the command is told of the branch that it runs on.
pub open spec fn branch_env(s: RunState, branch: Seq<char>) -> Seq<(Seq<char>, Seq<char>)> {
    let always = seq![
        ("KINDRA_BRANCH"@, branch),
        ("KINDRA_BASE"@, s.base_branch@),
        ("KINDRA_INDEX"@, dec((s.current_index + 1) as nat)),
        ("KINDRA_TOTAL"@, dec(s.target_branches@.len())),
    ];
    if s.parent_branches@.contains_key(branch) {
        always.push(("KINDRA_PARENT"@, s.parent_branches@[branch]@))
    } else {
        always
    }
}

/// The variables that describe the branch to the command.
pub fn export_branch_env(run_state: &RunState, branch: &str) -> (r: Vec<Variable>)
    requires
        run_state.current_index < run_state.target_branches@.len(),
    ensures
        variables(r@) == branch_env(*run_state, branch@),
{
    let n: usize = run_state.target_branches.len();
    let mut out: Vec<Variable> = Vec::new();
    out.push(("KINDRA_BRANCH".to_owned(), branch.to_owned()));
    out.push(("KINDRA_BASE".to_owned(), run_state.base_branch.clone()));
    out.push(("KINDRA_INDEX".to_owned(), decimal((run_state.current_index + 1) as u64)));
    out.push(("KINDRA_TOTAL".to_owned(), decimal(n as u64)));
    match run_state.parent_branches.get(branch) {
        Some(parent) => {
            out.push(("KINDRA_PARENT".to_owned(), parent.clone()));
        },
        None => {},
    }
    assert(variables(out@) =~= branch_env(*run_state, branch@));
    out
}

/// The branch to visit next.
pub fn next_branch(run_state: &RunState) -> (r: Option<String>)
    ensures
        opt_string(r) == if run_state.current_index < run_state.target_branches@.len() {
            Some(run_state.target_branches@[run_state.current_index as int]@)
        } else {
            None
        },
{
    if run_state.current_index < run_state.target_branches.len() {
        Some(run_state.target_branches[run_state.current_index].clone())
    } else {
        None
    }
}

/// The texts but one.
pub open spec fn except(v: Seq<Seq<char>>, name: Seq<char>) -> Seq<Seq<char>>
    decreases v.len(),
{
    if v.len() == 0 {
        Seq::empty()
    } else if v.last() == name {
        except(v.drop_last(), name)
    } else {
        except(v.drop_last(), name).push(v.last())
    }
}

/// The failed branches with one more.
pub open spec fn with_failure(failed: Seq<Seq<char>>, branch: Seq<char>) -> Seq<Seq<char>> {
    if failed.contains(branch) {
        failed
    } else {
        failed.push(branch)
    }
}

/// Notes that the command failed on a branch.
pub fn record_branch_failure(run_state: &mut RunState, branch: &str)
    ensures
        strs(final(run_state).failed_branches@) == with_failure(
            strs(old(run_state).failed_branches@),
            branch@,
        ),
        same_run(*final(run_state), *old(run_state)),
        final(run_state).current_index == old(run_state).current_index,
        final(run_state).status == old(run_state).status,
        final(run_state).last_error == old(run_state).last_error,
{
    if !has_text(&run_state.failed_branches, branch) {
        let ghost before = run_state.failed_branches@;
        run_state.failed_branches.push(branch.to_owned());
        assert(strs(run_state.failed_branches@) =~= strs(before).push(branch@));
    }
}

/// Forgets that the command failed on a branch.
pub fn clear_branch_failure(run_state: &mut RunState, branch: &str)
    ensures
        strs(final(run_state).failed_branches@) == except(
            strs(old(run_state).failed_branches@),
            branch@,
        ),
        same_run(*final(run_state), *old(run_state)),
        final(run_state).current_index == old(run_state).current_index,
        final(run_state).status == old(run_state).status,
        final(run_state).last_error == old(run_state).last_error,
{
    let ghost all = strs(run_state.failed_branches@);
    let mut kept: Vec<String> = Vec::new();
    let mut i: usize = 0;
    assert(strs(kept@) =~= Seq::<Seq<char>>::empty());
    while i < run_state.failed_branches.len()
        invariant
            i <= run_state.failed_branches@.len(),
            all == strs(run_state.failed_branches@),
            strs(kept@) == except(all.take(i as int), branch@),
        decreases run_state.failed_branches@.len() - i,
    {
        let name = &run_state.failed_branches[i];
        proof {
            assert(all.take(i + 1).drop_last() =~= all.take(i as int));
            assert(all.take(i + 1).last() == name@);
        }
        if !same(name.as_str(), branch) {
            let ghost before = kept@;
            kept.push(name.clone());
            assert(strs(kept@) =~= strs(before).push(name@));
        }
        i += 1;
    }
    assert(all.take(all.len() as int) =~= all);
    run_state.failed_branches = kept;
}

/// What came of the visit to a branch.
#[derive(Debug)]
pub enum Visit {
    /// The branch could not be checked out, for that reason.
    NoCheckout(String),
    Succeeded,
    /// The command ended with that code.
    Failed(Option<i32>),
    /// The command could not be run, for that reason.
    NotRun(String),
}

/// How an exit code is shown in an error.
pub open spec fn debug_code(code: Option<i32>) -> Seq<char> {
    match code {
        Some(_) => "Some("@ + shown_code(code) + ")"@,
        None => "None"@,
    }
}

/// The error of a visit.
pub open spec fn visit_error(branch: Seq<char>, visit: Visit) -> Seq<char> {
    match visit {
        Visit::NoCheckout(err) => "Failed to checkout branch '"@ + branch + "': "@ + err@,
        Visit::Succeeded => ""@,
        Visit::Failed(code) => "Command failed on branch '"@ + branch + "' with exit code "@
            + debug_code(code) + "."@,
        Visit::NotRun(err) => "Failed to execute command on branch '"@ + branch + "': "@ + err@,
    }
}

fn describe_visit(branch: &str, visit: &Visit) -> (r: String)
    ensures
        r@ == visit_error(branch@, *visit),
{
    match visit {
        Visit::NoCheckout(err) => cat4(
            "Failed to checkout branch '",
            branch,
            "': ",
            err.as_str(),
        ),
        Visit::Succeeded => "".to_owned(),
        Visit::Failed(code) => {
            let shown = match code {
                Some(_) => cat3("Some(", show_code(*code).as_str(), ")"),
                None => "None".to_owned(),
            };
            cat5(
                "Command failed on branch '",
                branch,
                "' with exit code ",
                shown.as_str(),
                ".",
            )
        },
        Visit::NotRun(err) => cat4(
            "Failed to execute command on branch '",
            branch,
            "': ",
            err.as_str(),
        ),
    }
}

/// How many visits went well and how many did not.
#[derive(Debug, Clone, Copy)]
pub struct RunTally {
    pub succeeded: usize,
    pub failed: usize,
}

impl RunTally {
    /// No more visits than branches.
    pub open spec fn within(self, state: RunState) -> bool {
        self.succeeded + self.failed <= state.current_index
    }
}

/// What follows a visit.
#[derive(Debug)]
pub enum AfterVisit {
    /// The state is saved, and the run goes on.
    GoOn,
    /// The run stops with that error.
    Stop(String),
}

/// Takes in what came of the visit to the current branch.
pub fn after_visit(run_state: &mut RunState, tally: &mut RunTally, visit: &Visit) -> (r: AfterVisit)
    requires
        old(run_state).current_index < old(run_state).target_branches@.len(),
        old(tally).within(*old(run_state)),
    ensures
        same_run(*final(run_state), *old(run_state)),
        final(run_state).status == old(run_state).status,
        final(run_state).last_error == old(run_state).last_error,
        ({
            let branch = old(run_state).target_branches@[old(run_state).current_index as int]@;
            let failed = strs(old(run_state).failed_branches@);
            if *visit is Succeeded {
                &&& r is GoOn
                &&& strs(final(run_state).failed_branches@) == except(failed, branch)
                &&& final(run_state).current_index == old(run_state).current_index + 1
                &&& final(tally).succeeded == old(tally).succeeded + 1
                &&& final(tally).failed == old(tally).failed
            } else {
                &&& strs(final(run_state).failed_branches@) == with_failure(failed, branch)
                &&& final(tally).succeeded == old(tally).succeeded
                &&& final(tally).failed == old(tally).failed + 1
                &&& if old(run_state).args.continue_on_failure {
                    r is GoOn && final(run_state).current_index == old(run_state).current_index + 1
                } else {
                    r matches AfterVisit::Stop(e) && e@ == visit_error(branch, *visit)
                        && final(run_state).current_index == old(run_state).current_index
                }
            }
        }),
        r is GoOn ==> final(tally).within(*final(run_state)),
{
    let n: usize = run_state.target_branches.len();
    let branch = run_state.target_branches[run_state.current_index].clone();
    match visit {
        Visit::Succeeded => {
            tally.succeeded += 1;
            clear_branch_failure(run_state, branch.as_str());
            run_state.current_index += 1;
            AfterVisit::GoOn
        },
        _ => {
            tally.failed += 1;
            record_branch_failure(run_state, branch.as_str());
            if run_state.args.continue_on_failure {
                run_state.current_index += 1;
                AfterVisit::GoOn
            } else {
                AfterVisit::Stop(describe_visit(branch.as_str(), visit))
            }
        },
    }
}

/// The checkout that a run goes back to, and what is said where that fails.
pub fn original_checkout(run_state: &RunState) -> (r: (String, String))
    ensures
        match run_state.original_branch {
            Some(b) => r.0@ == b@ && r.1@ == "Failed to checkout original branch '"@ + b@ + "'."@,
            None => r.0@ == run_state.original_head_id@ && r.1@
                == "Failed to checkout original detached HEAD '"@ + run_state.original_head_id@
                + "'."@,
        },
{
    match &run_state.original_branch {
        Some(b) => (b.clone(), cat3("Failed to checkout original branch '", b.as_str(), "'.")),
        None => (
            run_state.original_head_id.clone(),
            cat3(
                "Failed to checkout original detached HEAD '",
                run_state.original_head_id.as_str(),
                "'.",
            ),
        ),
    }
}

/// How a run ends.
#[derive(Debug)]
pub enum RunEnd {
    /// The original checkout is not back: the state is saved, with that error.
    Keep(String),
    /// What was set aside is given back and the state is cleared; the run ends with that error,
    /// where there is one.
    Clear(Option<String>),
}

/// The error of a run that went through all branches.
pub open spec fn run_error(failed: Seq<Seq<char>>) -> Option<Seq<char>> {
    if failed.len() == 0 {
        None
    } else {
        Some(
            "Command failed on "@ + dec(failed.len()) + " branch(es): "@ + join_of(failed, ", "@),
        )
    }
}

/// What is said where the original checkout is not back.
pub open spec fn stuck_error(stopped: Option<Seq<char>>, err: Seq<char>) -> Seq<char> {
    match stopped {
        Some(e) => e + " Failed to restore original checkout: "@ + err,
        None => "Failed to restore original checkout after run: "@ + err,
    }
}

/// Ends a run, after the attempt to go back to the original checkout. `stopped` is the error that
/// stopped it, `restore` the error of the attempt.
pub fn end_run(run_state: &mut RunState, stopped: Option<&str>, restore: Option<&str>) -> (r: RunEnd)
    ensures
        same_run(*final(run_state), *old(run_state)),
        final(run_state).current_index == old(run_state).current_index,
        final(run_state).failed_branches == old(run_state).failed_branches,
        match opt_text(restore) {
            Some(err) => {
                &&& r matches RunEnd::Keep(e) && e@ == stuck_error(opt_text(stopped), err)
                &&& final(run_state).status == RunStatus::Failed
                &&& opt_string(final(run_state).last_error) == Some(
                    stuck_error(opt_text(stopped), err),
                )
            },
            None => {
                &&& r matches RunEnd::Clear(e) && opt_string(e) == match opt_text(stopped) {
                    Some(e) => Some(e),
                    None => run_error(strs(old(run_state).failed_branches@)),
                }
                &&& final(run_state).status == old(run_state).status
                &&& final(run_state).last_error == old(run_state).last_error
            },
        },
{
    match restore {
        Some(err) => {
            let text = match stopped {
                Some(e) => cat3(e, " Failed to restore original checkout: ", err),
                None => cat2("Failed to restore original checkout after run: ", err),
            };
            persist_failure(run_state, text.clone());
            RunEnd::Keep(text)
        },
        None => match stopped {
            Some(e) => RunEnd::Clear(Some(e.to_owned())),
            None => {
                assert(strs(run_state.failed_branches@).len() == run_state.failed_branches@.len());
                if run_state.failed_branches.len() == 0 {
                    RunEnd::Clear(None)
                } else {
                    let n = decimal(run_state.failed_branches.len() as u64);
                    let names = join(&run_state.failed_branches, ", ");
                    RunEnd::Clear(
                        Some(
                            cat4("Command failed on ", n.as_str(), " branch(es): ", names.as_str()),
                        ),
                    )
                }
            },
        },
    }
}

/// Notes that a run failed.
pub fn persist_failure(run_state: &mut RunState, message: String)
    ensures
        same_run(*final(run_state), *old(run_state)),
        final(run_state).current_index == old(run_state).current_index,
        final(run_state).failed_branches == old(run_state).failed_branches,
        final(run_state).status == RunStatus::Failed,
        final(run_state).last_error == Some(message),
{
    run_state.status = RunStatus::Failed;
    run_state.last_error = Some(message);
}

/// Notes that a run was aborted.
pub fn mark_aborted(run_state: &mut RunState, message: Option<String>)
    ensures
        same_run(*final(run_state), *old(run_state)),
        final(run_state).current_index == old(run_state).current_index,
        final(run_state).failed_branches == old(run_state).failed_branches,
        final(run_state).status == RunStatus::Aborted,
        final(run_state).last_error == message,
{
    run_state.status = RunStatus::Aborted;
    run_state.last_error = message;
}

/// What is said at the end of a run.
pub open spec fn summary_of(tally: RunTally, failed: Seq<Seq<char>>) -> Seq<Seq<char>> {
    let lines = seq![
        ""@,
        "=== Summary ==="@,
        "Succeeded: "@ + dec(tally.succeeded as nat),
        "Failed: "@ + dec(tally.failed as nat),
    ];
    if failed.len() == 0 {
        lines
    } else {
        lines.push("Failed branches: "@ + join_of(failed, ", "@))
    }
}

/// The lines at the end of a run.
pub fn run_summary(run_state: &RunState, tally: &RunTally) -> (r: Vec<String>)
    ensures
        strs(r@) == summary_of(*tally, strs(run_state.failed_branches@)),
{
    let mut out: Vec<String> = Vec::new();
    out.push("".to_owned());
    out.push("=== Summary ===".to_owned());
    out.push(cat2("Succeeded: ", decimal(tally.succeeded as u64).as_str()));
    out.push(cat2("Failed: ", decimal(tally.failed as u64).as_str()));
    assert(strs(run_state.failed_branches@).len() == run_state.failed_branches@.len());
    if run_state.failed_branches.len() > 0 {
        let names = join(&run_state.failed_branches, ", ");
        out.push(cat2("Failed branches: ", names.as_str()));
    }
    assert(strs(out@) =~= summary_of(*tally, strs(run_state.failed_branches@)));
    out
}

/// What is said of changes that were set aside and cannot be given back.
pub fn stash_not_restored(err: &str, stash_ref: &str) -> (r: String)
    ensures
        r@ == "Warning: could not reapply your autostashed changes: "@ + err@
            + "\n         They are preserved in `git stash list` (\""@ + stash_ref@
            + "\"); reapply with `git stash pop`."@,
{
    cat5(
        "Warning: could not reapply your autostashed changes: ",
        err,
        "\n         They are preserved in `git stash list` (\"",
        stash_ref,
        "\"); reapply with `git stash pop`.",
    )
}

/// The failed branches after a number of visits, where a run goes on after failures.
pub open spec fn failed_after(
    branches: Seq<Seq<char>>,
    went_well: Seq<bool>,
    n: int,
) -> Seq<Seq<char>>
    decreases n,
{
    if n <= 0 {
        Seq::empty()
    } else if went_well[n - 1] {
        except(failed_after(branches, went_well, n - 1), branches[n - 1])
    } else {
        with_failure(failed_after(branches, went_well, n - 1), branches[n - 1])
    }
}

proof fn lemma_except_contains(v: Seq<Seq<char>>, name: Seq<char>, t: Seq<char>)
    ensures
        except(v, name).contains(t) <==> v.contains(t) && t != name,
    decreases v.len(),
{
    if v.len() > 0 {
        let rest = v.drop_last();
        lemma_except_contains(rest, name, t);
        assert(v =~= rest.push(v.last()));
        if v.contains(t) {
            let k = v.index_of(t);
            if k < rest.len() {
                assert(rest[k] == t);
            }
        }
        if rest.contains(t) {
            assert(v[rest.index_of(t)] == t);
        }
        assert(v[v.len() - 1] == v.last());
        if v.last() != name {
            let e = except(rest, name);
            let all = e.push(v.last());
            if e.contains(t) {
                assert(all[e.index_of(t)] == t);
            }
            assert(all[e.len() as int] == v.last());
            if all.contains(t) {
                let k = all.index_of(t);
                if k < e.len() {
                    assert(e[k] == t);
                }
            }
        }
    }
}

/// A run that goes on after failures reports exactly the branches on which the command failed.
pub proof fn law_run_reports_failures(
    branches: Seq<Seq<char>>,
    went_well: Seq<bool>,
    n: int,
    i: int,
)
    requires
        0 <= i < n <= branches.len(),
        branches.len() == went_well.len(),
        branches.no_duplicates(),
    ensures
        failed_after(branches, went_well, n).contains(branches[i]) <==> !went_well[i],
    decreases n,
{
    let before = failed_after(branches, went_well, n - 1);
    let name = branches[n - 1];
    lemma_except_contains(before, name, branches[i]);
    if !before.contains(name) {
        let after = before.push(name);
        assert(after[before.len() as int] == name);
        if before.contains(branches[i]) {
            assert(after[before.index_of(branches[i])] == branches[i]);
        }
        if after.contains(branches[i]) && branches[i] != name {
            let k = after.index_of(branches[i]);
            assert(before[k] == branches[i]);
        }
    }
    if i < n - 1 {
        law_run_reports_failures(branches, went_well, n - 1, i);
        assert(branches[i] != name);
    }
}

/// The names but one keep their order, and no other is left out.
pub proof fn law_forgotten_failure_is_the_only_one(v: Seq<Seq<char>>, name: Seq<char>, n: int)
    requires
        0 <= n <= v.len(),
    ensures
        except(v.take(n), name) == chosen(n, |k: int| v[k] != name, |k: int| v[k]),
    decreases n,
{
    let keep = |k: int| v[k] != name;
    let give = |k: int| v[k];
    if n > 0 {
        law_forgotten_failure_is_the_only_one(v, name, n - 1);
        lemma_chosen_next(n - 1, keep, give);
        assert(v.take(n).drop_last() =~= v.take(n - 1));
        assert(v.take(n).last() == v[n - 1]);
    } else {
        lemma_chosen_none(keep, give);
    }
}

/// A failure is noted once, behind those that are known.
pub proof fn law_failure_is_noted_once(failed: Seq<Seq<char>>, branch: Seq<char>)
    ensures
        with_failure(failed, branch).contains(branch),
        failed.no_duplicates() ==> with_failure(failed, branch).no_duplicates(),
        forall|i: int|
            0 <= i < failed.len() ==> #[trigger] with_failure(failed, branch)[i] == failed[i],
        with_failure(failed, branch).len() == if failed.contains(branch) {
            failed.len()
        } else {
            failed.len() + 1
        },
{
    let after = with_failure(failed, branch);
    if !failed.contains(branch) {
        assert(after[failed.len() as int] == branch);
    }
}

/// The command is told its branch, the base, its place counted from one, the number of branches, and
/// its parent where it has one.
pub proof fn law_command_is_told_its_branch(s: RunState, branch: Seq<char>)
    ensures
        ({
            let env = branch_env(s, branch);
            &&& env[0] == ("KINDRA_BRANCH"@, branch)
            &&& env[1] == ("KINDRA_BASE"@, s.base_branch@)
            &&& env[2] == ("KINDRA_INDEX"@, dec((s.current_index + 1) as nat))
            &&& env[3] == ("KINDRA_TOTAL"@, dec(s.target_branches@.len()))
            &&& s.parent_branches@.contains_key(branch) ==> env.len() == 5 && env[4] == (
                "KINDRA_PARENT"@,
                s.parent_branches@[branch]@,
            )
            &&& !s.parent_branches@.contains_key(branch) ==> env.len() == 4
        }),
{
}

/// A run that went through all branches fails exactly where the command failed on one.
pub proof fn law_run_fails_where_a_branch_did(failed: Seq<Seq<char>>)
    ensures
        run_error(failed) is Some <==> failed.len() > 0,
{
}

} // verus!
