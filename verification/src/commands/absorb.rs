//! `kin absorb`: fixups made by the absorb engine are folded in, and what stands above follows.

use crate::commands::commit::{
    names_without, record_branch_tips_in_range, remaining_names, tips_in_range, with_tips,
};
use crate::graph::{CommitGraph, Parents};
use crate::names::{lemma_text_map_empty, text_map, NameMap};
use crate::rebase_utils::{Operation, RebaseState};
use crate::stack::{
    build_parent_maps, collect_descendants, find_parent_in_stack, index_named, parent_id_map,
    parent_in_stack, parent_name_map, sort_branches_topologically, topological, views,
    with_descendants, BranchView, StackBranch, StackError,
};
use crate::text::{
    cat3, cat5, dec, decimal, list, opt_string, opt_text, same, same_opt, strs, trim, trim_of,
};
use vstd::prelude::*;

verus! {

/// The options of `kin absorb`.
#[derive(Debug)]
pub struct AbsorbArgs {
    pub dry_run: bool,
    pub base: Option<String>,
    pub force_author: bool,
    pub whole_file: bool,
    pub one_fixup_per_commit: bool,
    pub squash: bool,
    pub message: Option<String>,
    pub verbose: bool,
    pub force: bool,
    pub autostash: bool,
    pub no_autostash: bool,
}

/// The commit above which fixups may be made: the one that is given, or what the branch stands on,
/// so that no fixup goes to a commit of another branch. `given` is the commit behind `--base`.
pub fn absorb_base(
    graph: &CommitGraph,
    given: &Option<String>,
    current_branch_name: &str,
    stack_branches: &Vec<StackBranch>,
    merge_base: &str,
) -> (r: Result<String, StackError>)
    ensures
        ({
            let all = views(stack_branches@);
            match *given {
                Some(b) => r matches Ok(base) && base@ == b@,
                None => match r {
                    Ok(base) => index_named(all, current_branch_name@) < all.len() && base@
                        == parent_in_stack(graph@, current_branch_name@, all, merge_base@),
                    Err(StackError::NotInStack(n)) => index_named(all, current_branch_name@)
                        == all.len() && n@ == current_branch_name@,
                    Err(_) => false,
                },
            }
        }),
{
    match given {
        Some(b) => Ok(b.clone()),
        None => find_parent_in_stack(graph, current_branch_name, stack_branches, merge_base),
    }
}

/// What is said where the branch has no commit above the base; nothing where it has one.
pub fn nothing_to_absorb(base_id: &str, head_id: &str, current_branch_name: &str) -> (r: Option<
    String,
>)
    ensures
        opt_string(r) == if base_id@ == head_id@ {
            Some("No commits on '"@ + current_branch_name@ + "' to absorb into."@)
        } else {
            None
        },
{
    if same(base_id, head_id) {
        Some(cat3("No commits on '", current_branch_name, "' to absorb into."))
    } else {
        None
    }
}

/// What follows the run of the absorb engine.
#[derive(Debug, Clone, Copy, PartialEq, Eq, Structural)]
pub enum AbsorbOutcome {
    /// Nothing is left to do: it was a trial run, or the engine made no commit.
    Done,
    /// There are fixups to fold in.
    Fold,
}

pub fn after_engine(dry_run: bool, head_before: &str, head_after: &str) -> (r: AbsorbOutcome)
    ensures
        r == if dry_run || head_after@ == head_before@ {
            AbsorbOutcome::Done
        } else {
            AbsorbOutcome::Fold
        },
{
    if dry_run || same(head_after, head_before) {
        AbsorbOutcome::Done
    } else {
        AbsorbOutcome::Fold
    }
}

/// What is told of the fixups. The counts are those of the commits above the base, before and after
/// the engine ran.
pub fn absorb_summary(count_before: usize, count_after: usize) -> (r: String)
    requires
        count_before <= count_after,
    ensures
        ({
            let n = count_after - count_before;
            r@ == "Absorbed staged changes into "@ + dec(n as nat) + " fixup commit"@ + (if n == 1 {
                ""@
            } else {
                "s"@
            }) + ". Folding..."@
        }),
{
    let n: usize = count_after - count_before;
    let end = if n == 1 {
        ""
    } else {
        "s"
    };
    cat5(
        "Absorbed staged changes into ",
        decimal(n as u64).as_str(),
        " fixup commit",
        end,
        ". Folding...",
    )
}

/// The tips to go back to: the branch's own, those of the branches above it, and those of all other
/// branches in the range that is rewritten.
pub open spec fn absorb_tips_of(
    g: Parents,
    locals: Seq<BranchView>,
    current: Seq<char>,
    head: Seq<char>,
    base: Seq<char>,
    sub: Seq<BranchView>,
) -> Map<Seq<char>, Seq<char>> {
    let own = Map::<Seq<char>, Seq<char>>::empty().insert(current, head);
    tips_in_range(
        g,
        Some(base),
        head,
        locals,
        with_tips(own, sub, sub.len() as int),
        locals.len() as int,
    )
}

pub fn absorb_tips(
    graph: &CommitGraph,
    locals: &Vec<StackBranch>,
    current_branch_name: &str,
    head_before: &str,
    base_id: &str,
    sub_stack: &Vec<StackBranch>,
) -> (r: NameMap<String>)
    ensures
        text_map(r@) == absorb_tips_of(
            graph@,
            views(locals@),
            current_branch_name@,
            head_before@,
            base_id@,
            views(sub_stack@),
        ),
{
    let mut tips = crate::commands::commit::original_tips(
        current_branch_name,
        head_before,
        sub_stack,
        true,
    );
    let base = Some(base_id.to_owned());
    record_branch_tips_in_range(graph, locals, &base, head_before, &mut tips);
    tips
}

/// The state that an absorb leaves behind for `kin continue` and `kin abort`. The folding opens no
/// editor for the messages of squashed commits, and neither does going on with it.
pub fn absorb_state(
    current_branch_name: &str,
    remaining_branches: Vec<String>,
    parent_id_map: NameMap<String>,
    parent_name_map: NameMap<String>,
    original_tip_map: NameMap<String>,
    stash_ref: Option<String>,
    autostash: bool,
) -> (r: RebaseState)
    ensures
        r.operation == Operation::Commit,
        r.original_branch@ == current_branch_name@,
        r.target_branch@ == current_branch_name@,
        r.caller_branch is None,
        r.remaining_branches == remaining_branches,
        r.in_progress_branch is None,
        r.parent_id_map == parent_id_map,
        r.parent_name_map == parent_name_map,
        r.new_base_map@ == Map::<Seq<char>, String>::empty(),
        r.original_commit_count_map@ == Map::<Seq<char>, usize>::empty(),
        r.original_tip_map == original_tip_map,
        r.owned_tip_map@ == Map::<Seq<char>, String>::empty(),
        r.stash_ref == stash_ref,
        !r.unstage_on_restore,
        r.autostash == autostash,
        r.suppress_editor,
        r.cleanup_merged_branches@.len() == 0,
        r.cleanup_checkout_fallback is None,
{
    RebaseState {
        operation: Operation::Commit,
        original_branch: current_branch_name.to_owned(),
        target_branch: current_branch_name.to_owned(),
        caller_branch: None,
        remaining_branches,
        in_progress_branch: None,
        parent_id_map,
        parent_name_map,
        new_base_map: NameMap::new(),
        original_commit_count_map: NameMap::new(),
        original_tip_map,
        owned_tip_map: NameMap::new(),
        stash_ref,
        unstage_on_restore: false,
        autostash,
        suppress_editor: true,
        cleanup_merged_branches: Vec::new(),
        cleanup_checkout_fallback: None,
    }
}

/// The branches above the one that is absorbed into.
#[derive(Debug)]
pub struct AbsorbScope {
    /// The branch itself and those above it, parents first.
    pub sub_stack: Vec<StackBranch>,
    /// The names of those above it, in order.
    pub remaining: Vec<String>,
}

/// The branch and what stands on it, parents first.
pub open spec fn absorb_sub_stack(g: Parents, current: Seq<char>, all: Seq<BranchView>) -> Seq<
    BranchView,
> {
    let own = all[index_named(all, current)];
    topological(g, with_descendants(g, own.1, all, seq![own]))
}

/// Finds the branches above the one that is absorbed into.
pub fn absorb_scope(
    graph: &CommitGraph,
    current_branch_name: &str,
    stack_branches: &Vec<StackBranch>,
) -> (r: Result<AbsorbScope, StackError>)
    ensures
        ({
            let all = views(stack_branches@);
            match r {
                Ok(scope) => {
                    let sub = absorb_sub_stack(graph@, current_branch_name@, all);
                    &&& index_named(all, current_branch_name@) < all.len()
                    &&& views(scope.sub_stack@) == sub
                    &&& strs(scope.remaining@) == names_without(sub, current_branch_name@)
                },
                Err(StackError::RootNotInStack(n)) => index_named(all, current_branch_name@)
                    == all.len() && n@ == current_branch_name@,
                Err(_) => false,
            }
        }),
{
    let mut sub: Vec<StackBranch> = Vec::new();
    assert(views(sub@) =~= Seq::<BranchView>::empty());
    if let Err(e) = collect_descendants(graph, current_branch_name, stack_branches, &mut sub) {
        return Err(e);
    }
    proof {
        let all = views(stack_branches@);
        let own = all[index_named(all, current_branch_name@)];
        assert(Seq::<BranchView>::empty().push(own) =~= seq![own]);
    }
    sort_branches_topologically(graph, &mut sub);
    let remaining = remaining_names(&sub, current_branch_name);
    Ok(AbsorbScope { sub_stack: sub, remaining })
}

/// The state with which the folding begins: the bases of the branches above are noted, where there
/// are any, and the tips of all branches that may move.
pub fn begin_absorb(
    graph: &CommitGraph,
    locals: &Vec<StackBranch>,
    scope: AbsorbScope,
    stack_branches: &Vec<StackBranch>,
    current_branch_name: &str,
    head_before: &str,
    base_id: &str,
    merge_base: &str,
    autostash: bool,
) -> (r: Result<RebaseState, StackError>)
    ensures
        ({
            let sub = views(scope.sub_stack@);
            let all = views(stack_branches@);
            let n = sub.len() as int;
            let some = scope.remaining@.len() > 0;
            match r {
                Ok(state) => {
                    &&& state.operation == Operation::Commit
                    &&& state.original_branch@ == current_branch_name@
                    &&& state.target_branch@ == current_branch_name@
                    &&& state.caller_branch is None
                    &&& state.remaining_branches == scope.remaining
                    &&& state.in_progress_branch is None
                    &&& text_map(state.parent_id_map@) == if some {
                        parent_id_map(graph@, sub, all, merge_base@, n)
                    } else {
                        Map::empty()
                    }
                    &&& text_map(state.parent_name_map@) == if some {
                        parent_name_map(
                            graph@,
                            sub,
                            all,
                            merge_base@,
                            head_before@,
                            current_branch_name@,
                            n,
                        )
                    } else {
                        Map::empty()
                    }
                    &&& text_map(state.original_tip_map@) == absorb_tips_of(
                        graph@,
                        views(locals@),
                        current_branch_name@,
                        head_before@,
                        base_id@,
                        sub,
                    )
                    &&& state.new_base_map@ == Map::<Seq<char>, String>::empty()
                    &&& state.original_commit_count_map@ == Map::<Seq<char>, usize>::empty()
                    &&& state.owned_tip_map@ == Map::<Seq<char>, String>::empty()
                    &&& state.stash_ref is None
                    &&& !state.unstage_on_restore
                    &&& state.autostash == autostash
                    &&& state.suppress_editor
                    &&& state.cleanup_merged_branches@.len() == 0
                    &&& state.cleanup_checkout_fallback is None
                },
                Err(StackError::NotInStack(name)) => some && exists|k: int|
                    0 <= k < sub.len() && (#[trigger] sub[k]).0 == name@ && index_named(all, sub[k].0)
                        == all.len() && forall|j: int|
                        0 <= j < k ==> index_named(all, (#[trigger] sub[j]).0) < all.len(),
                Err(_) => false,
            }
        }),
{
    proof {
        lemma_text_map_empty();
    }
    let (ids, names) = if scope.remaining.len() > 0 {
        match build_parent_maps(
            graph,
            &scope.sub_stack,
            stack_branches,
            merge_base,
            head_before,
            current_branch_name,
        ) {
            Ok(maps) => maps,
            Err(e) => return Err(e),
        }
    } else {
        (NameMap::new(), NameMap::new())
    };
    let tips = absorb_tips(
        graph,
        locals,
        current_branch_name,
        head_before,
        base_id,
        &scope.sub_stack,
    );
    Ok(absorb_state(current_branch_name, scope.remaining, ids, names, tips, None, autostash))
}

/// The steps after the engine has made fixups.
#[derive(Debug, Clone, Copy, PartialEq, Eq, Structural)]
pub enum AbsorbStep {
    /// Set aside everything that is left.
    Stash,
    /// That could not be done: take the fixups back and fail.
    TakeBackFixups,
    /// Save the state.
    Save,
    /// The state could not be saved: bring back what was set aside and fail.
    GiveBackStash,
    /// Fold the fixups in.
    Fold,
    /// The folding stopped in the middle: save that the branch is in progress and fail.
    SaveInProgress,
    /// Rebase what stands above and finish.
    Rebase,
    /// All is done.
    Done,
    /// The run ends with an error.
    Fail(AbsorbFailure),
}

#[derive(Debug, Clone, Copy, PartialEq, Eq, Structural)]
pub enum AbsorbFailure {
    /// The error of the step that failed is reported as it is.
    Step,
    /// The fixups could not be taken back either.
    StrayFixups,
    Autosquash,
}

/// The step that follows. `ok` says whether the step succeeded, `git_rebase` whether git is in the
/// middle of a rebase after it.
pub open spec fn absorb_step_after(step: AbsorbStep, ok: bool, git_rebase: bool) -> AbsorbStep {
    match step {
        AbsorbStep::Stash => if ok {
            AbsorbStep::Save
        } else {
            AbsorbStep::TakeBackFixups
        },
        AbsorbStep::TakeBackFixups => if ok {
            AbsorbStep::Fail(AbsorbFailure::Step)
        } else {
            AbsorbStep::Fail(AbsorbFailure::StrayFixups)
        },
        AbsorbStep::Save => if ok {
            AbsorbStep::Fold
        } else {
            AbsorbStep::GiveBackStash
        },
        AbsorbStep::GiveBackStash => AbsorbStep::Fail(AbsorbFailure::Step),
        AbsorbStep::Fold => if ok {
            AbsorbStep::Rebase
        } else if git_rebase {
            AbsorbStep::SaveInProgress
        } else {
            AbsorbStep::Fail(AbsorbFailure::Autosquash)
        },
        AbsorbStep::SaveInProgress => if ok {
            AbsorbStep::Fail(AbsorbFailure::Autosquash)
        } else {
            AbsorbStep::Fail(AbsorbFailure::Step)
        },
        AbsorbStep::Rebase => if ok {
            AbsorbStep::Done
        } else {
            AbsorbStep::Fail(AbsorbFailure::Step)
        },
        AbsorbStep::Done => AbsorbStep::Done,
        AbsorbStep::Fail(f) => AbsorbStep::Fail(f),
    }
}

pub fn next_absorb_step(step: AbsorbStep, ok: bool, git_rebase: bool) -> (r: AbsorbStep)
    ensures
        r == absorb_step_after(step, ok, git_rebase),
{
    match step {
        AbsorbStep::Stash => if ok {
            AbsorbStep::Save
        } else {
            AbsorbStep::TakeBackFixups
        },
        AbsorbStep::TakeBackFixups => if ok {
            AbsorbStep::Fail(AbsorbFailure::Step)
        } else {
            AbsorbStep::Fail(AbsorbFailure::StrayFixups)
        },
        AbsorbStep::Save => if ok {
            AbsorbStep::Fold
        } else {
            AbsorbStep::GiveBackStash
        },
        AbsorbStep::GiveBackStash => AbsorbStep::Fail(AbsorbFailure::Step),
        AbsorbStep::Fold => if ok {
            AbsorbStep::Rebase
        } else if git_rebase {
            AbsorbStep::SaveInProgress
        } else {
            AbsorbStep::Fail(AbsorbFailure::Autosquash)
        },
        AbsorbStep::SaveInProgress => if ok {
            AbsorbStep::Fail(AbsorbFailure::Autosquash)
        } else {
            AbsorbStep::Fail(AbsorbFailure::Step)
        },
        AbsorbStep::Rebase => if ok {
            AbsorbStep::Done
        } else {
            AbsorbStep::Fail(AbsorbFailure::Step)
        },
        AbsorbStep::Done => AbsorbStep::Done,
        AbsorbStep::Fail(f) => AbsorbStep::Fail(f),
    }
}

/// History is rewritten only after the state has been saved, so that an abort can always take the
/// rewriting back.
pub proof fn law_absorb_saves_before_folding(step: AbsorbStep, ok: bool, git_rebase: bool)
    requires
        absorb_step_after(step, ok, git_rebase) == AbsorbStep::Fold,
    ensures
        step == AbsorbStep::Save,
        ok,
{
}

/// What was set aside is in the saved state, or given back, or was never set aside.
pub proof fn law_absorb_keeps_the_stash(git_rebase: bool)
    ensures
        absorb_step_after(AbsorbStep::Stash, false, git_rebase) == AbsorbStep::TakeBackFixups,
        absorb_step_after(AbsorbStep::Save, false, git_rebase) == AbsorbStep::GiveBackStash,
{
}

/// What is told where the fixups could not be taken back.
pub fn stray_fixups_message(head_before: &str) -> (r: String)
    ensures
        r@
            == "Additionally, failed to roll back the fixup commits; they remain at HEAD. Remove them with 'git reset --soft "@
            + head_before@ + "'."@,
{
    cat3(
        "Additionally, failed to roll back the fixup commits; they remain at HEAD. Remove them with 'git reset --soft ",
        head_before,
        "'.",
    )
}

/// The arguments with which git folds the fixups in.
pub fn absorb_fold_args(base_id: &str) -> (r: Vec<String>)
    ensures
        strs(r@) == seq!["rebase"@, "-i"@, "--autosquash"@, "--update-refs"@, base_id@],
{
    let r = list(&["rebase", "-i", "--autosquash", "--update-refs", base_id]);
    assert(strs(r@) =~= seq!["rebase"@, "-i"@, "--autosquash"@, "--update-refs"@, base_id@]);
    r
}

/// The stash that git names, from the output of `git rev-parse`; none where it failed or printed
/// nothing.
pub open spec fn stash_head_of(stdout: Option<Seq<char>>) -> Option<Seq<char>> {
    match stdout {
        Some(text) => if trim_of(text).len() > 0 {
            Some(trim_of(text))
        } else {
            None
        },
        None => None,
    }
}

pub fn stash_head(stdout: Option<&str>) -> (r: Option<String>)
    ensures
        opt_string(r) == stash_head_of(opt_text(stdout)),
{
    match stdout {
        Some(text) => {
            let t = trim(text);
            if t.as_str().is_empty() {
                None
            } else {
                Some(t)
            }
        },
        None => None,
    }
}

/// The message under which changes were set aside; none where git made no new stash.
pub fn stash_taken(before: &Option<String>, after: &Option<String>, message: String) -> (r: Option<
    String,
>)
    ensures
        r == if opt_string(*before) == opt_string(*after) {
            None
        } else {
            Some(message)
        },
{
    if same_opt(before, after) {
        None
    } else {
        Some(message)
    }
}

/// What the folding of an absorb has done so far.
pub struct AbsorbWork {
    pub step: AbsorbStep,
    /// The fixups are in the history.
    pub fixups: bool,
    /// What was not staged is set aside.
    pub stashed: bool,
    /// There is a state for `kin continue` and `kin abort`.
    pub saved: bool,
    /// The fixups are folded in.
    pub folded: bool,
    /// What stands above is rebased.
    pub rebased: bool,
    /// A step has failed.
    pub failed: bool,
}

/// A run after its first `n` steps, each of which went as `outcomes` says: whether it succeeded, and
/// whether git is in the middle of a rebase after it.
pub open spec fn absorb_run(outcomes: spec_fn(int) -> (bool, bool), n: int) -> AbsorbWork
    decreases n,
{
    if n <= 0 {
        AbsorbWork {
            step: AbsorbStep::Stash,
            fixups: true,
            stashed: false,
            saved: false,
            folded: false,
            rebased: false,
            failed: false,
        }
    } else {
        let w = absorb_run(outcomes, n - 1);
        let (ok, git_rebase) = outcomes(n - 1);
        let over = w.step is Done || w.step is Fail;
        AbsorbWork {
            step: absorb_step_after(w.step, ok, git_rebase),
            fixups: w.fixups && !(ok && (w.step is TakeBackFixups || w.step is Fold)),
            stashed: (w.stashed || (ok && w.step is Stash)) && !(ok && (w.step is GiveBackStash
                || w.step is Rebase)),
            saved: (w.saved || (ok && w.step is Save)) && !(ok && w.step is Rebase),
            folded: w.folded || (ok && w.step is Fold),
            rebased: w.rebased || (ok && w.step is Rebase),
            failed: w.failed || (!ok && !over),
        }
    }
}

spec fn absorb_in_order(w: AbsorbWork) -> bool {
    match w.step {
        AbsorbStep::Stash => w.fixups && !w.stashed && !w.saved && !w.folded && !w.rebased
            && !w.failed,
        AbsorbStep::Save => w.fixups && w.stashed && !w.saved && !w.folded && !w.rebased
            && !w.failed,
        AbsorbStep::Fold => w.fixups && w.stashed && w.saved && !w.folded && !w.rebased
            && !w.failed,
        AbsorbStep::Rebase => !w.fixups && w.stashed && w.saved && w.folded && !w.rebased
            && !w.failed,
        AbsorbStep::Done => !w.fixups && !w.stashed && !w.saved && w.folded && w.rebased
            && !w.failed,
        AbsorbStep::TakeBackFixups => w.fixups && !w.stashed && !w.saved && !w.rebased && w.failed,
        AbsorbStep::GiveBackStash => w.fixups && w.stashed && !w.saved && !w.rebased && w.failed,
        AbsorbStep::SaveInProgress => w.stashed && w.saved && !w.rebased && w.failed,
        AbsorbStep::Fail(f) => w.failed && !w.rebased && (f == AbsorbFailure::StrayFixups
            ==> w.fixups && !w.stashed && !w.saved) && (f == AbsorbFailure::Autosquash ==> w.stashed
            && w.saved),
    }
}

proof fn lemma_absorb_in_order(outcomes: spec_fn(int) -> (bool, bool), n: int)
    ensures
        absorb_in_order(absorb_run(outcomes, n)),
    decreases n,
{
    if n > 0 {
        lemma_absorb_in_order(outcomes, n - 1);
    }
}

/// An absorb that ends well has folded its fixups in and rebased what stands above, leaves nothing
/// set aside or saved, and no step of it has failed. One that fails has had a step fail. Changes that
/// were set aside are in a saved state or given back, or giving them back failed; fixups that were
/// told to be stray are in the history.
pub proof fn law_done_absorb_is_complete(outcomes: spec_fn(int) -> (bool, bool), n: int)
    ensures
        ({
            let w = absorb_run(outcomes, n);
            &&& w.step is Done ==> w.folded && w.rebased && !w.fixups && !w.stashed && !w.saved
                && !w.failed
            &&& w.step is Fail ==> w.failed && !w.rebased
            &&& w.step is Fold ==> w.saved && w.stashed
            &&& w.step is Rebase ==> w.folded
            &&& w.step == AbsorbStep::Fail(AbsorbFailure::StrayFixups) ==> w.fixups && !w.stashed
            &&& w.step == AbsorbStep::Fail(AbsorbFailure::Autosquash) ==> w.saved
        }),
{
    lemma_absorb_in_order(outcomes, n);
}

/// Every absorb ends: without a failure it is done after four steps, and it is over after five.
pub proof fn law_absorb_ends(outcomes: spec_fn(int) -> (bool, bool), n: int)
    requires
        n >= 4,
    ensures
        ({
            let w = absorb_run(outcomes, n);
            &&& !w.failed ==> w.step is Done
            &&& n >= 5 ==> w.step is Done || w.step is Fail
        }),
{
    lemma_absorb_in_order(outcomes, n);
    lemma_absorb_rank(outcomes, n);
}

spec fn absorb_rank(step: AbsorbStep) -> int {
    match step {
        AbsorbStep::Stash => 0,
        AbsorbStep::Save => 1,
        AbsorbStep::Fold => 2,
        AbsorbStep::Rebase => 3,
        AbsorbStep::TakeBackFixups | AbsorbStep::GiveBackStash | AbsorbStep::SaveInProgress => 4,
        AbsorbStep::Done | AbsorbStep::Fail(_) => 5,
    }
}

proof fn lemma_absorb_rank(outcomes: spec_fn(int) -> (bool, bool), n: int)
    requires
        n >= 0,
    ensures
        absorb_rank(absorb_run(outcomes, n).step) >= if n <= 5 {
            n
        } else {
            5
        },
    decreases n,
{
    if n > 0 {
        lemma_absorb_rank(outcomes, n - 1);
    }
}

/// The stash is what git printed without the space around it; there is none where git failed or printed
/// nothing.
pub proof fn law_stash_is_what_git_names(stdout: Option<Seq<char>>)
    ensures
        stash_head_of(stdout) is Some <==> stdout is Some && trim_of(stdout->0).len() > 0,
        stash_head_of(stdout) is Some ==> stash_head_of(stdout)->0 == trim_of(stdout->0),
{
}

} // verus!
