use kindra::commands::abort_cmd::{
    abort_message, abort_note, abort_target, discards_undo, next_abort_step, restore_original_branch_tips,
    restore_tip, tip_not_restored, AbortFacts, AbortStep, AbortTarget, TipRestore,
};
use kindra::commands::absorb::{
    absorb_base, absorb_fold_args, absorb_scope, absorb_summary, after_engine, begin_absorb, next_absorb_step, stash_taken,
    nothing_to_absorb, AbsorbFailure, AbsorbOutcome, AbsorbStep,
};
use kindra::commands::checkout::{
    checkout, complete_hydration_step, ensure_checkout_available,
    find_first_parent_branches_via_git_log, hydration_step, local_branch_for_checkout,
    next_hydration_step, plan_down, plan_top, plan_up, resolve_remote_tracking_ref, CheckoutError,
    CheckoutFacts, CheckoutPlan, CheckoutStep, CheckoutSubcommand, HydrationState, HydrationStep,
    LocalBranchAction, RemoteCandidate,
};
use kindra::commands::commit::{
    asks_about_other_stack, autosquash_args, autosquash_base, choose_target,
    collect_target_sub_stack, commit_line, enumerate_stack_commits,
    first_commit_step, fixup_commit_candidates, fold_into, next_commit_step, original_tips,
    plan_commit, record_branch_tips_in_range, resolve_commit_choice, resolve_fixup_commit,
    select_commit_interactive, target_options, CommitError, CommitFailure, CommitPick, CommitStep,
    stash_restored, StackCommit, TargetChoice,
};
use kindra::commands::commit_plan::{begin_commit, commit_scope, plan_in_scope, settle_target};
use kindra::commands::continue_cmd::{
    after_continue, after_skip, continue_start, rebase_editor, rebase_stopped_on_empty_pick,
    stalled_pick, AfterStep, ContinueError, ContinueStep, StallFacts,
};
use kindra::commands::guard::{check_reorder, check_restack, check_run, StartError};
use kindra::commands::prompt::{
    prompt_confirm, prompt_multi_select, prompt_select, Confirmation, Fallback, MultiSelection,
    PromptError, Selection,
};
use kindra::commands::rename::{
    record_failed, rename_args, rename_branch, rename_failed, rename_names, RenameArgs,
    RenameError, RenameFacts, RenamePlan,
};
use kindra::commands::restack::{restack_candidates, restack_state};
use kindra::commands::settings::{
    autostash_override, base_short_name, find_upstream, local_branch_candidates,
    protected_push_targets, resolve_and_check_autostash,
    resolve_branch_name, resolve_rebase_autostash, resolve_restack_history_limit,
    upstream_candidates, DEFAULT_RESTACK_HISTORY_LIMIT,
};
use kindra::commands::shell_init::{completions_failed, script, shell_init, Shell, ShellInitArgs};
use kindra::commands::status_cmd::{
    active_operation, fixed_status, overrides_status, rebase_status, run_status, ActiveOperation,
};
use kindra::commands::worktree::{
    cd_note, worktree, NewBranchOrTargetArgs, TempArgs, WorktreeAction, WorktreeSubcommand,
};
use kindra::graph::CommitGraph;
use kindra::interaction::{parse_index_list, resolve, Interaction, ScriptedAnswers};
use kindra::names::NameMap;
use kindra::rebase_utils::Operation;
use kindra::runtime::is_output_write_failure;
use kindra::stack::StackBranch;

const ONE: &str = "1111111111111111111111111111111111111111";

fn texts(list: &[&str]) -> Vec<String> {
    list.iter().map(|s| s.to_string()).collect()
}

fn branch(name: &str, id: &str) -> StackBranch {
    StackBranch { name: name.to_string(), id: id.to_string() }
}

/// base - a1 - a2 - b1, a2 - c1
fn graph() -> CommitGraph {
    let mut g = CommitGraph::new();
    g.insert("base".to_string(), &vec![]).unwrap();
    g.insert("a1".to_string(), &texts(&["base"])).unwrap();
    g.insert("a2".to_string(), &texts(&["a1"])).unwrap();
    g.insert("b1".to_string(), &texts(&["a2"])).unwrap();
    g.insert("c1".to_string(), &texts(&["a2"])).unwrap();
    g
}

fn stack() -> Vec<StackBranch> {
    vec![branch("a", "a2"), branch("b", "b1"), branch("c", "c1")]
}

#[test]
fn classifies_stdlib_output_write_failures() {
    assert!(is_output_write_failure(
        "failed printing to stdout: Broken pipe (os error 32)"
    ));
    assert!(is_output_write_failure(
        "failed printing to stderr: Broken pipe (os error 32)"
    ));
}

#[test]
fn leaves_unrelated_panics_alone() {
    assert!(!is_output_write_failure("index out of bounds"));
    assert!(!is_output_write_failure(
        "called `Option::unwrap()` on a `None` value"
    ));
    assert!(!is_output_write_failure("failed printing to studio"));
    assert!(!is_output_write_failure("failed printing to std"));
}

#[test]
fn scripted_mode_honors_assume_yes() {
    let with_yes = Interaction::Scripted(ScriptedAnswers {
        assume_yes: true,
        ..ScriptedAnswers::default()
    });
    assert!(with_yes.assume_yes());

    let without_yes = Interaction::Scripted(ScriptedAnswers::default());
    assert!(!without_yes.assume_yes());
}

#[test]
fn the_mode_comes_from_scripts_flags_settings_and_terminals() {
    assert!(resolve(None, false, false, None, true, true).is_interactive());
    assert!(!resolve(None, false, false, None, true, false).is_interactive());
    assert!(!resolve(None, true, false, Some("1"), true, true).is_interactive());
    assert!(resolve(None, false, true, None, true, true).assume_yes());
    let answers = ScriptedAnswers::from_values(Some("1,2"), None, None, None, None);
    assert!(answers.is_some());
    assert!(resolve(answers, false, true, None, true, true).assume_yes());
    assert_eq!(parse_index_list("1, 2,x"), vec![1, 2]);
    assert!(ScriptedAnswers::from_values(None, None, None, None, None).is_none());
}

#[test]
fn choices_come_from_the_mode() {
    let options = texts(&["x", "y", "z"]);
    let mut ask = Interaction::Interactive;
    assert!(matches!(
        prompt_select(&mut ask, "?", &options, Fallback::Require("why")),
        Ok(Selection::Ask)
    ));
    assert!(matches!(
        prompt_select(&mut ask, "?", &texts(&["only"]), Fallback::Require("why")),
        Ok(Selection::Only(s)) if s == "only"
    ));
    assert!(matches!(
        prompt_select(&mut ask, "?", &vec![], Fallback::Require("why")),
        Err(PromptError::NoOptions)
    ));
    let mut quiet = Interaction::NonInteractive { assume_yes: false };
    assert!(matches!(
        prompt_select(&mut quiet, "?", &options, Fallback::Require("why")),
        Err(PromptError::InputRequired(_))
    ));
    assert!(matches!(
        prompt_select(&mut quiet, "?", &options, Fallback::Default("y".to_string())),
        Ok(Selection::Fallback(s)) if s == "y"
    ));
    let mut script = Interaction::Scripted(ScriptedAnswers {
        selections: vec![2],
        ..ScriptedAnswers::default()
    });
    assert!(matches!(
        prompt_select(&mut script, "?", &options, Fallback::Require("why")),
        Ok(Selection::Scripted(2, s)) if s == "z"
    ));
    assert!(matches!(
        prompt_multi_select(&quiet, "?", 3, Fallback::Default(vec![])),
        Ok(MultiSelection::Fallback(v)) if v.is_empty()
    ));
    assert!(matches!(
        prompt_confirm(&Interaction::NonInteractive { assume_yes: true }, "?", Fallback::Default(false)),
        Ok(Confirmation::Assumed)
    ));
    assert!(matches!(
        prompt_confirm(&quiet, "?", Fallback::Default(false)),
        Ok(Confirmation::Fallback(false))
    ));
}

#[test]
fn aborts_touch_only_what_is_owned() {
    assert_eq!(abort_target(true, true, false), AbortTarget::Several);
    assert_eq!(abort_target(true, false, true), AbortTarget::Rebase);
    assert_eq!(abort_target(false, true, false), AbortTarget::Run);
    assert_eq!(abort_target(false, false, true), AbortTarget::NativeRebase);
    assert_eq!(abort_target(false, false, false), AbortTarget::Nothing);
    assert_eq!(
        abort_note(AbortTarget::Nothing).as_deref(),
        Some("No operation in progress.")
    );
    let foreign = AbortFacts { owns: false, git_rebase: true, stash: true, unstage: true };
    assert_eq!(next_abort_step(&foreign, None), AbortStep::Clear);
    assert_eq!(next_abort_step(&foreign, Some(AbortStep::Clear)), AbortStep::Done);
    assert!(abort_message(&foreign, &Some("stash@{0}".to_string()))
        .ends_with("Saved stash 'stash@{0}' was left untouched for manual recovery."));
    let own = AbortFacts { owns: true, git_rebase: true, stash: true, unstage: true };
    assert!(discards_undo(&own) && !discards_undo(&foreign));
    let mut seen = vec![];
    let mut step = next_abort_step(&own, None);
    while step != AbortStep::Done {
        seen.push(step);
        step = next_abort_step(&own, Some(step));
    }
    assert_eq!(
        seen,
        vec![
            AbortStep::AbortGitRebase,
            AbortStep::RestoreTips,
            AbortStep::Checkout,
            AbortStep::ApplyStash,
            AbortStep::ForgetStash,
            AbortStep::DropStash,
            AbortStep::Unstage,
            AbortStep::Clear,
        ]
    );
}

#[test]
fn tips_are_put_back_by_their_ids() {
    match restore_tip("a", ONE) {
        TipRestore::Update(args) => {
            assert_eq!(args, texts(&["update-ref", "refs/heads/a", ONE]));
        }
        other => panic!("{other:?}"),
    }
    assert!(matches!(restore_tip("a", "zzz"), TipRestore::Invalid(_, _)));
    assert_eq!(
        tip_not_restored("a", Some("zzz")),
        "Saved original tip for branch 'a' is invalid: 'zzz'."
    );
    let mut tips = NameMap::new();
    tips.insert("b".to_string(), ONE.to_string());
    tips.insert("a".to_string(), "zzz".to_string());
    let plan = restore_original_branch_tips(&tips);
    assert_eq!(plan.len(), 2);
    assert!(matches!(plan[0], TipRestore::Invalid(_, _)));
}

#[test]
fn continues_pick_up_where_they_stopped() {
    assert_eq!(
        continue_start(Some(Operation::Sync), false, false),
        Ok(ContinueStep::FinishSync)
    );
    assert_eq!(
        continue_start(Some(Operation::Move), false, false),
        Ok(ContinueStep::RebaseLoop)
    );
    assert_eq!(
        continue_start(Some(Operation::Move), false, true),
        Ok(ContinueStep::GitRebase)
    );
    assert_eq!(
        continue_start(Some(Operation::Move), true, false),
        Err(ContinueError::Several)
    );
    assert_eq!(continue_start(None, false, true), Err(ContinueError::NativeRebase));
    assert_eq!(continue_start(None, true, false), Err(ContinueError::InterruptedRun));
    assert_eq!(continue_start(None, false, false), Ok(ContinueStep::Nothing));
    let stalled = StallFacts {
        rebase_dir: true,
        message: false,
        amend: false,
        merge_msg: true,
        staged: true,
        unmerged: false,
    };
    assert!(stalled_pick(&stalled));
    assert!(!stalled_pick(&StallFacts { amend: true, ..stalled }));
    let empty = rebase_stopped_on_empty_pick(true, false, false);
    assert!(empty);
    assert_eq!(after_continue(false, true, empty, false), AfterStep::Skip);
    assert_eq!(
        after_continue(false, false, empty, false),
        AfterStep::Fail(ContinueError::Stopped)
    );
    assert_eq!(
        after_continue(false, true, false, true),
        AfterStep::Fail(ContinueError::Conflicts)
    );
    assert_eq!(after_skip(true, false), AfterStep::GoOn);
    assert_eq!(rebase_editor(true, false, "vi").as_deref(), Some("true"));
    assert_eq!(rebase_editor(false, true, "vi"), None);
    assert_eq!(rebase_editor(false, false, "vi").as_deref(), Some("vi"));
}

#[test]
fn commands_begin_only_where_they_may() {
    assert!(matches!(
        check_run(true, false, false, Some("main".to_string())),
        Err(StartError::InProgress)
    ));
    assert!(matches!(check_run(false, false, false, None), Err(StartError::NoBase)));
    assert!(matches!(check_restack(true, Some("a")), Err(StartError::RebaseInProgress)));
    assert!(matches!(check_restack(false, None), Err(StartError::DetachedHead)));
    assert_eq!(check_restack(false, Some("a")).unwrap(), "a");
    assert!(matches!(
        check_reorder(false, Some("main"), Some("main")),
        Err(StartError::IsUpstream(_))
    ));
    assert!(matches!(
        check_reorder(false, None, Some("main")),
        Err(StartError::NotOnBranch)
    ));
    assert_eq!(check_reorder(false, Some("a"), Some("main")).unwrap(), "a");
}

#[test]
fn renames_keep_the_base() {
    let args = RenameArgs { first: "new".to_string(), second: None };
    assert_eq!(
        rename_names(&args, Some("old")).unwrap(),
        ("old".to_string(), "new".to_string())
    );
    assert!(matches!(rename_names(&args, None), Err(RenameError::DetachedHead)));
    let facts = || RenameFacts {
        in_progress: false,
        old_exists: true,
        new_exists: false,
        upstream: Some("origin/main".to_string()),
        remotes: texts(&["origin"]),
        main_branch: Some("pinned".to_string()),
    };
    assert_eq!(rename_branch("a", "b", &facts()).unwrap(), RenamePlan::Rename);
    assert_eq!(rename_branch("a", "a", &facts()).unwrap(), RenamePlan::Same);
    assert!(matches!(
        rename_branch("a", "main", &facts()),
        Err(RenameError::ShadowsBase(_, _))
    ));
    assert!(matches!(
        rename_branch("origin/main", "b", &facts()),
        Err(RenameError::IsUpstream(_))
    ));
    assert!(matches!(
        rename_branch("pinned", "b", &facts()),
        Err(RenameError::PinnedToMain(_))
    ));
    let gone = RenameFacts { old_exists: false, ..facts() };
    assert!(matches!(rename_branch("a", "a", &gone), Err(RenameError::NotFound(_))));
    let taken = RenameFacts { new_exists: true, ..facts() };
    assert!(matches!(rename_branch("a", "b", &taken), Err(RenameError::Exists(_))));
    let busy = RenameFacts { in_progress: true, ..facts() };
    assert!(matches!(rename_branch("a", "b", &busy), Err(RenameError::InProgress)));
    assert_eq!(rename_args("a", "b"), texts(&["branch", "-m", "a", "b"]));
    assert_eq!(rename_failed("a", "b", " no\n"), "Failed to rename 'a' to 'b': no");
    assert!(record_failed("a", "b", true).ends_with("rolled the rename of 'a' back"));
}

#[test]
fn restacks_move_the_children() {
    let others = restack_candidates(&stack(), "a");
    assert_eq!(others.len(), 2);
    let state = restack_state("a", &vec![branch("b", "old")], NameMap::new(), true);
    assert_eq!(state.remaining_branches, texts(&["b"]));
    assert_eq!(state.parent_id_map.get("b").unwrap(), "old");
    assert_eq!(state.parent_name_map.get("b").unwrap(), "a");
    assert!(state.parent_id_map.get("c").is_none());
    assert!(state.autostash);
}

#[test]
fn settings_come_in_order() {
    assert_eq!(autostash_override(true, false), Some(true));
    assert_eq!(autostash_override(false, true), Some(false));
    assert_eq!(autostash_override(false, false), None);
    assert!(!resolve_rebase_autostash(None, None, None));
    assert!(resolve_rebase_autostash(None, None, Some(true)));
    assert!(!resolve_rebase_autostash(None, Some(false), Some(true)));
    assert!(resolve_rebase_autostash(Some(true), Some(false), None));
    assert_eq!(resolve_restack_history_limit(None, None, None), DEFAULT_RESTACK_HISTORY_LIMIT);
    assert_eq!(resolve_restack_history_limit(Some(0), Some(5), None), 0);
    let none: Vec<String> = vec![];
    assert_eq!(
        find_upstream(None, None, &texts(&["main", "a"]), &none).unwrap().as_deref(),
        Some("main")
    );
    assert_eq!(
        find_upstream(None, None, &none, &texts(&["origin/main"])).unwrap().as_deref(),
        Some("origin/main")
    );
    assert_eq!(find_upstream(None, None, &none, &none).unwrap(), None);
    assert!(find_upstream(Some("gone"), None, &none, &none).is_err());
    assert!(upstream_candidates(Some("develop")).contains(&"develop".to_string()));
    assert_eq!(base_short_name("origin/main", &texts(&["origin"])), "main");
    assert_eq!(base_short_name("feature/x", &texts(&["origin"])), "feature/x");
    assert_eq!(local_branch_candidates(&texts(&["b", "ab", "aa"]), "a"), texts(&["aa", "ab"]));
    assert_eq!(resolve_branch_name("a", &texts(&["a"]), &none).as_deref(), Some("a"));
}

#[test]
fn shells_get_their_functions() {
    assert_eq!(Shell::Zsh.as_str(), "zsh");
    assert_eq!(script(Shell::Bash), script(Shell::Zsh));
    assert!(script(Shell::Bash).starts_with("# kin shell integration.\n"));
    assert!(script(Shell::Fish).contains("function kin\n"));
    let with = ShellInitArgs { shell: Shell::Fish, no_completions: false };
    assert_eq!(shell_init(&with, "COMP"), format!("COMP\n{}", script(Shell::Fish)));
    let without = ShellInitArgs { shell: Shell::Fish, no_completions: true };
    assert_eq!(shell_init(&without, "COMP"), script(Shell::Fish));
    assert_eq!(
        completions_failed(Shell::Bash, " bad \n"),
        "failed to generate bash completions: bad"
    );
}

#[test]
fn the_status_names_the_operation() {
    assert_eq!(active_operation(true, true, false), ActiveOperation::Several);
    assert_eq!(active_operation(true, false, false), ActiveOperation::Hydration);
    assert_eq!(active_operation(false, false, true), ActiveOperation::Run);
    assert_eq!(active_operation(false, true, false), ActiveOperation::Rebase);
    assert!(fixed_status(ActiveOperation::Several).is_some());
    assert!(fixed_status(ActiveOperation::Run).is_none());
    assert_eq!(overrides_status(true, true).len(), 2);
    assert_eq!(rebase_status(&None), texts(&["No Kindra operation active."]));
    let state = restack_state("a", &vec![branch("b", "old")], NameMap::new(), false);
    assert_eq!(
        rebase_status(&Some(state)),
        texts(&["Move in progress: a onto a", "Remaining branches: b"])
    );
    let run = kindra::commands::run::begin_run(
        texts(&["a", "b"]),
        NameMap::new(),
        "main".to_string(),
        kindra::commands::run::RunArgs {
            command: "true".to_string(),
            continue_on_failure: false,
            tree: false,
            autostash: false,
            no_autostash: false,
        },
        None,
        ONE.to_string(),
        None,
    );
    assert_eq!(
        run_status(&run),
        texts(&["Run in progress: 0 of 2 branch(es) processed", "Next branch: a"])
    );
}

#[test]
fn worktree_subcommands_become_actions() {
    assert_eq!(worktree(&None), WorktreeAction::List);
    let temp = |new_branch| {
        Some(WorktreeSubcommand::Temp(TempArgs {
            branch: NewBranchOrTargetArgs { new_branch, target: None },
        }))
    };
    assert_eq!(worktree(&temp(None)), WorktreeAction::EnsureTemp);
    assert_eq!(
        worktree(&temp(Some("x".to_string()))),
        WorktreeAction::EnsureTempNewBranch
    );
    assert!(cd_note(true).is_some());
    assert!(cd_note(false).is_none());
}

#[test]
fn checkouts_go_up_down_and_to_the_top() {
    let g = graph();
    assert!(matches!(
        plan_up(&g, "a1", &stack()),
        Ok(CheckoutPlan::Go(b)) if b == "a"
    ));
    assert!(matches!(plan_up(&g, "a2", &stack()), Ok(CheckoutPlan::Choose(_))));
    assert!(matches!(plan_up(&g, "b1", &stack()), Err(CheckoutError::AtTop)));
    assert!(matches!(plan_top(&g, &stack()), Ok(CheckoutPlan::Choose(_))));
    assert!(matches!(plan_top(&g, &vec![]), Err(CheckoutError::NoBranches)));
    let log = "b1\0HEAD -> refs/heads/b\na2\0refs/heads/a\nbase\0refs/heads/main\n";
    assert_eq!(find_first_parent_branches_via_git_log(log, "main", "b"), texts(&["a"]));
    assert!(matches!(
        plan_down(log, "main", &Some("b".to_string())),
        Ok(CheckoutPlan::Go(b)) if b == "a"
    ));
    assert!(matches!(plan_down(log, "main", &None), Err(CheckoutError::NotOnBranch)));
    assert!(matches!(
        ensure_checkout_available(false, true, false),
        Err(CheckoutError::InProgress)
    ));
}

#[test]
fn a_checkout_is_settled() {
    let g = graph();
    let facts = |locals: &[&str], branches: Vec<StackBranch>| CheckoutFacts {
        locals: texts(locals),
        upstream_name: "main".to_string(),
        head_id: "a2".to_string(),
        stack_branches: branches,
        current_branch: Some("a".to_string()),
        git_log: "a2\0HEAD -> refs/heads/a\n".to_string(),
    };
    let seen = facts(&["b", "a"], stack());
    assert!(matches!(
        checkout(Some(CheckoutSubcommand::Up), &Some("x".to_string()), true, &g, &seen),
        Ok(CheckoutStep::Hydrate(b)) if b == "x"
    ));
    assert!(matches!(
        checkout(Some(CheckoutSubcommand::Up), &None, true, &g, &seen),
        Ok(CheckoutStep::Choose(q, v))
            if q == "Multiple branches ahead. Select one:" && v == texts(&["b", "c"])
    ));
    assert!(matches!(
        checkout(Some(CheckoutSubcommand::Down), &None, false, &g, &seen),
        Ok(CheckoutStep::Go(b)) if b == "main"
    ));
    assert!(matches!(
        checkout(None, &None, true, &g, &seen),
        Ok(CheckoutStep::Choose(_, v)) if v == texts(&["a", "b"])
    ));
    assert!(matches!(
        checkout(None, &None, false, &g, &seen),
        Ok(CheckoutStep::ChooseLine(_, v)) if v.len() == 3 && v[0].display_name == "* a"
    ));
    let none = facts(&[], vec![]);
    assert!(matches!(
        checkout(None, &None, true, &g, &none),
        Ok(CheckoutStep::Note(n)) if n == "No local branches found."
    ));
    assert!(matches!(
        checkout(None, &None, false, &g, &none),
        Ok(CheckoutStep::Note(n))
            if n == "No branches found in the current stack (excluding main). Use --all to see everything."
    ));
    assert!(matches!(
        checkout(Some(CheckoutSubcommand::Top), &None, false, &g, &none),
        Err(CheckoutError::NoBranches)
    ));
}

#[test]
fn a_commit_is_settled_before_it_begins() {
    let g = graph();
    let picked = Some(StackCommit {
        commit_id: "a1".to_string(),
        branch_name: "a".to_string(),
        position: (1, 2),
        message: "first".to_string(),
    });
    let mut args = texts(&["-m", "x"]);
    assert!(matches!(
        settle_target(&g, &picked, "b1", "b", &None, &mut args, false),
        Err(CommitError::NothingToCommit)
    ));
    let mut args = texts(&["--", "file"]);
    let (fold, choice) =
        settle_target(&g, &picked, "b1", "b", &None, &mut args, false).unwrap();
    assert_eq!(args, texts(&["--fixup=a1", "--", "file"]));
    assert!(fold.inline);
    assert!(matches!(choice, TargetChoice::Branch(b) if b == "b"));
    let scope = commit_scope(&g, &stack(), &stack(), "a", "a2", "base", "u1", "main", true);
    assert!(scope.has_dependents);
    assert!(!scope.ask);
    assert!(commit_scope(&g, &stack(), &vec![], "a", "a2", "base", "u1", "main", true).ask);
    let plan = plan_in_scope(&scope, "b", true, &fold);
    assert!(plan.switching && plan.will_rebase && plan.autosquash);
    let (mut state, base) =
        begin_commit(&g, &stack(), &scope, &plan, "b", &fold, false).unwrap();
    assert_eq!(base.as_deref(), Some("base"));
    assert_eq!(state.caller_branch.as_deref(), Some("b"));
    assert_eq!(state.remaining_branches.len(), 2);
    assert_eq!(state.parent_name_map.get("b").map(String::as_str), Some("a"));
    assert_eq!(state.original_tip_map.get("a").map(String::as_str), Some("a2"));
    state.stash_ref = Some("kept".to_string());
    state.in_progress_branch = Some("a".to_string());
    stash_restored(&mut state);
    assert!(state.stash_ref.is_none() && state.in_progress_branch.is_none());
}

#[test]
fn hydration_goes_step_by_step() {
    let here = hydration_step("a", &Some(ONE.to_string()), &None, "o/r").unwrap();
    assert!(here.completed);
    let there = hydration_step(
        "b",
        &None,
        &Some(("refs/remotes/origin/b".to_string(), ONE.to_string())),
        "o/r",
    )
    .unwrap();
    assert!(!there.completed);
    assert!(matches!(
        hydration_step("c", &None, &None, "o/r"),
        Err(CheckoutError::NoRemote(_, _))
    ));
    assert!(matches!(
        local_branch_for_checkout(&there, &None),
        Ok(LocalBranchAction::Create)
    ));
    assert!(matches!(
        local_branch_for_checkout(&there, &Some(Some(ONE.to_string()))),
        Ok(LocalBranchAction::Adopt)
    ));
    assert!(matches!(
        local_branch_for_checkout(&there, &Some(None)),
        Err(CheckoutError::Changed(_))
    ));
    let bad = HydrationStep {
        branch: "x".to_string(),
        remote_ref: None,
        tip: "zzz".to_string(),
        completed: false,
    };
    assert_eq!(
        local_branch_for_checkout(&bad, &None).unwrap_err().message(),
        "unable to parse OID - contains invalid characters; class=Invalid (3)"
    );
    let none = HydrationStep { tip: String::new(), ..bad };
    assert_eq!(
        local_branch_for_checkout(&none, &None).unwrap_err().message(),
        "unable to parse OID - too short; class=Invalid (3)"
    );
    let long = HydrationStep { tip: "\u{e9}".repeat(21), ..none };
    assert_eq!(
        local_branch_for_checkout(&long, &None).unwrap_err().message(),
        "unable to parse OID - too long; class=Invalid (3)"
    );
    let mut state = HydrationState {
        branch: "b".to_string(),
        repository: "o/r".to_string(),
        steps: vec![here, there],
    };
    assert_eq!(next_hydration_step(&state), Some(1));
    complete_hydration_step(&mut state, 1);
    assert_eq!(next_hydration_step(&state), None);
    let remotes = vec![RemoteCandidate {
        name: "origin".to_string(),
        identity: Some("o/r".to_string()),
        tip: Some(ONE.to_string()),
    }];
    assert!(resolve_remote_tracking_ref(&remotes, "b", "o/r").unwrap().is_some());
    assert!(resolve_remote_tracking_ref(&vec![], "b", "o/r").unwrap().is_none());
}

fn commits() -> Vec<StackCommit> {
    vec![
        StackCommit {
            commit_id: "a1".to_string(),
            branch_name: "a".to_string(),
            position: (1, 2),
            message: "first\n\nbody".to_string(),
        },
        StackCommit {
            commit_id: "a2".to_string(),
            branch_name: "a".to_string(),
            position: (2, 2),
            message: "second".to_string(),
        },
    ]
}

#[test]
fn fixups_name_commits_of_the_stack() {
    assert_eq!(resolve_fixup_commit(&commits(), "a2", "a2").unwrap().commit_id, "a2");
    assert!(matches!(
        resolve_fixup_commit(&commits(), "zz", "zz"),
        Err(CommitError::NotInStack(_))
    ));
    assert_eq!(commit_line(&commits()[1]), "a 2/2 - \"second\"");
    assert_eq!(
        fixup_commit_candidates(&commits(), "a1"),
        vec![("a1".to_string(), "first".to_string())]
    );
    assert_eq!(
        select_commit_interactive(&Interaction::Interactive, &commits()).unwrap(),
        CommitPick::Ask
    );
    assert!(matches!(
        select_commit_interactive(&Interaction::Interactive, &vec![]),
        Err(CommitError::NoCommits)
    ));
    assert!(matches!(
        select_commit_interactive(&Interaction::NonInteractive { assume_yes: true }, &commits()),
        Err(CommitError::Input(_))
    ));
    assert_eq!(resolve_commit_choice(&commits(), "a 2/2 - \"second\"").unwrap(), 1);
    assert!(matches!(
        resolve_commit_choice(&commits(), "?"),
        Err(CommitError::UnknownCommit)
    ));
}

#[test]
fn the_commits_of_a_stack_are_listed_by_branch() {
    let mut messages = NameMap::new();
    messages.insert("a1".to_string(), "first".to_string());
    let listed = enumerate_stack_commits(&graph(), &stack(), "base", &messages).unwrap();
    let lines: Vec<String> = listed.iter().map(commit_line).collect();
    assert_eq!(
        lines,
        texts(&["a 1/2 - \"first\"", "a 2/2 - \"\"", "b 1/1 - \"\"", "c 1/1 - \"\""])
    );
    assert!(enumerate_stack_commits(&graph(), &stack(), "nowhere", &messages).is_err());
}

#[test]
fn every_dependent_branch_is_rebased() {
    let sub = collect_target_sub_stack(&graph(), "a", "a2", "main", &stack());
    let plan = plan_commit("a", "a", &sub, true, true, false);
    assert_eq!(plan.remaining, texts(&["b", "c"]));
    let from_b = collect_target_sub_stack(&graph(), "b", "b1", "main", &stack());
    assert!(plan_commit("b", "b", &from_b, true, false, false).remaining.is_empty());
}

#[test]
fn commits_are_planned_and_recorded() {
    let g = graph();
    let plan = plan_commit("b", "a", &stack(), true, true, false);
    assert!(plan.switching && plan.will_rebase && !plan.autosquash);
    assert_eq!(plan.remaining, texts(&["b", "c"]));
    let steps = {
        let mut seen = vec![];
        let mut step = first_commit_step(&plan);
        while step != CommitStep::Done {
            seen.push(step);
            step = next_commit_step(&plan, step, true, false);
        }
        seen
    };
    let save = steps.iter().position(|s| *s == CommitStep::Save).unwrap();
    let commit = steps.iter().position(|s| *s == CommitStep::Commit).unwrap();
    assert!(save < commit);
    assert_eq!(
        next_commit_step(&plan, CommitStep::Save, false, false),
        CommitStep::GiveBackStash
    );
    assert_eq!(
        next_commit_step(&plan, CommitStep::Checkout, false, false),
        CommitStep::Fail(CommitFailure::Checkout)
    );
    assert_eq!(autosquash_base(&g, "a2").as_deref(), Some("a1"));
    assert_eq!(autosquash_base(&g, "base"), None);
    let mut tips = original_tips("a", "a2", &stack(), true);
    record_branch_tips_in_range(
        &g,
        &vec![branch("mid", "a1"), branch("a", "a2")],
        &Some("base".to_string()),
        "a2",
        &mut tips,
    );
    assert_eq!(tips.get("mid").unwrap(), "a1");
    assert!(autosquash_args(true, &Some("a1".to_string())).contains(&"--autosquash".to_string()));
    let options = target_options(&g, &stack(), "b", "b1");
    assert!(!options.is_empty());
    assert!(asks_about_other_stack("z", "main", &stack(), true, true));
    let mut args = texts(&["-m", "x"]);
    let fold = fold_into(&g, &commits()[1], "a2", "a", &mut args);
    assert!(!fold.inline && fold.fixup.is_none());
    assert_eq!(args, texts(&["-m", "x", "--amend", "--no-edit"]));
    let mut args = texts(&["-m", "x"]);
    let fold = fold_into(&g, &commits()[0], "a2", "a", &mut args);
    assert!(fold.inline);
    assert_eq!(args, texts(&["-m", "x", "--fixup=a1"]));
    assert!(matches!(
        choose_target(&None, false, &Some(Some("a".to_string())), "b"),
        TargetChoice::Branch(b) if b == "a"
    ));
}

#[test]
fn absorbed_changes_are_folded() {
    let g = graph();
    assert_eq!(absorb_base(&g, &Some("x".to_string()), "b", &stack(), "base").unwrap(), "x");
    assert_eq!(absorb_base(&g, &None, "b", &stack(), "base").unwrap(), "a2");
    assert_eq!(nothing_to_absorb("a2", "b1", "b"), None);
    assert_eq!(
        nothing_to_absorb("b1", "b1", "b").as_deref(),
        Some("No commits on 'b' to absorb into.")
    );
    assert!(matches!(after_engine(true, "1", "2"), AbsorbOutcome::Done));
    assert!(matches!(after_engine(false, "1", "1"), AbsorbOutcome::Done));
    assert!(matches!(after_engine(false, "1", "2"), AbsorbOutcome::Fold));
    assert!(absorb_summary(1, 3).contains('2'));
    assert!(absorb_fold_args("a1").contains(&"--autosquash".to_string()));
    assert!(matches!(next_absorb_step(AbsorbStep::Save, true, false), AbsorbStep::Fold));
    assert!(matches!(
        next_absorb_step(AbsorbStep::Save, false, false),
        AbsorbStep::GiveBackStash
    ));
    assert!(matches!(
        next_absorb_step(AbsorbStep::TakeBackFixups, false, false),
        AbsorbStep::Fail(AbsorbFailure::StrayFixups)
    ));
    assert_eq!(stash_taken(&None, &None, "m".to_string()), None);
    assert_eq!(
        stash_taken(&None, &Some("s".to_string()), "m".to_string()).as_deref(),
        Some("m")
    );
}

#[test]
fn the_base_is_protected() {
    let remotes = texts(&["origin"]);
    assert_eq!(
        protected_push_targets(Some("origin/develop"), None, &remotes),
        texts(&["main", "master", "trunk", "develop"])
    );
    assert_eq!(
        protected_push_targets(Some("main"), Some("next"), &remotes),
        texts(&["next", "main", "master", "trunk"])
    );
}

#[test]
fn an_absorb_notes_what_may_move() {
    let g = graph();
    let scope = absorb_scope(&g, "a", &stack()).unwrap();
    assert_eq!(scope.remaining.len(), 2);
    let state =
        begin_absorb(&g, &stack(), scope, &stack(), "a", "a2", "base", "base", false).unwrap();
    assert_eq!(state.original_tip_map.get("a").map(String::as_str), Some("a2"));
    assert_eq!(state.original_tip_map.get("b").map(String::as_str), Some("b1"));
    assert_eq!(state.parent_name_map.get("c").map(String::as_str), Some("a"));
    assert!(state.suppress_editor);
    let alone = absorb_scope(&g, "b", &stack()).unwrap();
    assert!(alone.remaining.is_empty());
    let state =
        begin_absorb(&g, &stack(), alone, &stack(), "b", "b1", "a2", "base", true).unwrap();
    assert_eq!(state.parent_id_map.len(), 0);
    assert!(absorb_scope(&g, "gone", &stack()).is_err());
}

#[test]
fn changes_are_set_aside_or_in_the_way() {
    assert!(matches!(resolve_and_check_autostash(true, false, None, None, true), Ok(true)));
    assert!(matches!(resolve_and_check_autostash(false, false, None, Some(true), true), Ok(true)));
    assert!(matches!(resolve_and_check_autostash(false, true, Some(true), None, false), Ok(false)));
    let refused = resolve_and_check_autostash(false, true, Some(true), None, true).unwrap_err();
    assert!(refused.message().starts_with("Working tree has uncommitted changes."));
}
