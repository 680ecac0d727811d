use kindra::worktree::cleanup::{find_cleanup_candidates, CleanupCandidate};
use kindra::worktree::config::{
    default_main_branch, load_worktree_config, resolve_config_path, ConfigError, HookListConfig,
    MainWorktreeConfig, RawMainWorktreeConfig, RawReviewWorktreeConfig, RawTempWorktreeConfig,
    RawWorktreeConfig, ReviewWorktreeConfig, TempWorktreeConfig, WorktreeConfig,
};
use kindra::worktree::git::{
    add_worktree_args, checkout_worktree_branch, checkout_worktree_detached, create_branch_args,
    delete_branch_args, ensure_local_branch_exists, list_live_worktrees, live_worktree_map,
    refused_deletion_is_error, remote_for_branch, remove_worktree_args, tip_matches, LiveWorktree,
    LocalBranch,
};
use kindra::worktree::hooks::{
    global_hooks, hook_env, hook_failure, hooks_for_role, run_global_hooks, run_hooks, show_code,
    HookEvent, HookOutput, HookStep,
};
use kindra::worktree::listing::list_managed_worktrees;
use kindra::worktree::metadata::{
    apply_delta, check_version, ManagedWorktreeRecord, MetadataFile, WorktreeMetadata,
    METADATA_VERSION,
};
use kindra::worktree::path_resolver::{
    expand_path_template, join_path, normalize_path, parse_target, path_is_inside,
    sanitize_branch_for_path, temp_template_root, WorktreeTarget,
};
use kindra::worktree::removal::{
    auto_delete_allowed, cleanup_message, cleanup_question, cleanup_summary, cleanup_temp_worktree,
    cleanup_temp_worktrees, count_cross_worktree_branch_conflicts, delete_branch_after_removal,
    kept_branch_note, remove_result, remove_target, removed_message,
    resolve_cross_worktree_branch_delete, role_label_for_path, rollback_created_temp_branch,
    rollback_created_worktree, AfterDelete, BranchRollback, CleanupStep,
    CrossWorktreeBranchDeleteAction, DeleteOutcome, RemoveError,
};
use kindra::worktree::roles::{
    default_add_template, ensure_added, ensure_local_branch_is_new, ensure_main, ensure_review,
    ensure_temp, ensure_temp_new_branch, ensure_temp_path_available, plain_worktree_path,
    resolve_existing_path, resolve_given_path, resolve_requested_branch,
    resolve_requested_start_point, resolve_target, review_not_restored, review_switch,
    role_for_path, rollback_review_checkout, rollback_target, EnsurePlan, ResolvedTarget,
    RoleError, RollbackTarget,
};
use kindra::worktree::steps::{first_step, next_step, Job, Outcome, Step};
use kindra::worktree::ui::{format_state_flags, render_list, WorktreeListRow};
use kindra::worktree::WorktreeRole;

fn texts(list: &[&str]) -> Vec<String> {
    list.iter().map(|s| s.to_string()).collect()
}

fn no_hooks() -> HookListConfig {
    HookListConfig { on_create: vec![], on_checkout: vec![], on_remove: vec![] }
}

fn config_at(root: &str) -> WorktreeConfig {
    WorktreeConfig {
        root: root.to_string(),
        trunk: "main".to_string(),
        hooks: no_hooks(),
        main: MainWorktreeConfig {
            enabled: true,
            branch: "main".to_string(),
            path: format!("{root}/main"),
            allow_branch_switch: false,
            hooks: no_hooks(),
        },
        review: ReviewWorktreeConfig {
            enabled: true,
            path: format!("{root}/review"),
            reuse: true,
            clean_before_switch: true,
            hooks: no_hooks(),
        },
        temp: TempWorktreeConfig {
            enabled: true,
            path_template: format!("{root}/temp/{{branch}}"),
            delete_merged: true,
            hooks: no_hooks(),
        },
    }
}

fn live(path: &str, branch: Option<&str>) -> LiveWorktree {
    LiveWorktree {
        path: path.to_string(),
        branch: branch.map(str::to_string),
        detached: branch.is_none(),
    }
}

fn raw() -> RawWorktreeConfig {
    RawWorktreeConfig {
        root: None,
        trunk: None,
        upstream_branch: None,
        hooks: no_hooks(),
        main: RawMainWorktreeConfig {
            enabled: None,
            branch: None,
            path: None,
            allow_branch_switch: None,
            hooks: no_hooks(),
        },
        review: RawReviewWorktreeConfig {
            enabled: None,
            path: None,
            reuse: None,
            clean_before_switch: None,
            hooks: no_hooks(),
        },
        temp: RawTempWorktreeConfig {
            enabled: None,
            path_template: None,
            delete_merged: None,
            hooks: no_hooks(),
        },
    }
}

fn load(raw: &RawWorktreeConfig) -> Result<WorktreeConfig, ConfigError> {
    load_worktree_config("/repo", raw, &None, &texts(&["main"]), &vec![])
}

#[test]
fn combines_global_and_role_hooks() {
    let mut config = config_at(".git/kindra-worktrees");
    config.hooks.on_create.push("first".to_string());
    config.review.hooks.on_create.push("second".to_string());

    let hooks = hooks_for_role(&config, WorktreeRole::Review, HookEvent::Create);
    assert_eq!(hooks, vec!["first".to_string(), "second".to_string()]);
}

#[test]
fn hook_failures_include_command_output() {
    let rendered = hook_failure(
        HookEvent::Create,
        "main",
        "/wt/main",
        "echo hook failed >&2; exit 1",
        Some(1),
        "",
        "hook failed\n",
    );
    assert!(rendered.contains("hook failed"));
    assert!(rendered.contains("stderr: hook failed"));
}

#[test]
fn exit_codes_are_shown() {
    assert_eq!(show_code(Some(3)), "3");
    assert_eq!(show_code(Some(-1)), "-1");
    assert_eq!(show_code(None), "<no exit code>");
}

#[test]
fn removes_temp_branch() {
    let mut metadata = WorktreeMetadata::default();
    metadata.upsert(WorktreeRole::Temp, "feature/a", "one");
    metadata.upsert(WorktreeRole::Temp, "feature/b", "two");

    metadata.remove_temp_branch("feature/a");

    assert_eq!(metadata.records().len(), 1);
    assert_eq!(metadata.records()[0].branch, "feature/b");
}

#[test]
fn upsert_updates_existing_temp_record_in_place() {
    let mut metadata = WorktreeMetadata::default();
    metadata.upsert(WorktreeRole::Temp, "feature/a", "one");
    let original = metadata.records()[0].clone();

    metadata.upsert(WorktreeRole::Temp, "feature/a", "two");

    assert_eq!(metadata.records().len(), 1);
    assert_eq!(metadata.records()[0].created_at, original.created_at);
    assert!(metadata.records()[0].last_used_at >= original.last_used_at);
    assert_eq!(metadata.records()[0].path_buf(), "two");
}

#[test]
fn a_record_is_made_at_the_time_of_the_clock() {
    let mut metadata = WorktreeMetadata::default();
    metadata.upsert(WorktreeRole::Temp, "feature/a", "one");
    // The clock has passed the year 2001 and not reached the year 2286.
    assert!(metadata.records()[0].created_at > 1_000_000_000);
    assert!(metadata.records()[0].created_at < 10_000_000_000);
}

#[test]
fn apply_delta_removes_singleton_role_even_if_branch_changed_concurrently() {
    let original = MetadataFile {
        version: METADATA_VERSION,
        worktrees: vec![ManagedWorktreeRecord {
            role: WorktreeRole::Review,
            branch: "feature-a".to_string(),
            path: "/tmp/review-a".to_string(),
            created_at: 1,
            last_used_at: 1,
        }],
    };
    let updated = MetadataFile {
        version: METADATA_VERSION,
        worktrees: Vec::new(),
    };
    let mut latest = MetadataFile {
        version: METADATA_VERSION,
        worktrees: vec![ManagedWorktreeRecord {
            role: WorktreeRole::Review,
            branch: "feature-b".to_string(),
            path: "/tmp/review-b".to_string(),
            created_at: 2,
            last_used_at: 2,
        }],
    };

    apply_delta(&original, &updated, &mut latest);

    assert!(latest.worktrees.is_empty());
}

#[test]
fn no_change_leaves_a_later_file_alone() {
    let record = ManagedWorktreeRecord {
        role: WorktreeRole::Temp,
        branch: "a".to_string(),
        path: "/a".to_string(),
        created_at: 1,
        last_used_at: 1,
    };
    let same = MetadataFile { version: METADATA_VERSION, worktrees: vec![record.clone()] };
    let mut latest = MetadataFile {
        version: METADATA_VERSION,
        worktrees: vec![ManagedWorktreeRecord { branch: "b".to_string(), ..record.clone() }],
    };
    apply_delta(&same, &same, &mut latest);
    assert_eq!(latest.worktrees.len(), 1);
    assert_eq!(latest.worktrees[0].branch, "b");
}

#[test]
fn one_review_record_replaces_another() {
    let mut metadata = WorktreeMetadata::default();
    metadata.upsert_at(WorktreeRole::Review, "a", "/review", 10);
    metadata.upsert_at(WorktreeRole::Review, "b", "/review", 20);
    assert_eq!(metadata.records().len(), 1);
    assert_eq!(metadata.find_role(WorktreeRole::Review).unwrap().branch, "b");
    metadata.upsert_at(WorktreeRole::Temp, "c", "/c/../d", 30);
    assert_eq!(metadata.find_temp_branch("c").unwrap().path, "/d");
    assert_eq!(metadata.find_by_path("/x/../d").unwrap().branch, "c");
    metadata.remove_role(WorktreeRole::Review);
    assert!(metadata.find_role(WorktreeRole::Review).is_none());
}

#[test]
fn a_used_worktree_is_recorded_once() {
    let mut metadata = WorktreeMetadata::default();
    metadata.upsert_at(WorktreeRole::Main, "main", "/m", 1);
    metadata.upsert_at(WorktreeRole::Temp, "a", "/a", 2);
    metadata.upsert_at(WorktreeRole::Review, "a", "/r", 3);
    metadata.upsert_at(WorktreeRole::Temp, "b", "/b", 4);
    metadata.upsert_at(WorktreeRole::Temp, "a", "/x/./a", 5);
    metadata.upsert_at(WorktreeRole::Review, "b", "/r", 6);
    let seen: Vec<(WorktreeRole, &str, &str, u64, u64)> = metadata
        .records()
        .iter()
        .map(|r| (r.role, r.branch.as_str(), r.path.as_str(), r.created_at, r.last_used_at))
        .collect();
    assert_eq!(
        seen,
        vec![
            (WorktreeRole::Main, "main", "/m", 1, 1),
            (WorktreeRole::Temp, "a", "/x/a", 2, 5),
            (WorktreeRole::Temp, "b", "/b", 4, 4),
            (WorktreeRole::Review, "b", "/r", 6, 6),
        ]
    );
}

#[test]
fn paths_become_plain() {
    for (path, plain) in [
        ("/a/./b//c/../d/", "/a/b/d"),
        ("/../..", "/"),
        ("a/../../b/..", ".."),
        ("../../x", "../../x"),
        ("./", ""),
        ("/a/b", "/a/b"),
    ] {
        assert_eq!(normalize_path(path), plain);
        assert_eq!(normalize_path(plain), plain);
    }
}

#[test]
fn an_empty_root_holds_every_path() {
    assert!(path_is_inside("", "/a/b"));
    assert!(path_is_inside("", "a"));
    assert!(path_is_inside("x/..", "/a"));
    assert!(path_is_inside("/", "/a"));
    assert!(!path_is_inside("/", "a"));
    assert!(!path_is_inside("..", "/a"));
}

/// What is done and in which order, where the steps in `failing` fail.
fn steps_of(job: Job, failing: &[Step], rest: bool) -> Vec<Step> {
    let mut seen = vec![first_step(job)];
    while !matches!(seen[seen.len() - 1], Step::Done | Step::Failed) {
        let step = seen[seen.len() - 1];
        let outcome = if !failing.contains(&step) {
            Outcome::Went
        } else if rest {
            Outcome::FailedWithRest
        } else {
            Outcome::Failed
        };
        seen.push(next_step(job, step, outcome));
    }
    seen
}

#[test]
fn worktrees_are_made_step_by_step() {
    assert_eq!(
        steps_of(Job::CreateWithBranch, &[], false),
        vec![Step::MakeBranch, Step::ReadTip, Step::Act, Step::RunHooks, Step::Done]
    );
    assert_eq!(steps_of(Job::Create, &[], false), vec![Step::Act, Step::RunHooks, Step::Done]);
    assert_eq!(steps_of(Job::Remove, &[], false), vec![Step::RunHooks, Step::Act, Step::Done]);
}

#[test]
fn failed_worktrees_are_taken_back() {
    assert_eq!(
        steps_of(Job::CreateWithBranch, &[Step::RunHooks], true),
        vec![
            Step::MakeBranch,
            Step::ReadTip,
            Step::Act,
            Step::RunHooks,
            Step::TakeBack,
            Step::DeleteBranch,
            Step::Failed
        ]
    );
    assert_eq!(
        steps_of(Job::CreateWithBranch, &[Step::Act], false),
        vec![Step::MakeBranch, Step::ReadTip, Step::Act, Step::DeleteBranch, Step::Failed]
    );
    assert_eq!(
        steps_of(Job::CreateWithBranch, &[Step::Act, Step::TakeBack], true),
        vec![
            Step::MakeBranch,
            Step::ReadTip,
            Step::Act,
            Step::TakeBack,
            Step::DeleteBranch,
            Step::Failed
        ]
    );
    assert_eq!(
        steps_of(Job::CreateWithBranch, &[Step::ReadTip], false),
        vec![Step::MakeBranch, Step::ReadTip, Step::Failed]
    );
    assert_eq!(
        steps_of(Job::CreateWithBranch, &[Step::MakeBranch], false),
        vec![Step::MakeBranch, Step::Failed]
    );
    assert_eq!(
        steps_of(Job::Create, &[Step::RunHooks], true),
        vec![Step::Act, Step::RunHooks, Step::TakeBack, Step::Failed]
    );
    assert_eq!(steps_of(Job::Create, &[Step::Act], true), vec![Step::Act, Step::Failed]);
    assert_eq!(
        steps_of(Job::Switch, &[Step::RunHooks], true),
        vec![Step::Act, Step::RunHooks, Step::TakeBack, Step::Failed]
    );
    assert_eq!(
        steps_of(Job::Remove, &[Step::RunHooks], true),
        vec![Step::RunHooks, Step::Failed]
    );
}

fn output(code: Option<i32>, stderr: &str) -> HookOutput {
    HookOutput { code, stdout: String::new(), stderr: stderr.to_string() }
}

fn pair(name: &str, value: &str) -> (String, String) {
    (name.to_string(), value.to_string())
}

#[test]
fn hooks_run_in_the_worktree_until_one_fails() {
    let mut config = config_at("/repo/.git/kindra-worktrees");
    config.hooks.on_create.push("first".to_string());
    config.temp.hooks.on_create.push("second".to_string());
    let step = |windows: bool, outputs: Vec<HookOutput>| {
        run_hooks(&config, WorktreeRole::Temp, HookEvent::Create, "/wt", "b", windows, &outputs)
    };
    let call = match step(false, vec![]) {
        HookStep::Run(call) => call,
        other => panic!("{other:?}"),
    };
    assert_eq!(call.program, "sh");
    assert_eq!(call.args, texts(&["-c", "first"]));
    assert_eq!(call.directory, "/wt");
    assert_eq!(
        call.env,
        vec![
            pair("KINDRA_WORKTREE_ROLE", "temp"),
            pair("KINDRA_WORKTREE_BRANCH", "b"),
            pair("KINDRA_WORKTREE_PATH", "/wt"),
        ]
    );
    assert_eq!(hook_env("temp", "b", "/wt"), call.env);
    match step(true, vec![output(Some(0), "")]) {
        HookStep::Run(call) => {
            assert_eq!(call.program, "cmd");
            assert_eq!(call.args, texts(&["/C", "second"]));
        }
        other => panic!("{other:?}"),
    }
    assert!(matches!(
        step(false, vec![output(Some(0), ""), output(Some(0), "noise")]),
        HookStep::Done
    ));
    match step(false, vec![output(Some(0), ""), output(None, " hook failed\n")]) {
        HookStep::Failed(text) => assert_eq!(
            text,
            "Worktree on_create hook failed for role 'temp' at '/wt': second\nexit code: <no exit code>\nstdout: <empty>\nstderr: hook failed"
        ),
        other => panic!("{other:?}"),
    }
    assert!(matches!(
        step(false, vec![output(Some(3), "")]),
        HookStep::Failed(text) if text.contains("first\nexit code: 3")
    ));
    let global = |outputs: Vec<HookOutput>| {
        run_global_hooks(&config, "add", HookEvent::Create, "/wt", "b", false, &outputs)
    };
    assert!(matches!(
        global(vec![]),
        HookStep::Run(call) if call.env[0] == pair("KINDRA_WORKTREE_ROLE", "add")
    ));
    assert!(matches!(global(vec![output(Some(0), "")]), HookStep::Done));
}

#[test]
fn renamed_branches_are_renamed_in_the_record() {
    let mut metadata = WorktreeMetadata::default();
    metadata.upsert_at(WorktreeRole::Temp, "a", "/a", 1);
    metadata.upsert_at(WorktreeRole::Temp, "b", "/b", 1);
    assert!(metadata.rename_branch("a", "c"));
    assert!(!metadata.rename_branch("a", "d"));
    assert_eq!(metadata.records()[0].branch, "c");
    assert_eq!(metadata.records()[1].branch, "b");
}

#[test]
fn unknown_metadata_versions_are_refused() {
    assert!(check_version(METADATA_VERSION, "f.json").is_ok());
    assert_eq!(
        check_version(2, "f.json").unwrap_err().message(),
        "Unsupported Kindra worktree metadata version 2 in f.json."
    );
}

#[test]
fn sanitizes_branch_names() {
    assert_eq!(sanitize_branch_for_path("feature/auth"), "feature-auth");
    assert_eq!(
        sanitize_branch_for_path("fix/bug_123.test"),
        "fix-bug_123.test"
    );
    assert_eq!(sanitize_branch_for_path("///"), "branch");
}

#[test]
fn sanitizing_twice_changes_nothing() {
    let once = sanitize_branch_for_path("a//b c/");
    assert_eq!(sanitize_branch_for_path(&once), once);
    assert!(!once.contains('/'));
}

#[test]
fn expands_templates() {
    let path = expand_path_template(".git/kindra-worktrees/temp/{branch}", "feature/a").unwrap();
    assert_eq!(path, ".git/kindra-worktrees/temp/feature-a");
    assert!(expand_path_template("temp", "feature/a").is_err());
}

#[test]
fn parses_targets() {
    assert_eq!(parse_target("main"), WorktreeTarget::Role(WorktreeRole::Main));
    assert_eq!(
        parse_target("feature/a"),
        WorktreeTarget::TempBranch("feature/a".to_string())
    );
    assert_eq!(
        parse_target("branch:main"),
        WorktreeTarget::TempBranch("main".to_string())
    );
}

#[test]
fn extracts_temp_root() {
    let root = temp_template_root(".git/kindra-worktrees/temp/{branch}/suffix").unwrap();
    assert_eq!(root, ".git/kindra-worktrees/temp");
}

#[test]
fn preserves_leading_parent_components() {
    assert_eq!(normalize_path("../a/../../b"), "../../b");
}

#[test]
fn normalizing_twice_changes_nothing() {
    assert_eq!(normalize_path("/a/./b/../c"), "/a/c");
    assert_eq!(normalize_path(&normalize_path("/a/./b/../c")), "/a/c");
    assert_eq!(join_path("/a", "b"), "/a/b");
    assert_eq!(join_path("/a", "/b"), "/b");
    assert!(path_is_inside("/a", "/a/b"));
    assert!(!path_is_inside("/a", "/ab"));
}

#[test]
fn uses_defaults_when_config_missing() {
    let config = load(&raw()).unwrap();
    assert!(config.main.path.ends_with(".git/kindra-worktrees/main"));
    assert!(config.review.path.ends_with(".git/kindra-worktrees/review"));
    assert!(config
        .temp
        .path_template
        .ends_with(".git/kindra-worktrees/temp/{branch}"));
}

#[test]
fn rejects_invalid_main_switching() {
    let mut given = raw();
    given.main.allow_branch_switch = Some(true);
    let err = load(&given).unwrap_err();
    assert!(err.message().contains("allow_branch_switch"));
}

#[test]
fn rejects_temp_template_outside_root() {
    let mut given = raw();
    given.root = Some(".git/kindra-worktrees".to_string());
    given.temp.path_template = Some("../outside/{branch}".to_string());
    let err = load(&given).unwrap_err();
    assert!(err.message().contains("main/review/temp worktree paths"));
}

#[test]
fn skips_disabled_role_validation() {
    let mut given = raw();
    given.main.enabled = Some(false);
    given.main.allow_branch_switch = Some(true);
    given.temp.enabled = Some(false);
    given.temp.path_template = Some("../outside/{branch}".to_string());
    let config = load(&given).unwrap();
    assert!(!config.main.enabled);
    assert!(!config.temp.enabled);
}

#[test]
fn other_settings_are_refused() {
    let mut given = raw();
    given.trunk = Some("refs/heads/".to_string());
    assert!(matches!(load(&given), Err(ConfigError::EmptyMainBranch)));
    let mut given = raw();
    given.review.path = Some(".git/kindra-worktrees/main".to_string());
    assert!(matches!(load(&given), Err(ConfigError::SamePaths)));
    let mut given = raw();
    given.temp.path_template = Some(".git/kindra-worktrees/temp".to_string());
    assert!(matches!(load(&given), Err(ConfigError::Template(_))));
    let unset = RawWorktreeConfig::default();
    assert_eq!(unset.hooks, HookListConfig::default());
    assert!(unset.hooks.on_create.is_empty() && unset.temp.hooks.on_remove.is_empty());
    assert_eq!(resolve_config_path("/repo", "a/b"), "/repo/a/b");
    assert_eq!(default_main_branch("main", &texts(&["main"]), &vec![]), "main");
}

#[test]
fn finds_merged_temp_worktree() {
    let config = config_at("/repo/.git/kindra-worktrees");
    let worktrees = vec![
        live("/repo/.git/kindra-worktrees/temp/feature-a", Some("feature/a")),
        live("/repo/.git/kindra-worktrees/temp/feature-b", Some("feature/b")),
    ];
    let candidates = find_cleanup_candidates(
        &config,
        &worktrees,
        &vec![true, true],
        &texts(&["feature/a", "main"]),
    )
    .unwrap();
    assert_eq!(candidates.len(), 1);
    assert_eq!(candidates[0].branch, "feature/a");
}

#[test]
fn skips_merged_temp_worktree_with_missing_directory() {
    let config = config_at("/repo/.git/kindra-worktrees");
    let worktrees =
        vec![live("/repo/.git/kindra-worktrees/temp/feature-a", Some("feature/a"))];
    let candidates = find_cleanup_candidates(
        &config,
        &worktrees,
        &vec![false],
        &texts(&["feature/a", "main"]),
    )
    .unwrap();
    assert!(
        candidates.is_empty(),
        "a merged temp worktree whose directory is gone must be excluded"
    );
}

#[test]
fn ignores_worktrees_outside_the_temp_root() {
    let config = config_at("/repo/.git/kindra-worktrees");
    let worktrees = vec![live("/repo/.git/kindra-worktrees/main", Some("main-copy"))];
    let candidates = find_cleanup_candidates(
        &config,
        &worktrees,
        &vec![true],
        &texts(&["main-copy"]),
    )
    .unwrap();
    assert!(candidates.is_empty());
}

#[test]
fn cleanup_goes_in_the_order_of_the_branches() {
    let config = config_at("/r");
    let worktrees = vec![live("/r/temp/b", Some("b")), live("/r/temp/a", Some("a"))];
    let candidates =
        find_cleanup_candidates(&config, &worktrees, &vec![true, true], &texts(&["a", "b"]))
            .unwrap();
    assert_eq!(candidates.len(), 2);
    assert_eq!(candidates[0].branch, "a");
    assert_eq!(candidates[1].branch, "b");
}

#[test]
fn lists_worktrees() {
    let stdout = "worktree /repo\nHEAD 1111\nbranch refs/heads/main\n\nworktree /wt\nHEAD 2222\nbranch refs/heads/feature/a\n\nworktree /det\nHEAD 3333\ndetached\n\n";
    let worktrees = list_live_worktrees(stdout);
    assert_eq!(worktrees.len(), 3);
    assert_eq!(worktrees[0].path, "/repo");
    assert_eq!(worktrees[0].branch.as_deref(), Some("main"));
    assert_eq!(worktrees[1].branch.as_deref(), Some("feature/a"));
    assert!(worktrees[2].detached);
    assert_eq!(worktrees[2].branch, None);
    let map = live_worktree_map(&worktrees);
    assert_eq!(map.get("/wt").unwrap().branch.as_deref(), Some("feature/a"));
}

#[test]
fn git_is_called_as_it_should_be() {
    assert_eq!(add_worktree_args("/p", "b", false), texts(&["worktree", "add", "/p", "b"]));
    assert_eq!(remove_worktree_args("/p", false), texts(&["worktree", "remove", "/p"]));
    assert!(remove_worktree_args("/p", true).contains(&"--force".to_string()));
    assert!(checkout_worktree_branch("b", true).contains(&"b".to_string()));
    assert!(checkout_worktree_detached("c", false).contains(&"c".to_string()));
    assert!(create_branch_args("b", "origin/b", true, false).contains(&"origin/b".to_string()));
    assert!(delete_branch_args("b", "1111").contains(&"1111".to_string()));
}

#[test]
fn a_branch_comes_from_where_it_is() {
    let none: Vec<String> = vec![];
    assert!(matches!(
        ensure_local_branch_exists(&texts(&["b"]), &none, "b"),
        LocalBranch::Present
    ));
    assert!(matches!(
        ensure_local_branch_exists(&none, &texts(&["origin/b"]), "b"),
        LocalBranch::Track(_)
    ));
    assert!(matches!(
        ensure_local_branch_exists(&none, &none, "b"),
        LocalBranch::Missing
    ));
    assert_eq!(
        remote_for_branch(&texts(&["origin/b"]), "b").as_deref(),
        Some("origin")
    );
}

#[test]
fn a_moved_branch_is_not_deleted() {
    assert!(tip_matches(&Some(Some("1".to_string())), "1"));
    assert!(!tip_matches(&Some(Some("2".to_string())), "1"));
    assert!(!refused_deletion_is_error(&None, "1"));
    assert_eq!(
        delete_branch_after_removal(DeleteOutcome::Deleted, false),
        AfterDelete::Gone
    );
    assert_eq!(
        delete_branch_after_removal(DeleteOutcome::Moved, false),
        AfterDelete::Stays
    );
    assert_eq!(
        delete_branch_after_removal(DeleteOutcome::Moved, true),
        AfterDelete::ForceIt
    );
}

#[test]
fn resolve_cross_worktree_refuses_explicit_delete() {
    let worktrees = vec![live("/a", Some("feat")), live("/b", Some("feat"))];
    match resolve_cross_worktree_branch_delete(&worktrees, "feat", "/a", true) {
        CrossWorktreeBranchDeleteAction::Refuse { other_path } => {
            assert_eq!(other_path, "/b");
        }
        other => panic!("expected refuse, got {other:?}"),
    }
}

#[test]
fn resolve_cross_worktree_skips_auto_delete() {
    let worktrees = vec![live("/a", Some("feat")), live("/b", Some("feat"))];
    match resolve_cross_worktree_branch_delete(&worktrees, "feat", "/a", false) {
        CrossWorktreeBranchDeleteAction::Skip { other_path } => {
            assert_eq!(other_path, "/b");
        }
        other => panic!("expected skip, got {other:?}"),
    }
}

#[test]
fn count_cross_worktree_branch_conflicts_detects_blocked_candidates() {
    let worktrees = vec![
        live("/temp/feat", Some("feat")),
        live("/review", Some("feat")),
    ];
    let candidates = vec![(
        CleanupCandidate {
            branch: "feat".to_string(),
            path: "/temp/feat".to_string(),
            live: worktrees[0].copy(),
        },
        false,
    )];
    assert_eq!(
        count_cross_worktree_branch_conflicts(&worktrees, &candidates),
        1
    );
}

#[test]
fn roles_are_told_by_their_paths() {
    let config = config_at("/r");
    assert_eq!(role_for_path(&config, "/r/main").unwrap(), Some(WorktreeRole::Main));
    assert_eq!(role_for_path(&config, "/r/review").unwrap(), Some(WorktreeRole::Review));
    assert_eq!(role_for_path(&config, "/r/temp/x").unwrap(), Some(WorktreeRole::Temp));
    assert_eq!(role_for_path(&config, "/elsewhere").unwrap(), None);
    assert_eq!(role_label_for_path(&config, "/r/main").unwrap(), "main");
}

#[test]
fn the_main_worktree_is_made_once() {
    let config = config_at("/r");
    match ensure_main(&config, &vec![], false).unwrap() {
        EnsurePlan::Create(path, branch) => {
            assert_eq!(path, "/r/main");
            assert_eq!(branch, "main");
        }
        other => panic!("{other:?}"),
    }
    match ensure_main(&config, &vec![live("/r/main", Some("main"))], true).unwrap() {
        EnsurePlan::Reuse(result) => assert_eq!(result.path, "/r/main"),
        other => panic!("{other:?}"),
    }
    let mut off = config_at("/r");
    off.main.enabled = false;
    assert!(matches!(
        ensure_main(&off, &vec![], false),
        Err(RoleError::Disabled(WorktreeRole::Main))
    ));
    assert!(matches!(
        ensure_main(&config, &vec![live("/r/main", Some("other"))], true),
        Err(RoleError::Pinned(_, _, _))
    ));
    assert!(matches!(
        ensure_main(&config, &vec![], true),
        Err(RoleError::NotWorktree(WorktreeRole::Main, _))
    ));
}

#[test]
fn the_review_worktree_is_switched() {
    let config = config_at("/r");
    assert!(matches!(
        ensure_review(&config, "b", &vec![], false),
        Ok(EnsurePlan::Create(_, _))
    ));
    assert!(matches!(
        ensure_review(&config, "b", &vec![live("/r/review", Some("a"))], true),
        Ok(EnsurePlan::Switch(_, _, _))
    ));
    assert!(matches!(
        ensure_review(&config, "b", &vec![live("/r/review", Some("b"))], true),
        Ok(EnsurePlan::Reuse(_))
    ));
    // Changes are discarded only by force, or where cleaning is wanted and the user agrees.
    let forced = review_switch(true, true, false);
    assert!(forced.discard && !forced.ask);
    let asked = review_switch(true, false, true);
    assert!(asked.ask);
    let plain = review_switch(false, false, true);
    assert!(!plain.ask);
}

#[test]
fn temporary_worktrees_have_their_own_places() {
    let config = config_at("/r");
    match ensure_temp(&config, "feature/a", &vec![], false).unwrap() {
        EnsurePlan::Create(path, branch) => {
            assert_eq!(path, "/r/temp/feature-a");
            assert_eq!(branch, "feature/a");
        }
        other => panic!("{other:?}"),
    }
    assert!(matches!(
        ensure_temp_new_branch(&config, "a", true, &vec![], false),
        Err(RoleError::BranchExists(_))
    ));
    assert_eq!(
        ensure_temp_new_branch(&config, "a", false, &vec![], false).unwrap(),
        "/r/temp/a"
    );
    assert!(matches!(
        ensure_temp_path_available(&config, &vec![live("/r/temp/a", Some("b"))], "a", "/r/temp/a"),
        Err(RoleError::Occupied(_, _, _))
    ));
}

#[test]
fn an_added_worktree_is_reused() {
    let none: Vec<LiveWorktree> = vec![];
    let plan = ensure_added("a", false, &None, "/side/{branch}", &none, false).unwrap();
    match plan.plan {
        EnsurePlan::Create(path, branch) => {
            assert_eq!(path, "/side/a");
            assert_eq!(branch, "a");
        }
        other => panic!("{other:?}"),
    }
    let there = vec![live("/somewhere", Some("a"))];
    let plan =
        ensure_added("a", false, &Some("/wanted".to_string()), "/side/{branch}", &there, false)
            .unwrap();
    match plan.plan {
        EnsurePlan::Reuse(result) => assert_eq!(result.path, "/somewhere"),
        other => panic!("{other:?}"),
    }
    assert!(plan.ignored_path.is_some());
    assert_eq!(resolve_given_path("/root", Some("x")).as_deref(), Some("/root/x"));
    assert_eq!(plain_worktree_path(&None, "/side/{branch}", "a/b").unwrap(), "/side/a-b");
}

#[test]
fn requested_branches_default_to_the_current_one() {
    let current = Some("here".to_string());
    assert_eq!(resolve_requested_branch(None, &current).unwrap(), "here");
    assert_eq!(resolve_requested_branch(Some("x"), &current).unwrap(), "x");
    assert!(matches!(
        resolve_requested_branch(None, &None),
        Err(RoleError::NeedBranch)
    ));
    assert!(matches!(
        resolve_requested_start_point(None, &None),
        Err(RoleError::NeedStartPoint)
    ));
}

#[test]
fn targets_are_found_or_missed() {
    let config = config_at("/r");
    let worktrees = vec![live("/r/temp/a", Some("a")), live("/r/review", Some("x"))];
    assert_eq!(resolve_existing_path(&config, &worktrees, "a").unwrap(), "/r/temp/a");
    assert_eq!(resolve_existing_path(&config, &worktrees, "review").unwrap(), "/r/review");
    assert!(matches!(
        resolve_existing_path(&config, &worktrees, "main"),
        Err(RoleError::NoMain)
    ));
    assert!(matches!(
        resolve_target(&config, &worktrees, "zzz"),
        Err(RoleError::NoWorktree(_))
    ));
    assert!(matches!(
        resolve_target(&config, &vec![], "review"),
        Err(RoleError::NoReview)
    ));
}

#[test]
fn removal_spares_trunk_and_shared_branches() {
    let config = config_at("/r");
    let worktrees = vec![live("/r/temp/a", Some("a")), live("/other", Some("a"))];
    let target = ResolvedTarget {
        branch: "a".to_string(),
        path: "/r/temp/a".to_string(),
        live: worktrees[0].copy(),
    };
    let plan = remove_target(&config, &worktrees, &target, false, false, false, false, true)
        .unwrap();
    assert!(!plan.delete_branch);
    assert_eq!(plan.blocked_by.as_deref(), Some("/other"));
    assert!(matches!(
        remove_target(&config, &worktrees, &target, false, false, false, true, true),
        Err(RemoveError::CheckedOutElsewhere(_, _))
    ));
    assert!(matches!(
        remove_target(&config, &worktrees, &target, true, false, false, false, true),
        Err(RemoveError::Dirty(_, _, _))
    ));
    let trunk = ResolvedTarget {
        branch: "main".to_string(),
        path: "/r/temp/main".to_string(),
        live: live("/r/temp/main", Some("main")),
    };
    assert!(matches!(
        remove_target(&config, &vec![], &trunk, false, false, false, true, true),
        Err(RemoveError::Trunk(_))
    ));
    assert!(auto_delete_allowed(&config, "a", "/r/temp/a").unwrap());
    assert!(!auto_delete_allowed(&config, "main", "/r/temp/main").unwrap());
}

#[test]
fn removals_are_told_of() {
    let gone = remove_result("temp", "a", "/r/temp/a", true, &Some("0123456789abcdef".to_string()));
    assert_eq!(
        removed_message(&gone),
        "Removed temp worktree 'a' (/r/temp/a) and deleted branch (was 0123456789ab)"
    );
    let kept = remove_result("temp", "a", "/r/temp/a", false, &None);
    assert_eq!(removed_message(&kept), "Removed temp worktree 'a' (/r/temp/a)");
    let summary = cleanup_summary(vec![gone, kept], 1);
    assert_eq!(
        cleanup_message(&summary),
        "Cleanup complete: found 3 temp worktree candidate(s), removed 2, skipped 1. Deleted 1 branch(es)."
    );
    let nothing = cleanup_summary(vec![], 0);
    assert_eq!(
        cleanup_message(&nothing),
        "No temp worktrees are eligible for cleanup."
    );
}

#[test]
fn dirty_worktrees_are_skipped_by_cleanup() {
    let worktrees = vec![live("/t/a", Some("a"))];
    let candidate = CleanupCandidate {
        branch: "a".to_string(),
        path: "/t/a".to_string(),
        live: worktrees[0].copy(),
    };
    assert!(matches!(
        cleanup_temp_worktree(&worktrees, &candidate, true, false, false),
        CleanupStep::SkipDirty
    ));
    assert!(matches!(
        cleanup_temp_worktree(&worktrees, &candidate, false, false, false),
        CleanupStep::Remove(true, None)
    ));
    assert!(matches!(
        cleanup_temp_worktree(&worktrees, &candidate, true, true, true),
        CleanupStep::Remove(false, None)
    ));
    let question = cleanup_question(&worktrees, &vec![(candidate, false)], false, false);
    assert!(question.contains('1'));
}

#[test]
fn rollback_problems_are_joined() {
    let undone = |removal: Option<&str>, outcome: BranchRollback| {
        rollback_created_temp_branch("/wt/b", "b", "1", removal, &outcome, "first")
    };
    assert_eq!(undone(None, BranchRollback::Deleted), "first");
    assert_eq!(undone(None, BranchRollback::Kept(None)), "first");
    assert_eq!(
        undone(Some("busy"), BranchRollback::Kept(Some(Some("2".to_string())))),
        "first\nAdditionally:\nFailed to roll back worktree '/wt/b': busy\nLeft branch 'b' in place for manual cleanup because its tip moved from 1 to 2."
    );
    assert_eq!(
        undone(None, BranchRollback::Kept(Some(None))),
        "first\nAdditionally:\nLeft branch 'b' in place for manual cleanup because its current tip could not be resolved after it was created at 1."
    );
    assert_eq!(
        undone(None, BranchRollback::Unseen("gone".to_string())),
        "first\nAdditionally:\nFailed to inspect branch 'b' during rollback: gone"
    );
    assert_eq!(
        undone(None, BranchRollback::Failed("locked".to_string())),
        "first\nAdditionally:\nFailed to roll back branch 'b' at 1: locked"
    );
    assert_eq!(rollback_created_worktree("/wt/b", "hook", None), "hook");
    assert_eq!(
        rollback_created_worktree("/wt/b", "hook", Some("busy")),
        "hook\nAdditionally failed to roll back worktree '/wt/b': busy"
    );
}

#[test]
fn every_worktree_has_a_row() {
    let config = config_at("/r");
    let worktrees = vec![live("/r/temp/a", Some("a")), live("/elsewhere", Some("b"))];
    let rows = list_managed_worktrees(
        &config,
        &worktrees,
        &vec![true, true],
        &vec![false, true],
        "/r/temp/a",
        &texts(&["a"]),
    )
    .unwrap();
    assert!(rows.iter().any(|r| r.path == "/r/temp/a"));
    assert!(rows.iter().any(|r| r.path == "/elsewhere"));
}

#[test]
fn lists_are_rendered() {
    assert_eq!(format_state_flags(&texts(&["clean", "current"])), "clean,current");
    let rows = vec![WorktreeListRow {
        role: "main".to_string(),
        branch: "main".to_string(),
        state: texts(&["clean"]),
        path: "/r/main".to_string(),
    }];
    let lines = render_list(&rows);
    assert!(lines.iter().any(|l| l.contains("/r/main")));
}

#[test]
fn a_cleanup_is_told_asked_and_done() {
    let worktrees = vec![
        live("/r/temp/a", Some("a")),
        live("/r/temp/b", Some("b")),
        live("/side/b", Some("b")),
        live("/r/temp/c", Some("c")),
    ];
    let candidate = |i: usize, name: &str| CleanupCandidate {
        branch: name.to_string(),
        path: worktrees[i].path.clone(),
        live: worktrees[i].clone(),
    };
    let candidates =
        vec![(candidate(0, "a"), false), (candidate(1, "b"), false), (candidate(3, "c"), true)];
    let plan = cleanup_temp_worktrees(&worktrees, &candidates, false, false).unwrap();
    assert_eq!(plan.lines[0], "Cleanup candidates:");
    assert_eq!(plan.lines[1], "  temp a                    merged         /r/temp/a");
    assert_eq!(plan.lines[3], "  temp c                    merged         /r/temp/c [dirty]");
    assert_eq!(
        plan.question,
        "Remove 3 temp worktree candidate(s) and delete branches where possible (1 checked out elsewhere)? 1 dirty candidate(s) will be skipped without --force."
    );
    assert_eq!(
        plan.steps,
        vec![
            CleanupStep::Remove(true, None),
            CleanupStep::Remove(false, Some("/side/b".to_string())),
            CleanupStep::SkipDirty,
        ]
    );
    let kept = cleanup_temp_worktrees(&worktrees, &candidates, true, true).unwrap();
    assert!(kept.steps.iter().all(|s| *s == CleanupStep::Remove(false, None)));
    assert!(cleanup_temp_worktrees(&worktrees, &vec![], true, true).is_none());
}

#[test]
fn the_review_worktree_goes_back() {
    let on = rollback_target(&Some("old".to_string()), "");
    assert_eq!(on, RollbackTarget::Branch("old".to_string()));
    assert_eq!(
        rollback_review_checkout(&on, true, false),
        texts(&["checkout", "--ignore-other-worktrees", "old"])
    );
    let off = rollback_target(&None, "1111");
    assert_eq!(off, RollbackTarget::Detached("1111".to_string()));
    assert_eq!(
        rollback_review_checkout(&off, false, false),
        texts(&["checkout", "--force", "--detach", "--ignore-other-worktrees", "1111"])
    );
    assert_eq!(
        review_not_restored("hook", "/r/review", "locked"),
        "hook\nAdditionally failed to restore worktree '/r/review': locked"
    );
}

#[test]
fn plain_worktrees_go_next_to_the_repository() {
    assert_eq!(default_add_template("/home/repo", Some("/home")), "/home/{branch}");
    assert_eq!(default_add_template("/", None), "/worktrees/{branch}");
    assert!(ensure_local_branch_is_new("b", false).is_ok());
    assert!(matches!(
        ensure_local_branch_is_new("b", true),
        Err(RoleError::BranchExists(b)) if b == "b"
    ));
    assert!(kept_branch_note("b").starts_with("Note: did not delete branch 'b'"));
    let mut config = config_at("/r");
    config.hooks.on_create.push("first".to_string());
    config.review.hooks.on_create.push("second".to_string());
    assert_eq!(global_hooks(&config, HookEvent::Create), texts(&["first"]));
}

#[test]
fn columns_are_as_wide_as_the_bytes_of_their_entries() {
    let row = WorktreeListRow {
        role: "temp".to_string(),
        branch: "\u{e9}\u{e9}\u{e9}\u{e9}".to_string(),
        state: vec![],
        path: "/p".to_string(),
    };
    let lines = render_list(&vec![row]);
    assert_eq!(lines[0], "ROLE BRANCH   STATE PATH");
    assert_eq!(lines[1], "temp \u{e9}\u{e9}\u{e9}\u{e9}     clean /p");
}
