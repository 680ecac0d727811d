use kindra::overrides::{
    check_config, check_unchanged, flag_args, indexed_paths, override_names, path_args, path_input,
    restore_contents, save_contents, save_file, skipped_paths, snapshot_state, split_paths,
    unsafe_path, Contents, FileOnDisk, OverridesConfig, OverridesError, Phase,
};
use kindra::overrides_flow::{
    after_operation, apply_current, check_enable, check_snapshot, decide_suspend, finish_removal,
    next_apply_hook, next_apply_step, next_prepare_step, operation_error, preparation_error, remove_current,
    rolls_back, ApplyStart, ApplyStep, PrepareStep, RemovalStep, RemoveStart, SuspendEnd,
    SuspendFacts, SuspendStart,
};
use kindra::worktree::hooks::HookStep;

fn texts(list: &[&str]) -> Vec<String> {
    list.iter().map(|s| s.to_string()).collect()
}

fn config(paths: &[&str], apply: &[&str]) -> OverridesConfig {
    OverridesConfig { paths: texts(paths), apply: texts(apply) }
}

#[test]
fn blank_settings_are_refused() {
    assert!(check_config(None).unwrap().is_none());
    assert!(check_config(Some(config(&["a"], &["run"]))).unwrap().is_some());
    for bad in [config(&[], &["run"]), config(&["a"], &[]), config(&[" "], &["run"]), config(&["a"], &[""])] {
        assert!(matches!(check_config(Some(bad)), Err(OverridesError::BlankConfig)));
    }
    assert_eq!(
        path_args(&texts(&["ls-files", "-z"]), &config(&["a", "b"], &["run"])),
        texts(&["ls-files", "-z", "--", "a", "b"])
    );
}

#[test]
fn paths_are_written_and_read_back() {
    let paths = texts(&["a", "dir/b"]);
    assert_eq!(path_input(&paths), "a\0dir/b\0");
    assert_eq!(split_paths(&path_input(&paths)), paths);
    assert_eq!(split_paths(""), Vec::<String>::new());
    assert_eq!(skipped_paths(&texts(&["S a", "H b", "s c"])), texts(&["a", "c"]));
    assert_eq!(
        override_names(&texts(&["b", "a"]), &texts(&["c"]), &texts(&["a"])),
        texts(&["a", "b", "c"])
    );
    assert_eq!(
        flag_args(true),
        texts(&["update-index", "--skip-worktree", "-z", "--stdin"])
    );
    assert_eq!(flag_args(false)[1], "--no-skip-worktree");
}

#[test]
fn paths_out_of_the_worktree_are_unsafe() {
    assert!(unsafe_path("/etc/passwd"));
    assert!(unsafe_path("../x"));
    assert!(unsafe_path("a/../b"));
    assert!(unsafe_path("./a"));
    assert!(unsafe_path("a/.GIT/config"));
    assert!(!unsafe_path("a/b.txt"));
    assert!(!unsafe_path(".gitignore"));
}

#[test]
fn contents_come_back_as_they_were() {
    let bytes = vec![0u8, 255, 10, 104, 105];
    let saved = save_contents(&FileOnDisk::File(bytes.clone(), 0o644));
    match &saved {
        Contents::File { data, mode } => {
            assert_eq!(data, "AP8KaGk=");
            assert_eq!(*mode, 0o644);
        }
        other => panic!("{other:?}"),
    }
    match restore_contents(&saved).unwrap() {
        FileOnDisk::File(back, mode) => {
            assert_eq!(back, bytes);
            assert_eq!(mode, 0o644);
        }
        other => panic!("{other:?}"),
    }
    assert!(matches!(
        restore_contents(&save_contents(&FileOnDisk::Missing)).unwrap(),
        FileOnDisk::Missing
    ));
    match restore_contents(&save_contents(&FileOnDisk::Symlink("there".to_string()))).unwrap() {
        FileOnDisk::Symlink(target) => assert_eq!(target, "there"),
        other => panic!("{other:?}"),
    }
    let damaged = Contents::File { data: "not base64!".to_string(), mode: 0 };
    assert!(restore_contents(&damaged).is_err());
}

#[test]
fn saved_files_know_the_index() {
    let one = save_file("a", &texts(&["a"]), &texts(&["a"]), &FileOnDisk::Missing);
    assert!(one.indexed && one.skip);
    let two = save_file("b", &texts(&["a", "b"]), &vec![], &FileOnDisk::Missing);
    let three = save_file("c", &vec![], &vec![], &FileOnDisk::Missing);
    let files = vec![one, two, three];
    assert_eq!(indexed_paths(&files, None), texts(&["a", "b"]));
    assert_eq!(indexed_paths(&files, Some(true)), texts(&["a"]));
    assert_eq!(indexed_paths(&files, Some(false)), texts(&["b"]));
    assert!(matches!(
        check_enable(false, &files),
        Err(OverridesError::UncommittedEdits)
    ));
    let state = snapshot_state(
        config(&["a"], &["run"]),
        files,
        "head\n".to_string(),
        "tree\n".to_string(),
        false,
    );
    assert_eq!(state.phase, Phase::Preparing);
    assert!(check_unchanged(&state, "head\n", "tree\n", "f").is_ok());
    assert!(matches!(
        check_unchanged(&state, "other\n", "tree\n", "f"),
        Err(OverridesError::GitChanged(_))
    ));
}

fn facts() -> SuspendFacts {
    SuspendFacts {
        saved: None,
        recovery: false,
        disabled: false,
        configured: true,
        busy: false,
        root: "/w".to_string(),
    }
}

#[test]
fn overrides_are_put_aside_once() {
    assert_eq!(decide_suspend(&facts()).unwrap(), SuspendStart::Prepare);
    let mut f = facts();
    f.configured = false;
    assert_eq!(decide_suspend(&f).unwrap(), SuspendStart::Run);
    let mut f = facts();
    f.busy = true;
    assert!(matches!(decide_suspend(&f), Err(OverridesError::BusySuspending)));
    let mut f = facts();
    f.saved = Some((Phase::Suspended, false));
    assert!(matches!(decide_suspend(&f), Err(OverridesError::Pending(_))));
    f.recovery = true;
    assert_eq!(decide_suspend(&f).unwrap(), SuspendStart::Resume);
    f.saved = Some((Phase::Preparing, true));
    assert_eq!(decide_suspend(&f).unwrap(), SuspendStart::RollBackThenRun);
    f.saved = Some((Phase::Suspended, true));
    assert_eq!(decide_suspend(&f).unwrap(), SuspendStart::FinishRemovalThenRun);
    f.busy = true;
    assert!(matches!(decide_suspend(&f), Err(OverridesError::BusyRemoving)));
    assert_eq!(after_operation(true), SuspendEnd::Keep);
    assert_eq!(after_operation(false), SuspendEnd::Apply);
}

#[test]
fn steps_are_taken_in_order() {
    assert_eq!(next_prepare_step(None), PrepareStep::Save);
    assert_eq!(next_prepare_step(Some(PrepareStep::Save)), PrepareStep::ClearFlags);
    assert_eq!(next_prepare_step(Some(PrepareStep::ClearFlags)), PrepareStep::RemoveFiles);
    assert!(!rolls_back(PrepareStep::Save));
    assert!(rolls_back(PrepareStep::RemoveFiles));
    assert_eq!(next_apply_step(Some(ApplyStep::RunHooks)), ApplyStep::SetFlags);
    assert_eq!(next_apply_step(Some(ApplyStep::RemoveMarker)), ApplyStep::RemoveState);
    assert_eq!(finish_removal(None), RemovalStep::WriteMarker);
    assert_eq!(finish_removal(Some(RemovalStep::WriteMarker)), RemovalStep::RemoveState);
}

#[test]
fn errors_are_joined() {
    assert_eq!(operation_error(None, None), None);
    assert_eq!(operation_error(Some("a"), None).as_deref(), Some("a"));
    assert_eq!(
        operation_error(Some("a"), Some("b")).as_deref(),
        Some("a\nReapplying local overrides also failed: b")
    );
    assert_eq!(
        preparation_error("a", Some("b")).as_deref(),
        Some("a\nOverride recovery also failed: b")
    );
}

#[test]
fn apply_and_remove_are_guarded() {
    assert_eq!(apply_current(true, false, false, true).unwrap(), ApplyStart::Recover);
    assert_eq!(apply_current(false, true, false, true).unwrap(), ApplyStart::Enable);
    assert_eq!(apply_current(false, false, true, true).unwrap(), ApplyStart::Renew);
    assert!(matches!(
        apply_current(true, false, true, true),
        Err(OverridesError::StaySuspended)
    ));
    assert!(matches!(
        apply_current(false, true, true, true),
        Err(OverridesError::BusyEnabling)
    ));
    assert!(matches!(
        apply_current(false, true, false, false),
        Err(OverridesError::NoConfig)
    ));
    assert_eq!(remove_current(false, true, false, true).unwrap(), RemoveStart::AlreadyDisabled);
    assert_eq!(remove_current(false, false, false, true).unwrap(), RemoveStart::Remove);
    assert!(matches!(
        remove_current(true, false, false, true),
        Err(OverridesError::RecoveryFirst)
    ));
    assert!(matches!(
        remove_current(false, false, true, true),
        Err(OverridesError::BusyRemove)
    ));
    assert!(matches!(check_snapshot(true, false), Err(OverridesError::StagedChanges)));
    assert!(matches!(check_snapshot(false, true), Err(OverridesError::SparseCheckout)));
    assert!(check_snapshot(false, false).is_ok());
    assert_eq!(
        OverridesError::Pending("/w".to_string()).message(),
        "Local overrides are suspended or awaiting recovery. Run 'kin continue' or 'kin abort' in /w."
    );
}

#[test]
fn apply_hooks_run_in_the_worktree_until_one_fails() {
    let scripts = vec!["one".to_string(), "two".to_string()];
    let step = |statuses: Vec<Option<String>>| {
        next_apply_hook(&scripts, "/wt", "b", "/wt/.git/state", false, &statuses)
    };
    match step(vec![None]) {
        HookStep::Run(call) => {
            assert_eq!(call.program, "sh");
            assert_eq!(call.args, vec!["-c".to_string(), "two".to_string()]);
            assert_eq!(call.directory, "/wt");
            assert_eq!(
                call.env,
                vec![
                    ("KINDRA_WORKTREE_PATH".to_string(), "/wt".to_string()),
                    ("KINDRA_WORKTREE_BRANCH".to_string(), "b".to_string()),
                ]
            );
        }
        other => panic!("{other:?}"),
    }
    assert!(matches!(step(vec![None, None]), HookStep::Done));
    match step(vec![Some("exit status: 1".to_string())]) {
        HookStep::Failed(text) => assert_eq!(
            text,
            "Override apply hook failed (exit status: 1). Fix the hook and run 'kin continue' in /wt. Recovery state: /wt/.git/state"
        ),
        other => panic!("{other:?}"),
    }
}
