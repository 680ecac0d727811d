use kindra::commands::commit_args::{
    has_forwarded_pathspec, insert_generated_commit_arg, option_takes_value, parse_commit_args,
    recover_interaction_flags, requires_staged_changes, CommitArgsError,
};

fn args(list: &[&str]) -> Vec<String> {
    list.iter().map(|s| s.to_string()).collect()
}

#[test]
fn parse_strips_global_yes_from_git_args() {
    let parsed = parse_commit_args(&args(&["--amend", "--yes", "--no-edit"])).unwrap();
    assert_eq!(parsed.git_commit_args, args(&["--amend", "--no-edit"]));
}

#[test]
fn parse_strips_global_no_interactive_from_git_args() {
    let parsed = parse_commit_args(&args(&["--no-interactive", "-m", "msg"])).unwrap();
    assert_eq!(parsed.git_commit_args, args(&["-m", "msg"]));
}

#[test]
fn parse_keeps_global_flags_after_double_dash_as_pathspecs() {
    let parsed =
        parse_commit_args(&args(&["-m", "msg", "--", "--yes", "--no-interactive"])).unwrap();
    assert_eq!(
        parsed.git_commit_args,
        args(&["-m", "msg", "--", "--yes", "--no-interactive"])
    );
}

#[test]
fn recover_flags_defaults_to_cli_values() {
    assert_eq!(
        recover_interaction_flags(&args(&["--amend"]), false, false),
        (false, false)
    );
}

#[test]
fn recover_flags_picks_up_yes_after_subcommand() {
    assert_eq!(
        recover_interaction_flags(&args(&["--amend", "--yes"]), false, false),
        (false, true)
    );
}

#[test]
fn recover_flags_picks_up_no_interactive_after_subcommand() {
    assert_eq!(
        recover_interaction_flags(&args(&["--no-interactive", "--amend"]), false, false),
        (true, false)
    );
}

#[test]
fn recover_flags_ors_with_cli_values() {
    assert_eq!(
        recover_interaction_flags(&args(&["--amend"]), false, true),
        (false, true)
    );
}

#[test]
fn recover_flags_ignores_tokens_after_double_dash() {
    assert_eq!(
        recover_interaction_flags(&args(&["-m", "msg", "--", "--yes"]), false, false),
        (false, false)
    );
}

#[test]
fn plain_git_options_are_forwarded_as_they_are() {
    let parsed = parse_commit_args(&args(&["-a", "-m", "a message", "file.txt"])).unwrap();
    assert_eq!(parsed.git_commit_args, args(&["-a", "-m", "a message", "file.txt"]));
    assert!(parsed.on_target.is_none());
    assert!(parsed.fixup_target.is_none());
    assert!(!parsed.force);
    assert_eq!(parsed.autostash, None);
}

#[test]
fn commit_options_of_the_tool_are_taken_out() {
    let parsed = parse_commit_args(&args(&["--on", "feature", "--force", "-m", "x"])).unwrap();
    assert_eq!(parsed.on_target, Some(Some("feature".to_string())));
    assert!(parsed.force);
    assert_eq!(parsed.git_commit_args, args(&["-m", "x"]));
    let parsed = parse_commit_args(&args(&["--fixup", "abc123"])).unwrap();
    assert_eq!(parsed.fixup_target, Some("abc123".to_string()));
}

#[test]
fn conflicting_commit_options_are_refused() {
    let err = |list: &[&str]| parse_commit_args(&args(list)).unwrap_err();
    assert!(matches!(
        err(&["--fixup", "a", "--fixup", "b"]),
        CommitArgsError::FixupTwice
    ));
    assert!(matches!(err(&["--fixup"]), CommitArgsError::FixupWithoutCommit));
    assert!(matches!(err(&["--fixup="]), CommitArgsError::FixupWithEmptyCommit));
    assert!(matches!(
        err(&["--on", "a", "--on", "b"]),
        CommitArgsError::OnTwice
    ));
    assert!(matches!(
        err(&["--interactive", "--on", "a"]),
        CommitArgsError::InteractiveAndOn
    ));
    assert!(matches!(
        err(&["--fixup", "a", "--interactive"]),
        CommitArgsError::FixupAndInteractive
    ));
    assert!(matches!(
        err(&["--fixup", "a", "--on", "b"]),
        CommitArgsError::FixupAndOn
    ));
    assert!(!err(&["--fixup"]).message().is_empty());
}

#[test]
fn generated_arguments_stand_in_front_of_pathspecs() {
    let mut list = args(&["-m", "x", "--", "file"]);
    insert_generated_commit_arg(&mut list, "--fixup=abc".to_string());
    assert_eq!(list, args(&["-m", "x", "--fixup=abc", "--", "file"]));
    let mut list = args(&["-m", "x"]);
    insert_generated_commit_arg(&mut list, "--fixup=abc".to_string());
    assert_eq!(list, args(&["-m", "x", "--fixup=abc"]));
}

#[test]
fn options_with_values_and_pathspecs_are_recognised() {
    assert!(option_takes_value("-m"));
    assert!(!option_takes_value("--amend"));
    assert!(has_forwarded_pathspec(&args(&["-m", "x", "file.txt"])));
    assert!(!has_forwarded_pathspec(&args(&["-m", "x"])));
    assert!(requires_staged_changes(&args(&["-m", "x"])));
    assert!(!requires_staged_changes(&args(&["-a", "-m", "x"])));
}
