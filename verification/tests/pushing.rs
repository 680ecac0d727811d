use kindra::commands::guard::{push_scope, PushScope, StartError};
use kindra::commands::push::{
    after_selection, allow_base_push_key, base_push_allowed, foreign_base_target,
    push_stack_branches, resolve_remote, tracked_push_target, BaseGuard, BranchStatus, PushNext,
    PushStart, RemoteError,
};
use kindra::commands::push_send::{
    announce_push, own_refs, perform_push, protected_target_error, push_args,
    push_rejected_by_lease, report_push_divergence, Divergence, PushPlan,
};

fn texts(list: &[&str]) -> Vec<String> {
    list.iter().map(|s| s.to_string()).collect()
}

fn guard(explicit: &[&str]) -> BaseGuard {
    BaseGuard {
        protected: texts(&["main", "master"]),
        explicit: texts(explicit),
        configured: texts(&["configured"]),
    }
}

#[test]
fn a_branch_never_stands_in_for_a_base_branch() {
    let protected = texts(&["main"]);
    assert_eq!(foreign_base_target("feature", "main", &protected).as_deref(), Some("main"));
    assert_eq!(foreign_base_target("main", "main", &protected), None);
    assert_eq!(foreign_base_target("feature", "feature", &protected), None);
    assert!(base_push_allowed("a", &texts(&["a"]), &vec![]));
    assert!(base_push_allowed("a", &vec![], &texts(&["a"])));
    assert!(!base_push_allowed("a", &texts(&["b"]), &vec![]));
    assert_eq!(allow_base_push_key("a"), "branch.a.kinAllowBasePush");
}

#[test]
fn mistracked_branches_are_refused_in_the_plan() {
    let wrong = BranchStatus::with_upstream("feature".to_string(), "origin", "main");
    match perform_push(&vec![wrong], &guard(&[])) {
        PushPlan::Refused(v) => {
            assert_eq!(
                v,
                vec![("feature".to_string(), "origin".to_string(), "main".to_string())]
            );
        }
        other => panic!("{other:?}"),
    }
    let wrong = BranchStatus::with_upstream("feature".to_string(), "origin", "main");
    match perform_push(&vec![wrong], &guard(&["feature"])) {
        PushPlan::Push(groups, overridden) => {
            assert_eq!(groups.len(), 1);
            assert_eq!(overridden.len(), 1);
            assert_eq!(
                announce_push(&groups[0].remote, &groups[0].refs, false, &overridden),
                texts(&[
                    "Pushing 1 branches to origin...",
                    "  feature -> origin/main  (override: allow-base-push)",
                ])
            );
        }
        other => panic!("{other:?}"),
    }
    assert!(matches!(perform_push(&vec![], &guard(&[])), PushPlan::Nothing));
    let nowhere = BranchStatus::without_upstream("x".to_string());
    assert!(matches!(perform_push(&vec![nowhere], &guard(&[])), PushPlan::NoTargets));
}

#[test]
fn references_are_grouped_by_remote() {
    let list = vec![
        BranchStatus::with_upstream("a".to_string(), "origin", "a"),
        BranchStatus::with_upstream("b".to_string(), "fork", "b"),
        BranchStatus::with_upstream("c".to_string(), "origin", "c"),
    ];
    match perform_push(&list, &guard(&[])) {
        PushPlan::Push(groups, _) => {
            assert_eq!(groups.len(), 2);
            assert_eq!(groups[0].remote, "origin");
            assert_eq!(
                push_args(false, &groups[0].remote, &groups[0].refs),
                texts(&[
                    "push",
                    "--atomic",
                    "--force-with-lease",
                    "--force-if-includes",
                    "origin",
                    "a:a",
                    "c:c",
                ])
            );
            assert_eq!(groups[1].remote, "fork");
        }
        other => panic!("{other:?}"),
    }
    let own = own_refs(&texts(&["x"]));
    assert_eq!(
        push_args(true, "origin", &own),
        texts(&[
            "push",
            "--atomic",
            "--force-with-lease",
            "--force-if-includes",
            "-u",
            "origin",
            "x:x",
        ])
    );
}

#[test]
fn branches_without_a_place_are_asked_about() {
    let list = vec![
        ("z".to_string(), None),
        (
            "a".to_string(),
            Some(BranchStatus::with_upstream("a".to_string(), "origin", "main")),
        ),
        (
            "b".to_string(),
            Some(BranchStatus::with_upstream("b".to_string(), "origin", "b")),
        ),
    ];
    let choice = match push_stack_branches(&list, &guard(&[])) {
        PushStart::Ask(choice) => choice,
        other => panic!("{other:?}"),
    };
    assert_eq!(choice.without_upstream.len(), 2);
    assert_eq!(choice.without_upstream[0].name, "a");
    assert_eq!(
        choice.without_upstream[0].line(),
        "a (tracks base branch 'origin/main' — select to repoint at its own remote branch)"
    );
    assert_eq!(choice.without_upstream[1].line(), "z (no upstream)");
    assert_eq!(choice.to_push[0].line(), "b -> origin/b");
    // The branch that tracks a base branch has to be chosen.
    assert!(matches!(after_selection(&choice, &vec![]), PushNext::Refused(_)));
    match after_selection(&choice, &texts(&["a"])) {
        PushNext::Push(rest) => {
            assert_eq!(rest.len(), 1);
            assert_eq!(rest[0].name, "b");
        }
        other => panic!("{other:?}"),
    }
    assert!(matches!(push_stack_branches(&vec![], &guard(&[])), PushStart::Nothing));
    let fine = vec![(
        "b".to_string(),
        Some(BranchStatus::with_upstream("b".to_string(), "origin", "b")),
    )];
    assert!(matches!(push_stack_branches(&fine, &guard(&[])), PushStart::Push(_)));
    let only = vec![("z".to_string(), None)];
    match push_stack_branches(&only, &guard(&[])) {
        PushStart::Ask(choice) => {
            assert!(matches!(after_selection(&choice, &vec![]), PushNext::NothingSelected));
        }
        other => panic!("{other:?}"),
    }
}

#[test]
fn tracked_places_are_read_from_references() {
    let s = tracked_push_target("a", "refs/remotes/origin/team/a", None, "origin");
    assert_eq!(s.tracked_ref.as_deref(), Some("team/a"));
    assert_eq!(s.display_upstream.as_deref(), Some("refs/remotes/origin/team/a"));
    let local = tracked_push_target("a", "refs/heads/b", Some("b".to_string()), ".");
    assert_eq!(local.tracked_ref.as_deref(), Some("b"));
    assert_eq!(local.display_upstream.as_deref(), Some("b"));
}

#[test]
fn the_remote_is_origin_or_the_only_one() {
    assert_eq!(resolve_remote(&texts(&["fork", "origin"])).unwrap(), "origin");
    assert_eq!(resolve_remote(&texts(&["fork"])).unwrap(), "fork");
    assert!(matches!(resolve_remote(&vec![]), Err(RemoteError::NoRemote)));
    assert!(matches!(
        resolve_remote(&texts(&["a", "b"])),
        Err(RemoteError::Ambiguous)
    ));
    assert_eq!(RemoteError::NoRemote.message(), "No remotes configured.");
}

#[test]
fn lease_rejections_are_recognised() {
    assert!(push_rejected_by_lease("! [Rejected] a -> a (stale info)"));
    assert!(push_rejected_by_lease("hint: NON-FAST-FORWARD"));
    assert!(!push_rejected_by_lease("fatal: Authentication failed"));
    let refs = vec![("a".to_string(), "a".to_string()), ("b".to_string(), "c".to_string())];
    let lines = report_push_divergence(
        "origin",
        &refs,
        &vec![Divergence::Counts(2, 1), Divergence::NotFetched],
    );
    assert_eq!(lines[4], "  a: ↑2 ↓1 vs origin/a");
    assert_eq!(lines[5], "  b: no local remote-tracking ref for origin/c yet");
    assert_eq!(lines.len(), 9);
}

#[test]
fn refusals_say_how_to_go_on() {
    let text = protected_target_error(&vec![(
        "feature".to_string(),
        "origin".to_string(),
        "main".to_string(),
    )]);
    assert!(text.starts_with("Refusing to push: these branches track a base branch"));
    assert!(text.contains(
        "  feature -> origin/main (would overwrite main with feature's history)\n"
    ));
    assert!(text.contains("'git push -u origin feature'\n"));
    assert!(text.contains("'git config branch.feature.kinAllowBasePush true'.\n"));
    assert!(text.ends_with("prevents it recurring."));
}

#[test]
fn the_base_itself_is_pushed_alone() {
    assert_eq!(push_scope(Some("main"), Some("main")).unwrap(), PushScope::Base);
    assert_eq!(push_scope(Some("a"), Some("main")).unwrap(), PushScope::Stack);
    assert_eq!(push_scope(None, Some("main")).unwrap(), PushScope::Stack);
    assert!(matches!(push_scope(None, None), Err(StartError::NoBase)));
}
