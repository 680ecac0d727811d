use kindra::commands::pr_merge::{
    assess_pr_mergeability, decide_merge, delete_merged_remote_branch, deletion_warning,
    merge_outcome, merge_refused, next_cascade_step, parse_remote_and_branch,
    render_pr_merge_summary, retarget_child_pr_bases, CascadeStep, MergeDecision, MergeMethod,
    MergeOutcome, PrMergeArgs, PrStatusSummary, RemoteDeletion, ReviewerStatus, StackPr,
};
use kindra::commands::restack::restack_state;
use kindra::git_version::{
    ensure_git_supports_reapply_cherry_picks, ensure_git_supports_update_refs, parse_git_semver,
    GitVersionProblem,
};
use kindra::graph::CommitGraph;
use kindra::names::NameMap;
use kindra::rebase_loop::{
    decide_next, first_finish_step, next_finish_step, next_target, rebase_args,
    take_rebase_result, FinishStep, RebaseDecision,
};
use kindra::rebase_utils::{
    active_git_rebase_branch, augment_original_tip_map, branch_rebase_completed,
    branch_rebase_target, can_passively_clear_completed_state, check_worktrees,
    is_stash_reference, merge_persisted_original_tips, owned_tip_state_matches,
    passively_reconcile_rebase_state, reconcile_saved_rebase_state, resolve_stash_reference,
    restore_branch, save_state, sync_rebase_completed, RebaseError, RebaseState, ReconcileFacts,
    ReconcileMode, Reconciled,
};
use kindra::stack::StackBranch;

fn texts(list: &[&str]) -> Vec<String> {
    list.iter().map(|s| s.to_string()).collect()
}

fn branch(name: &str, id: &str) -> StackBranch {
    StackBranch { name: name.to_string(), id: id.to_string() }
}

/// base - a1 - a2 - b1, base - n1 - n2
fn graph() -> CommitGraph {
    let mut g = CommitGraph::new();
    g.insert("base".to_string(), &vec![]).unwrap();
    g.insert("a1".to_string(), &texts(&["base"])).unwrap();
    g.insert("a2".to_string(), &texts(&["a1"])).unwrap();
    g.insert("b1".to_string(), &texts(&["a2"])).unwrap();
    g.insert("n1".to_string(), &texts(&["base"])).unwrap();
    g.insert("n2".to_string(), &texts(&["n1"])).unwrap();
    g
}

fn state() -> RebaseState {
    restack_state("a", &vec![branch("b", "a1"), branch("c", "b1")], NameMap::new(), true)
}

#[test]
fn parse_git_semver_ignores_non_numeric_dot_segments() {
    let parsed = parse_git_semver("git version 2.44.0.windows.1");
    assert_eq!(parsed, Some((2, 44, 0)));
}

#[test]
fn parse_git_semver_requires_three_components() {
    let parsed = parse_git_semver("git version 2.44");
    assert_eq!(parsed, None);
}

#[test]
fn old_versions_of_git_are_refused() {
    assert!(ensure_git_supports_update_refs(Some("git version 2.44.0")).is_ok());
    let err = ensure_git_supports_update_refs(Some("git version 2.20.1")).unwrap_err();
    assert!(matches!(err.problem, GitVersionProblem::TooOld(2, 20, 1)));
    assert!(matches!(
        ensure_git_supports_update_refs(None).unwrap_err().problem,
        GitVersionProblem::Failed
    ));
    assert!(matches!(
        ensure_git_supports_reapply_cherry_picks(Some("odd")).unwrap_err().problem,
        GitVersionProblem::Unreadable(_)
    ));
    assert!(!err.message().is_empty());
}

#[test]
fn rebases_go_onto_the_new_base() {
    let s = state();
    let target = next_target(&s).unwrap().unwrap();
    assert_eq!(target.branch, "b");
    assert_eq!(target.old_parent, "a1");
    assert_eq!(target.new_base, "a");
    let args = rebase_args(true, &target);
    assert_eq!(args[0], "rebase");
    assert!(args.contains(&"--onto".to_string()));
    assert_eq!(branch_rebase_target(&s, "b").unwrap(), ("a1".to_string(), "a".to_string()));
    assert!(matches!(branch_rebase_target(&s, "zzz"), Err(RebaseError::NoParent(_))));
}

#[test]
fn finished_branches_are_skipped() {
    let mut s = state();
    let mut started = true;
    assert!(matches!(decide_next(&mut s, &mut started, true, false), RebaseDecision::Skip));
    assert_eq!(s.remaining_branches, texts(&["c"]));
    let mut s = state();
    let mut started = false;
    assert!(matches!(decide_next(&mut s, &mut started, false, false), RebaseDecision::Start));
    assert!(take_rebase_result(&mut s, &mut started, true, false).is_ok());
    assert_eq!(s.remaining_branches, texts(&["c"]));
    let mut s = state();
    let mut started = false;
    decide_next(&mut s, &mut started, false, false);
    assert!(matches!(
        take_rebase_result(&mut s, &mut started, false, true),
        Err(RebaseError::Conflict(_))
    ));
    let mut s = state();
    let mut started = false;
    decide_next(&mut s, &mut started, false, false);
    assert!(matches!(
        take_rebase_result(&mut s, &mut started, false, false),
        Err(RebaseError::NotStarted(_))
    ));
}

#[test]
fn rebases_end_where_they_began() {
    let mut s = state();
    s.remaining_branches.clear();
    s.stash_ref = Some("stash".to_string());
    s.unstage_on_restore = true;
    let mut step = first_finish_step(&s);
    let mut seen = vec![];
    while !matches!(step, FinishStep::Done) {
        seen.push(format!("{step:?}"));
        step = next_finish_step(&mut s, &step);
    }
    assert_eq!(seen.len(), 5);
    assert!(seen[0].starts_with("Checkout"));
    assert!(seen[1].starts_with("ApplyStash"));
    assert!(s.stash_ref.is_none());
    assert_eq!(restore_branch(&s), "a");
}

#[test]
fn completed_rebases_are_recognised() {
    let g = graph();
    let mut s = state();
    s.parent_id_map.insert("b".to_string(), "a1".to_string());
    s.original_commit_count_map.insert("b".to_string(), 1);
    assert!(branch_rebase_completed(&g, &s, "b", "n2", "n1", &texts(&["n2"])).unwrap());
    assert!(!branch_rebase_completed(&g, &s, "b", "a2", "n1", &texts(&["a2", "a1"])).unwrap());
    assert!(sync_rebase_completed(&g, "n2", "n1"));
    assert!(!sync_rebase_completed(&g, "a2", "n1"));
    let mut done = state();
    done.remaining_branches.clear();
    assert!(can_passively_clear_completed_state(&done, &Some("a".to_string())));
    assert!(!can_passively_clear_completed_state(&done, &Some("z".to_string())));
}

fn facts(completed: Vec<bool>) -> ReconcileFacts {
    ReconcileFacts {
        git_rebase_in_progress: false,
        active_matches: false,
        sync_done: false,
        completed,
        current_branch: Some("a".to_string()),
    }
}

#[test]
fn saved_states_are_reconciled() {
    let mut s = state();
    let all = reconcile_saved_rebase_state(&mut s, ReconcileMode::Passive, &facts(vec![true, true]));
    assert!(matches!(all, Reconciled::Clear));
    assert!(!passively_reconcile_rebase_state(all));
    let mut s = state();
    let some =
        reconcile_saved_rebase_state(&mut s, ReconcileMode::Continue, &facts(vec![true, false]));
    assert!(matches!(some, Reconciled::Keep { save: true }));
    assert_eq!(s.remaining_branches, texts(&["c"]));
    let mut s = state();
    let mut foreign = facts(vec![false, false]);
    foreign.git_rebase_in_progress = true;
    assert!(matches!(
        reconcile_saved_rebase_state(&mut s, ReconcileMode::Continue, &foreign),
        Reconciled::Mismatch
    ));
    foreign.active_matches = true;
    assert!(matches!(
        reconcile_saved_rebase_state(&mut s, ReconcileMode::Continue, &foreign),
        Reconciled::Active
    ));
}

#[test]
fn known_tips_stay() {
    let mut tips = NameMap::new();
    tips.insert("a".to_string(), "new".to_string());
    let mut earlier = NameMap::new();
    earlier.insert("a".to_string(), "old".to_string());
    earlier.insert("b".to_string(), "old".to_string());
    merge_persisted_original_tips(&mut tips, &earlier);
    assert_eq!(tips.get("a").unwrap(), "new");
    assert_eq!(tips.get("b").unwrap(), "old");
    let (one, two) = ("1".repeat(40), "2".repeat(40));
    let mut g = CommitGraph::new();
    g.insert(one.clone(), &vec![]).unwrap();
    g.insert(two.clone(), &vec![one.clone()]).unwrap();
    let mut s = state();
    s.parent_id_map.insert("b".to_string(), one.clone());
    s.original_tip_map.insert("b".to_string(), two.clone());
    let locals = vec![branch("alias", &two), branch("below", &one), branch("b", &one)];
    let more = augment_original_tip_map(&g, &locals, &s);
    assert_eq!(more.get("alias").unwrap(), &two);
    assert_eq!(more.get("b").unwrap(), &two);
    assert!(more.get("below").is_none());
    assert!(!owned_tip_state_matches(&g, &locals, &s));
    save_state(&g, &locals, &mut s, &earlier);
    assert_eq!(s.original_tip_map.get("a").unwrap(), "old");
    assert_eq!(s.original_tip_map.get("b").unwrap(), &two);
    assert_eq!(s.original_tip_map.get("alias").unwrap(), &two);
    assert_eq!(s.owned_tip_map.get("b").unwrap(), &one);
    assert!(owned_tip_state_matches(&g, &locals, &s));
    let moved = vec![branch("alias", &two), branch("below", &one), branch("b", &two)];
    assert!(!owned_tip_state_matches(&g, &moved, &s));
}

#[test]
fn rebases_of_git_are_recognised() {
    assert_eq!(
        active_git_rebase_branch(Some("refs/heads/b\n"), None).as_deref(),
        Some("b")
    );
    assert_eq!(active_git_rebase_branch(None, None), None);
    let porcelain = "worktree /here\nbranch refs/heads/a\n\nworktree /there\nbranch refs/heads/b\n";
    assert!(check_worktrees(&texts(&["b"]), true, "/here\n", porcelain).is_ok());
    assert!(check_worktrees(&texts(&["a"]), false, "/here\n", porcelain).is_ok());
    assert!(matches!(
        check_worktrees(&texts(&["b"]), false, "/here\n", porcelain),
        Err(RebaseError::CheckedOut(_, _))
    ));
}

#[test]
fn stashes_are_found_by_their_messages() {
    assert!(is_stash_reference("stash@{1}"));
    assert!(!is_stash_reference("my message"));
    assert_eq!(
        resolve_stash_reference("kin", "stash@{0}\tOn a: other\nstash@{1}\tOn a: kin\n").unwrap(),
        "stash@{1}"
    );
    assert!(matches!(
        resolve_stash_reference("kin", ""),
        Err(RebaseError::NoStash(_))
    ));
}

#[test]
fn merge_method_maps_to_gh_flag() {
    assert_eq!(MergeMethod::Squash.gh_flag(), "--squash");
    assert_eq!(MergeMethod::Rebase.gh_flag(), "--rebase");
    assert_eq!(MergeMethod::Merge.gh_flag(), "--merge");
}

fn pair(a: &str, b: &str) -> Option<(String, String)> {
    Some((a.to_string(), b.to_string()))
}

#[test]
fn parse_remote_and_branch_splits_on_first_slash() {
    assert_eq!(parse_remote_and_branch("origin/feature"), pair("origin", "feature"));
    // Branch names may contain slashes; the remote is only the first segment.
    assert_eq!(
        parse_remote_and_branch("origin/team/feature"),
        pair("origin", "team/feature")
    );
    assert_eq!(parse_remote_and_branch("upstream/main"), pair("upstream", "main"));
}

#[test]
fn parse_remote_and_branch_rejects_malformed() {
    assert_eq!(parse_remote_and_branch("feature"), None);
    assert_eq!(parse_remote_and_branch(""), None);
    assert_eq!(parse_remote_and_branch("origin/"), None);
    assert_eq!(parse_remote_and_branch("/feature"), None);
}

fn summary() -> PrStatusSummary {
    PrStatusSummary {
        is_draft: false,
        mergeable: "MERGEABLE".to_string(),
        merge_state_status: "CLEAN".to_string(),
        review_decision: Some("APPROVED".to_string()),
        reviewer_statuses: vec![],
        unresolved_comments: 0,
        running_checks: vec![],
        failed_checks: vec![],
        head_ref_oid: None,
    }
}

#[test]
fn ready_requests_are_merged_and_blocked_ones_never() {
    assert!(matches!(decide_merge(&assess_pr_mergeability(&summary())), MergeDecision::Merge));
    let mut waiting = summary();
    waiting.review_decision = Some("CHANGES_REQUESTED".to_string());
    waiting.reviewer_statuses = vec![
        ReviewerStatus { reviewer: "ann".to_string(), status: "Approved".to_string() },
        ReviewerStatus { reviewer: "bob".to_string(), status: "PENDING".to_string() },
    ];
    waiting.running_checks = texts(&["ci"]);
    waiting.unresolved_comments = 2;
    let open = assess_pr_mergeability(&waiting);
    assert_eq!(
        open.outstanding_reviews,
        texts(&["bob: PENDING", "overall review decision: changes requested"])
    );
    assert!(matches!(decide_merge(&open), MergeDecision::Ask));
    assert_eq!(
        render_pr_merge_summary("a", 7, &open),
        "PR #7 for a is not ready to merge:\n  - Unresolved review comments: 2\n  - Outstanding reviews:\n    - bob: PENDING\n    - overall review decision: changes requested\n  - Running checks: ci\n  - GitHub would still allow merging this PR."
    );
    let mut draft = summary();
    draft.is_draft = true;
    match decide_merge(&assess_pr_mergeability(&draft)) {
        MergeDecision::Prevented(reason) => assert_eq!(reason, "PR is still marked as draft"),
        other => panic!("{other:?}"),
    }
    let mut dirty = summary();
    dirty.mergeable = "CONFLICTING".to_string();
    assert!(matches!(
        decide_merge(&assess_pr_mergeability(&dirty)),
        MergeDecision::Prevented(r) if r == "GitHub mergeability is CONFLICTING"
    ));
    let mut behind = summary();
    behind.merge_state_status = "BEHIND".to_string();
    assert!(matches!(
        decide_merge(&assess_pr_mergeability(&behind)),
        MergeDecision::Prevented(r) if r == "GitHub merge state is BEHIND"
    ));
    assert_eq!(merge_refused(7, Some("x")), "Merge prevented for PR #7: x");
    assert!(matches!(merge_outcome("merged"), MergeOutcome::Merged));
    assert!(matches!(merge_outcome("OPEN"), MergeOutcome::Pending(s) if s == "OPEN"));
}

#[test]
fn merges_cascade_in_order() {
    let args = |no_cascade, no_delete| PrMergeArgs { method: None, no_cascade, no_delete };
    assert_eq!(next_cascade_step(None, &args(true, true)), CascadeStep::Retarget);
    assert_eq!(
        next_cascade_step(Some(CascadeStep::Retarget), &args(true, false)),
        CascadeStep::Done
    );
    assert_eq!(
        next_cascade_step(Some(CascadeStep::Retarget), &args(false, false)),
        CascadeStep::Restack
    );
    assert_eq!(
        next_cascade_step(Some(CascadeStep::Restack), &args(false, false)),
        CascadeStep::DeleteRemote
    );
    assert_eq!(
        next_cascade_step(Some(CascadeStep::Restack), &args(false, true)),
        CascadeStep::Done
    );
    let branches = vec![
        (branch("a", "a2"), "origin/a".to_string()),
        (branch("b", "b1"), "origin/b".to_string()),
    ];
    let prs = vec![
        StackPr { branch_name: "a".to_string(), number: 1 },
        StackPr { branch_name: "b".to_string(), number: 2 },
    ];
    let (base, children) = retarget_child_pr_bases(
        &graph(),
        "n2",
        "origin/main",
        &branches,
        &prs,
        "a",
        &texts(&["origin"]),
    );
    assert_eq!(base, "main");
    assert_eq!(children, vec![(2, "b".to_string())]);
}

#[test]
fn base_branches_are_not_deleted_on_the_remote() {
    let list = vec![
        ("a".to_string(), "origin/a".to_string()),
        ("b".to_string(), "origin/main".to_string()),
        ("c".to_string(), "odd".to_string()),
    ];
    let protected = Ok(texts(&["main"]));
    assert!(matches!(
        delete_merged_remote_branch(&list, "a", &protected),
        RemoteDeletion::Delete(r, b) if r == "origin" && b == "a"
    ));
    let base = delete_merged_remote_branch(&list, "b", &protected);
    assert!(matches!(base, RemoteDeletion::IsBase(_, _)));
    assert!(deletion_warning(&base, "b").is_some());
    assert!(matches!(
        delete_merged_remote_branch(&list, "c", &protected),
        RemoteDeletion::Unreadable(_)
    ));
    assert!(matches!(
        delete_merged_remote_branch(&list, "z", &protected),
        RemoteDeletion::NoUpstream
    ));
    assert!(matches!(
        delete_merged_remote_branch(&list, "a", &Err("why".to_string())),
        RemoteDeletion::BasesUnknown(_, _, _)
    ));
}
