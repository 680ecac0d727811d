use kindra::commands::reorder::{
    current_parent_name_map, original_commit_counts, parse_parent_map, plan_graph_reorder, reorder,
    reorder_buffer, CountError, ReorderError, ReorderFailure, ReorderOutcome,
};
use kindra::commands::run::{
    after_visit, begin_run, component_anchor, end_run, export_branch_env, mark_aborted,
    next_branch, original_checkout, run_summary, take_autostash, AfterVisit, Autostash, RunArgs,
    RunEnd, RunState, RunStatus, RunTally, Visit,
};
use kindra::commands::split::{
    check_commits, parse_split_rows, read_split, resolve_split_rows, short, split_buffer, split_tip,
    take_branch_row, CommitInfo, SplitError, SplitRows, SplitTip,
};
use kindra::commands::split_apply::{
    apply_split, branches_to_delete, reattach_target, restore_ops, snapshot_branches, split_ops,
    SplitOp,
};
use kindra::commands::split_changes::{
    overwrites_to_ask, split_action, split_changes, BranchChange, SplitAction,
};
use kindra::commands::tree::{
    calculate_sync_status, commit_text, empty_stack_line, remote_sync_status, remote_text,
    render_tree, show_line, CountOverflow, RenderOptions, Segment, TreeArgs, TreeColor, TreeStyle,
};
use kindra::commands::tree_shape::{
    build_tree_structure, BranchCommit, PrStatus, RemoteSyncStatus, SyncStatus,
};
use kindra::editor::{
    draft_key_hash, draft_path, editor_command, non_blank, resolve_editor, select_editor,
    windows_editor_command, Draft, DraftStart,
};
use kindra::graph::CommitGraph;
use kindra::head::Head;
use kindra::names::NameMap;
use kindra::stack::StackBranch;

fn texts(list: &[&str]) -> Vec<String> {
    list.iter().map(|s| s.to_string()).collect()
}

fn branch(name: &str, id: &str) -> StackBranch {
    StackBranch { name: name.to_string(), id: id.to_string() }
}

/// base - a1 - a2 - b1, a2 - c1, base - u1
fn graph() -> CommitGraph {
    let mut g = CommitGraph::new();
    g.insert("base".to_string(), &vec![]).unwrap();
    g.insert("a1".to_string(), &texts(&["base"])).unwrap();
    g.insert("a2".to_string(), &texts(&["a1"])).unwrap();
    g.insert("b1".to_string(), &texts(&["a2"])).unwrap();
    g.insert("c1".to_string(), &texts(&["a2"])).unwrap();
    g.insert("u1".to_string(), &texts(&["base"])).unwrap();
    g
}

fn stack() -> Vec<StackBranch> {
    vec![branch("a", "a2"), branch("b", "b1"), branch("c", "c1")]
}

#[test]
fn test_branch_commit_display() {
    let commit = BranchCommit {
        hash: "abc1234".to_string(),
        subject: "Add login".to_string(),
    };
    assert_eq!(
        format!("{} \"{}\"", commit.hash, commit.subject),
        "abc1234 \"Add login\""
    );
    assert_eq!(commit_text(&commit), "abc1234 \"Add login\"");
}

#[test]
fn test_remote_sync_status_display() {
    let status = RemoteSyncStatus {
        ahead: 2,
        behind: 0,
    };
    assert_eq!(format!("[↑{} ↓{}]", status.ahead, status.behind), "[↑2 ↓0]");
    assert_eq!(remote_text(&status), "[↑2 ↓0]");
}

#[test]
fn test_sync_status_variants() {
    assert_eq!(format!("{:?}", SyncStatus::InSync), "InSync");
    assert_eq!(format!("{:?}", SyncStatus::NeedsRebase), "NeedsRebase");
    assert_eq!(format!("{:?}", SyncStatus::Merged), "Merged");
}

#[test]
fn trees_are_drawn_with_every_branch() {
    let tree = build_tree_structure(&graph(), &stack(), "base");
    assert_eq!(tree.get("a").unwrap().depth, 0);
    assert_eq!(tree.get("b").unwrap().depth, 1);
    assert_eq!(tree.get("b").unwrap().parent_name.as_deref(), Some("a"));
    assert_eq!(tree.get("a").unwrap().children, texts(&["b", "c"]));
    assert!(tree.get("c").unwrap().is_last_child);
    let options = RenderOptions { show_commits: false, show_remote: false, show_pr: false };
    let lines = render_tree(&tree, "main", &Some("b".to_string()), &options);
    let plain: Vec<String> = lines
        .iter()
        .map(|l| l.parts.iter().map(|p| p.text.as_str()).collect::<String>())
        .collect();
    assert_eq!(plain, texts(&["main", "└─ a", "    ├─ b", "    └─ c"]));
    assert_eq!(lines[2].parts[1].style, TreeStyle::Bold);
    assert_eq!(lines[1].parts[1].style, TreeStyle::Plain);
    assert_eq!(empty_stack_line("main"), "main (empty stack)");
}

#[test]
fn trees_show_what_is_known() {
    let mut full = NameMap::new();
    let tree = build_tree_structure(&graph(), &vec![branch("a", "a2")], "base");
    let mut a = tree.get("a").map(|t| kindra::commands::tree_shape::TreeBranch {
        branch: t.branch.copy(),
        parent_name: None,
        children: vec![],
        depth: t.depth,
        is_last_child: t.is_last_child,
        is_current: false,
        commits: vec![],
        remote_sync: None,
        pr_status: None,
        sync_status: None,
    });
    let node = a.as_mut().unwrap();
    node.pr_status = Some(PrStatus { number: 7, is_draft: true });
    node.remote_sync = Some(RemoteSyncStatus { ahead: 1, behind: 0 });
    node.sync_status = Some(SyncStatus::NeedsRebase);
    node.commits = vec![BranchCommit { hash: "1234567".to_string(), subject: "x".to_string() }];
    full.insert("a".to_string(), a.unwrap());
    let args = TreeArgs { commits: false, remote: false, pr: false, verbose: true, upstream: None };
    assert!(args.options().needs_details());
    let lines = render_tree(&full, "main", &None, &args.options());
    let text: String = lines[1].parts.iter().map(|p| p.text.as_str()).collect();
    assert_eq!(text, "└─ a #7 DRAFT [↑1 ↓0] [Needs Rebase] 1234567 \"x\"");
    assert_eq!(lines[1].parts[3].style, TreeStyle::Color(TreeColor::Yellow));
    assert_eq!(lines[1].parts[5].style, TreeStyle::Color(TreeColor::Cyan));
}

#[test]
fn lines_are_written_in_their_styles() {
    let part = |text: &str, style| Segment { text: text.to_string(), style };
    assert_eq!(show_line(&vec![part("x", TreeStyle::Bold)]), "\u{1b}[1mx\u{1b}[0m");
    assert_eq!(show_line(&vec![part("x", TreeStyle::Plain)]), "x");
    let green = show_line(&vec![part("x", TreeStyle::Color(TreeColor::Green))]);
    assert!(green == "\u{1b}[38;5;10mx\u{1b}[39m" || green == "\u{1b}[mx\u{1b}[m");
    for (color, code) in [
        (TreeColor::Yellow, "11"),
        (TreeColor::Cyan, "14"),
        (TreeColor::Magenta, "13"),
        (TreeColor::Red, "9"),
        (TreeColor::DarkGrey, "8"),
    ] {
        let shown = show_line(&vec![part("x", TreeStyle::Color(color))]);
        assert!(
            shown == format!("\u{1b}[38;5;{code}mx\u{1b}[39m") || shown == "\u{1b}[mx\u{1b}[m"
        );
    }
}

#[test]
fn branches_are_in_sync_or_not() {
    let g = graph();
    assert_eq!(calculate_sync_status(&g, "base", "u1", None), SyncStatus::Merged);
    assert_eq!(calculate_sync_status(&g, "b1", "u1", Some(("a2", "a2"))), SyncStatus::InSync);
    assert_eq!(
        calculate_sync_status(&g, "b1", "u1", Some(("u1", "base"))),
        SyncStatus::NeedsRebase
    );
    assert_eq!(calculate_sync_status(&g, "b1", "u1", None), SyncStatus::NeedsRebase);
    assert_eq!(remote_sync_status(1, 2).unwrap().behind, 2);
    let huge = usize::MAX;
    assert!(matches!(remote_sync_status(huge, 0), Err(CountOverflow::Ahead)));
    assert!(matches!(remote_sync_status(0, huge), Err(CountOverflow::Behind)));
}

#[test]
fn draft_path_sanitizes_branch_separators() {
    let p = draft_path("/repo/.git", "pr-body-feature/foo bar");
    let name = p.rsplit('/').next().unwrap();
    // Readable sanitized stem, plus an 8-hex disambiguator, under the drafts dir.
    assert!(p.starts_with("/repo/.git/kindra-drafts"));
    assert!(
        name.starts_with("pr-body-feature-foo-bar-") && name.ends_with(".md"),
        "unexpected draft filename: {name}"
    );
}

#[test]
fn draft_path_avoids_collisions_between_keys_that_sanitize_alike() {
    let git = "/repo/.git";
    // These sanitize to the same readable stem but must not share a file.
    let a = draft_path(git, "pr-body-feature/foo");
    let b = draft_path(git, "pr-body-feature-foo");
    assert_ne!(a, b, "distinct branch names must map to distinct drafts");
    // Same key is stable across calls (so recovery finds the right file).
    assert_eq!(a, draft_path(git, "pr-body-feature/foo"));
}

#[test]
fn draft_hashes_are_stable() {
    // FNV-1a of nothing is the offset basis, and of "a" 0xaf63dc4c8601ec8c.
    assert_eq!(draft_key_hash(""), 0xcbf2_9ce4 ^ 0x8422_2325);
    assert_eq!(draft_key_hash("a"), 0xaf63_dc4c ^ 0x8601_ec8c);
    assert_eq!(draft_path("/g", "a"), format!("/g/kindra-drafts/a-{:08x}.md", 0xaf63_dc4cu32 ^ 0x8601_ec8c));
}

#[test]
fn select_editor_follows_full_precedence() {
    let s = |v: &str| Some(v.to_string());

    // Highest wins when present.
    assert_eq!(
        select_editor(s("g"), s("c"), s("vis"), s("ed")),
        "g",
        "GIT_EDITOR outranks all"
    );
    // Falls through one source at a time.
    assert_eq!(
        select_editor(None, s("c"), s("vis"), s("ed")),
        "c",
        "core.editor is next"
    );
    assert_eq!(
        select_editor(None, None, s("vis"), s("ed")),
        "vis",
        "VISUAL outranks EDITOR"
    );
    assert_eq!(
        select_editor(None, None, None, s("ed")),
        "ed",
        "EDITOR is used when nothing higher is set"
    );
    // Hardcoded final fallback when every source is absent.
    assert_eq!(
        select_editor(None, None, None, None),
        "vi",
        "vi is the last-resort default"
    );
}

#[test]
fn drafts_are_never_written_over() {
    let draft = Draft::new("/d/x.md".to_string());
    assert_eq!(draft.path(), "/d/x.md");
    assert_eq!(draft.recover(Some("   \n".to_string())), None);
    assert_eq!(draft.recover(Some("real body".to_string())).as_deref(), Some("real body"));
    assert_eq!(draft.edit_or_resume(Some("SAVED".to_string())), DraftStart::Reopen);
    assert_eq!(draft.edit_or_resume(None), DraftStart::Write);
    assert_eq!(non_blank(Some(" ".to_string())), None);
    assert_eq!(
        resolve_editor(Some(" ".to_string()), None, Some("vis".to_string()), None),
        "vis"
    );
    assert_eq!(
        editor_command("code --wait", "/d/x.md"),
        texts(&["-c", "code --wait \"$@\"", "code --wait", "/d/x.md"])
    );
    assert_eq!(
        windows_editor_command("notepad", "C:/d x.md"),
        texts(&["/C", "notepad \"C:/d x.md\""])
    );
}

#[test]
fn an_unedited_reorder_changes_nothing() {
    let g = graph();
    let parents = current_parent_name_map(&g, &stack(), "base", "main");
    assert_eq!(parents.get("a").unwrap(), "main");
    assert_eq!(parents.get("b").unwrap(), "a");
    let text = reorder_buffer(&stack(), &parents, "main", "b").unwrap();
    assert!(text.starts_with("branch a parent main\nbranch b  # current\nbranch c parent a\n"));
    let edited = parse_parent_map(&text, &stack(), "main").unwrap();
    assert!(edited.same_texts(&parents));
    let outcome = reorder(&g, &stack(), "base", "main", "b", parents, edited, false).unwrap();
    assert!(matches!(outcome, ReorderOutcome::Unchanged));
}

#[test]
fn reordered_branches_follow_their_parents() {
    let g = graph();
    let parents = current_parent_name_map(&g, &stack(), "base", "main");
    let edited = parse_parent_map(
        "branch c parent main\nbranch a\nbranch b parent a\n",
        &stack(),
        "main",
    )
    .unwrap();
    assert_eq!(plan_graph_reorder(&stack(), "main", &edited).unwrap(), texts(&["c", "a", "b"]));
    match reorder(&g, &stack(), "base", "main", "b", parents, edited, true).unwrap() {
        ReorderOutcome::Rebase(state) => {
            assert_eq!(state.remaining_branches, texts(&["c", "a", "b"]));
            assert_eq!(state.parent_id_map.get("c").unwrap(), "a2");
            assert_eq!(state.new_base_map.get("a").unwrap(), "c");
            assert_eq!(*state.original_commit_count_map.get("a").unwrap(), 2);
            assert_eq!(state.original_tip_map.get("c").unwrap(), "c1");
            assert_eq!(state.original_tip_map.len(), 3);
        }
        ReorderOutcome::Unchanged => panic!("changed"),
    }
}

#[test]
fn circles_are_refused() {
    let g = graph();
    let parents = current_parent_name_map(&g, &stack(), "base", "main");
    let edited = parse_parent_map(
        "branch a parent b\nbranch b parent a\nbranch c parent main\n",
        &stack(),
        "main",
    )
    .unwrap();
    match reorder(&g, &stack(), "base", "main", "b", parents, edited, true) {
        Err(ReorderFailure::Cycle(e)) => {
            assert_eq!(e.message(), "Cycles and self-parenting are not allowed.");
        }
        _ => panic!("a circle"),
    }
    assert!(matches!(
        original_commit_counts(&g, &stack(), &NameMap::new()),
        Err(CountError::NoParent(_))
    ));
}

#[test]
fn bad_rows_are_refused() {
    let read = |text: &str| parse_parent_map(text, &stack(), "main").unwrap_err();
    assert!(matches!(read("branch a\n"), ReorderError::FirstRow(_)));
    assert!(matches!(read("pick a\n"), ReorderError::BadLine(_)));
    assert!(matches!(read("branch z parent main\n"), ReorderError::NotInStack(_)));
    assert!(matches!(read("branch a parent z\n"), ReorderError::UnknownParent(_, _)));
    assert!(matches!(
        read("branch a parent main\nbranch a parent main\n"),
        ReorderError::Duplicate(_)
    ));
    assert_eq!(
        read("branch a parent main # only one\n").message(),
        "Edited reorder graph is missing branch rows for: b, c"
    );
    assert_eq!(
        reorder_buffer(&stack(), &NameMap::new(), "main", "a").unwrap_err(),
        "a"
    );
}

fn infos() -> Vec<CommitInfo> {
    vec![
        CommitInfo { id: "aaaaaaa1".repeat(5), summary: "one".to_string() },
        CommitInfo { id: "bbbbbbb2".repeat(5), summary: "two".to_string() },
    ]
}

#[test]
fn an_unedited_split_changes_nothing() {
    let list = infos();
    let path = vec![branch("x", &list[0].id), branch("y", &list[1].id)];
    let text = split_buffer(&list, &path, "main", "y");
    assert!(text.starts_with("aaaaaaa one\nbranch x\nbbbbbbb two\nbranch y\n"));
    let rows = parse_split_rows(&text).unwrap();
    check_commits(&list, &rows.commits).unwrap();
    let assigned = resolve_split_rows(&list, &rows.branches).unwrap();
    assert_eq!(
        assigned,
        vec![
            ("x".to_string(), list[0].id.clone()),
            ("y".to_string(), list[1].id.clone()),
        ]
    );
    assert_eq!(read_split(&text, &list).unwrap(), assigned);
    assert!(matches!(read_split("aaaaaaa one\n", &list), Err(SplitError::CountChanged)));
    assert_eq!(short(&list[0].id), "aaaaaaa");
}

#[test]
fn bad_split_rows_are_refused() {
    assert!(matches!(
        parse_split_rows("branch x\n"),
        Err(SplitError::NotAfterCommit(_))
    ));
    assert!(matches!(
        parse_split_rows("aaaaaaa one\nbranch a..b\n"),
        Err(SplitError::InvalidName(_))
    ));
    let mut rows = SplitRows { commits: texts(&["aaaaaaa"]), branches: vec![] };
    assert_eq!(
        take_branch_row(&mut rows, "x".to_string(), Err("why".to_string())).unwrap_err().message(),
        "why"
    );
    assert_eq!(
        parse_split_rows("aaaaaaa one\nbranch a\0b\n").unwrap_err().message(),
        "data contained a nul byte that could not be represented as a string"
    );
    assert!(matches!(
        check_commits(&infos(), &texts(&["aaaaaaa"])),
        Err(SplitError::CountChanged)
    ));
    assert!(matches!(
        check_commits(&infos(), &texts(&["aaaaaaa", "ccccccc"])),
        Err(SplitError::CommitChanged(_))
    ));
    let row = |n: &str, c: &str| (n.to_string(), c.to_string());
    assert!(matches!(
        resolve_split_rows(&infos(), &vec![row("x", "zzz")]),
        Err(SplitError::Unresolved(_, _))
    ));
    assert!(matches!(
        resolve_split_rows(&infos(), &vec![row("x", "")]),
        Err(SplitError::Ambiguous(_, _, _))
    ));
    assert!(matches!(
        resolve_split_rows(&infos(), &vec![row("x", "aaaaaaa"), row("x", "bbbbbbb")]),
        Err(SplitError::Duplicate(_))
    ));
    assert!(matches!(split_tip(&vec![]), SplitTip::Head));
    assert!(matches!(split_tip(&texts(&["b", "a"])), SplitTip::Ask(v) if v == texts(&["a", "b"])));
}

#[test]
fn splits_can_be_taken_back() {
    let none: Option<Option<String>> = None;
    let at = |id: &str| Some(Some(id.to_string()));
    let initial = texts(&["x"]);
    let ids = texts(&["1", "2"]);
    assert_eq!(split_action("n", "1", &none, &initial, &ids), SplitAction::Create);
    assert_eq!(split_action("x", "1", &at("1"), &initial, &ids), SplitAction::Keep);
    assert_eq!(split_action("x", "2", &at("9"), &initial, &ids), SplitAction::Move);
    assert_eq!(split_action("foreign", "1", &at("9"), &initial, &ids), SplitAction::AskOverwrite);
    assert_eq!(
        branches_to_delete(&texts(&["x", "y"]), &vec![("x".to_string(), "1".to_string())]),
        texts(&["y"])
    );
    let ops = split_ops(
        &vec![BranchChange { name: "x".to_string(), id: "2".to_string(), force: true }],
        &texts(&["y"]),
        &Some("x".to_string()),
    );
    assert!(matches!(ops[0], SplitOp::Detach));
    assert!(matches!(&ops[1], SplitOp::Put(c) if c.name == "x" && c.force));
    assert!(matches!(&ops[2], SplitOp::Delete(n) if n == "y"));
    let mut refs = NameMap::new();
    refs.insert("x".to_string(), "1".to_string());
    let snapshot = snapshot_branches(&texts(&["x", "new"]), &refs);
    let back = restore_ops(&snapshot, &Head::Branch("x".to_string()));
    assert!(matches!(back.last(), Some(SplitOp::SetHead(Head::Branch(n))) if n == "x"));
    assert!(back.iter().any(|op| matches!(op, SplitOp::Put(c) if c.name == "x" && c.id == "1")));
    assert!(back.iter().any(|op| matches!(op, SplitOp::Delete(n) if n == "new")));
    let plan = apply_split(
        &vec![("new".to_string(), "2".to_string())],
        &vec![None],
        &initial,
        &ids,
        &vec![],
        &Head::Detached("1".to_string()),
        &refs,
    );
    assert!(matches!(&plan.ops[..], [SplitOp::Put(c), SplitOp::Delete(n)]
        if c.name == "new" && n == "x"));
    assert!(matches!(&plan.undo[..], [SplitOp::Delete(n), SplitOp::Put(c), SplitOp::SetHead(h)]
        if n == "new" && c.name == "x" && c.id == "1" && *h == Head::Detached("1".to_string())));
    assert_eq!(
        reattach_target(&vec![("x".to_string(), "1".to_string())], "1", &refs).as_deref(),
        Some("x")
    );
}

#[test]
fn rows_become_changes() {
    let row = |name: &str, id: &str| (name.to_string(), id.to_string());
    let at = |id: &str| Some(Some(id.to_string()));
    let rows = vec![row("x", "1"), row("y", "2"), row("new", "1"), row("no", "2"), row("yes", "2")];
    let existing = vec![at("1"), at("1"), None, at("9"), at("9")];
    let initial = texts(&["x", "y", "gone"]);
    let ids = texts(&["1", "2"]);
    assert_eq!(overwrites_to_ask(&rows, &existing, &initial, &ids), texts(&["no", "yes"]));
    let agreed = texts(&["yes"]);
    let changes: Vec<(String, String, bool)> =
        split_changes(&rows, &existing, &initial, &ids, &agreed)
            .into_iter()
            .map(|c| (c.name, c.id, c.force))
            .collect();
    assert_eq!(
        changes,
        vec![
            ("y".to_string(), "2".to_string(), true),
            ("new".to_string(), "1".to_string(), false),
            ("yes".to_string(), "2".to_string(), true),
        ]
    );
    let mut refs = NameMap::new();
    for (name, id) in [("x", "1"), ("y", "1"), ("no", "9"), ("yes", "9"), ("gone", "2")] {
        refs.insert(name.to_string(), id.to_string());
    }
    let before = Head::Branch("y".to_string());
    let plan = apply_split(&rows, &existing, &initial, &ids, &agreed, &before, &refs);
    let mut tips: Vec<(String, String)> = Vec::new();
    for name in ["x", "y", "no", "yes", "gone"] {
        tips.push((name.to_string(), refs.get(name).unwrap().clone()));
    }
    let start = tips.clone();
    let mut head = before.clone();
    let perform = |tips: &mut Vec<(String, String)>, head: &mut Head, op: &SplitOp| match op {
        SplitOp::Detach => {
            if let Head::Branch(name) = head.clone() {
                let id = tips.iter().find(|t| t.0 == name).unwrap().1.clone();
                *head = Head::Detached(id);
            }
        }
        SplitOp::Put(c) => {
            tips.retain(|t| t.0 != c.name);
            tips.push((c.name.clone(), c.id.clone()));
        }
        SplitOp::Delete(name) => tips.retain(|t| t.0 != *name),
        SplitOp::SetHead(h) => *head = h.clone(),
    };
    for op in &plan.ops {
        perform(&mut tips, &mut head, op);
    }
    tips.sort();
    assert_eq!(
        tips,
        vec![row("new", "1"), row("no", "9"), row("x", "1"), row("y", "2"), row("yes", "2")]
    );
    assert_eq!(head, Head::Detached("1".to_string()));
    for op in &plan.undo {
        perform(&mut tips, &mut head, op);
    }
    tips.sort();
    let mut start = start;
    start.sort();
    assert_eq!(tips, start);
    assert_eq!(head, before);
}

fn run_of(continue_on_failure: bool) -> RunState {
    let mut parents = NameMap::new();
    parents.insert("b".to_string(), "a".to_string());
    begin_run(
        texts(&["a", "b"]),
        parents,
        "main".to_string(),
        RunArgs {
            command: "make".to_string(),
            continue_on_failure,
            tree: false,
            autostash: false,
            no_autostash: false,
        },
        Some("b".to_string()),
        "1111".to_string(),
        None,
    )
}

#[test]
fn runs_report_every_failure() {
    let mut state = run_of(true);
    let mut tally = RunTally { succeeded: 0, failed: 0 };
    assert_eq!(next_branch(&state).as_deref(), Some("a"));
    let first = after_visit(&mut state, &mut tally, &Visit::Failed(Some(2)));
    assert!(matches!(first, AfterVisit::GoOn));
    assert_eq!(
        export_branch_env(&state, "b"),
        vec![
            ("KINDRA_BRANCH".to_string(), "b".to_string()),
            ("KINDRA_BASE".to_string(), "main".to_string()),
            ("KINDRA_INDEX".to_string(), "2".to_string()),
            ("KINDRA_TOTAL".to_string(), "2".to_string()),
            ("KINDRA_PARENT".to_string(), "a".to_string()),
        ]
    );
    after_visit(&mut state, &mut tally, &Visit::Succeeded);
    assert_eq!(next_branch(&state), None);
    assert_eq!(state.failed_branches, texts(&["a"]));
    assert_eq!(
        run_summary(&state, &tally),
        texts(&["", "=== Summary ===", "Succeeded: 1", "Failed: 1", "Failed branches: a"])
    );
    match end_run(&mut state, None, None) {
        RunEnd::Clear(Some(e)) => assert_eq!(e, "Command failed on 1 branch(es): a"),
        other => panic!("{other:?}"),
    }
}

#[test]
fn runs_stop_at_the_first_failure() {
    let mut state = run_of(false);
    let mut tally = RunTally { succeeded: 0, failed: 0 };
    let stop = match after_visit(&mut state, &mut tally, &Visit::Failed(None)) {
        AfterVisit::Stop(e) => e,
        other => panic!("{other:?}"),
    };
    assert_eq!(stop, "Command failed on branch 'a' with exit code None.");
    assert_eq!(original_checkout(&state).0, "b");
    match end_run(&mut state, Some(&stop), Some("locked")) {
        RunEnd::Keep(e) => {
            assert!(e.ends_with(" Failed to restore original checkout: locked"));
        }
        other => panic!("{other:?}"),
    }
    assert_eq!(state.status, RunStatus::Failed);
    assert_eq!(take_autostash(true, false), Autostash::Refuse);
    assert_eq!(take_autostash(true, true), Autostash::Stash);
    assert_eq!(take_autostash(false, true), Autostash::Nothing);
    mark_aborted(&mut state, None);
    assert_eq!(state.status, RunStatus::Aborted);
    assert_eq!(component_anchor(Some("c"), &stack()).as_deref(), Some("c"));
    assert_eq!(component_anchor(None, &stack()).as_deref(), Some("a"));
    assert_eq!(component_anchor(None, &vec![]), None);
}
