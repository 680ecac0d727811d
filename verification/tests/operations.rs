use kindra::names::NameMap;
use kindra::oplog::{
    advance, anchor_entry, anchor_namespace, anchor_oids, begin, diff_branches, enforce_retention,
    finalize, format_age, load_log, moved_message, next_entry, next_record_step,
    operation_in_progress, pending_at, record_entry, reflog, reflog_at, summarize, Anchor, Change,
    Direction, Entry, Finalized, Log, Pending, RecordStep, MAX_ENTRIES, OPLOG_VERSION,
};
use kindra::oplog_restore::{
    drifted_branches, ref_prefix_conflict, restore, RestoreError, RestorePlan,
};

const ONE: &str = "1111111111111111111111111111111111111111";
const TWO: &str = "2222222222222222222222222222222222222222";

fn tips(list: &[(&str, &str)]) -> NameMap<String> {
    let mut map = NameMap::new();
    for (name, id) in list {
        map.insert(name.to_string(), id.to_string());
    }
    map
}

fn entry(id: &str, changes: NameMap<Change>) -> Entry {
    Entry {
        id: id.to_string(),
        time: 0,
        op: "sync".to_string(),
        summary: String::new(),
        head_before: "main".to_string(),
        head_before_detached: false,
        head_after: "main".to_string(),
        head_after_detached: false,
        changes,
    }
}

#[test]
fn enforce_retention_evicts_oldest_and_returns_their_ids() {
    fn dummy_entry(id: usize) -> Entry {
        Entry {
            id: id.to_string(),
            time: 0,
            op: "sync".to_string(),
            summary: String::new(),
            head_before: "main".to_string(),
            head_before_detached: false,
            head_after: "main".to_string(),
            head_after_detached: false,
            changes: NameMap::new(),
        }
    }

    // Two entries over the cap, with the cursor at the tip.
    let over = MAX_ENTRIES + 2;
    let mut log = Log {
        version: OPLOG_VERSION,
        cursor: over,
        entries: (0..over).map(dummy_entry).collect(),
    };

    let dropped = enforce_retention(&mut log);

    assert_eq!(dropped, vec!["0".to_string(), "1".to_string()]);
    assert_eq!(log.entries.len(), MAX_ENTRIES);
    assert_eq!(log.cursor, MAX_ENTRIES);
    assert_eq!(log.entries[0].id, "2", "oldest surviving entry");
}

#[test]
fn anchor_entry_anchors_detached_head_and_skips_unborn_sentinel() {
    let entry = Entry {
        id: "123".to_string(),
        time: 0,
        op: "test".to_string(),
        summary: String::new(),
        head_before: ONE.to_string(),
        head_before_detached: true,
        head_after: String::new(),
        head_after_detached: true,
        changes: NameMap::new(),
    };
    let anchors = anchor_entry(&entry);
    let ns = anchor_namespace("123");
    assert_eq!(anchors.len(), 1, "only the real detached tip should be anchored");
    match &anchors[0] {
        Anchor::Create(name, oid) => {
            assert_eq!(name, &format!("{ns}/{ONE}"));
            assert_eq!(oid, ONE);
        }
        other => panic!("{other:?}"),
    }
}

#[test]
fn commits_that_are_no_ids_are_not_anchored() {
    let mut bad = entry("7", NameMap::new());
    bad.head_before = "nonsense".to_string();
    bad.head_before_detached = true;
    assert_eq!(anchor_oids(&bad), vec!["nonsense".to_string()]);
    assert!(matches!(&anchor_entry(&bad)[0], Anchor::Invalid(h) if h == "nonsense"));
}

#[test]
fn finalize_is_idempotent_when_pending_already_recorded() {
    let existing = entry("42", NameMap::new());
    let log = Log { version: OPLOG_VERSION, cursor: 1, entries: vec![existing] };
    let pending = Pending {
        id: "42".to_string(),
        time: 0,
        op: "sync".to_string(),
        head_before: "main".to_string(),
        head_before_detached: false,
        branches: NameMap::new(),
    };
    let after = tips(&[("main", ONE)]);
    let outcome = finalize(pending, &after, "main".to_string(), false, &log);
    assert!(matches!(outcome, Finalized::Recorded), "finalize must not duplicate the entry");
}

#[test]
fn an_operation_that_moves_nothing_leaves_no_entry() {
    let log = Log::default();
    let before = tips(&[("a", ONE)]);
    let pending = begin("sync", "a".to_string(), false, before);
    let outcome = finalize(pending, &tips(&[("a", ONE)]), "a".to_string(), false, &log);
    assert!(matches!(outcome, Finalized::Nothing));
}

#[test]
fn an_operation_is_recorded_with_what_it_did() {
    let mut log = Log::default();
    let pending = pending_at(
        1_234_000_000_000,
        1_234,
        "sync",
        "a".to_string(),
        false,
        tips(&[("a", ONE), ("gone", ONE)]),
    );
    assert_eq!(pending.id, "1234000000000");
    let after = tips(&[("a", TWO), ("new", TWO)]);
    match finalize(pending, &after, "a".to_string(), false, &log) {
        Finalized::New(e) => {
            assert_eq!(e.summary, "a rebased, 1 created, 1 deleted");
            assert_eq!(e.changes.len(), 3);
            let stale = record_entry(&mut log, e);
            assert!(stale.is_empty());
        }
        other => panic!("{other:?}"),
    }
    assert_eq!(log.cursor, 1);
}

#[test]
fn ids_come_from_the_clock() {
    let a = begin("x", "a".to_string(), false, NameMap::new());
    let nanos: u128 = a.id.parse().unwrap();
    assert_eq!((nanos / 1_000_000_000) as u64, a.time);
    assert!(a.time > 1_000_000_000);
}

#[test]
fn undo_gives_back_every_branch() {
    let before = tips(&[("a", ONE), ("gone", ONE), ("same", ONE)]);
    let after = tips(&[("a", TWO), ("new", TWO), ("same", ONE)]);
    let e = entry("1", diff_branches(&before, &after));
    let plan = restore(&e, Direction::Undo, true, false, &after);
    // The branch `main` is nowhere, so there is nothing to go back to.
    assert!(matches!(plan, Err(RestoreError::NoCommit(_))));
    let mut e = entry("1", diff_branches(&before, &after));
    e.head_before = "a".to_string();
    let plan = restore(&e, Direction::Undo, false, false, &after).unwrap();
    assert_eq!(
        plan.transactions,
        vec![format!(
            "delete refs/heads/new\nupdate refs/heads/a {ONE}\nupdate refs/heads/gone {ONE}\n"
        )]
    );
    assert_eq!(plan.detach, vec!["checkout", "--quiet", "--detach", ONE]);
    assert_eq!(plan.reattach.unwrap(), vec!["checkout", "--quiet", "a"]);
    e.head_after = "a".to_string();
    let again = restore(&e, Direction::Redo, true, true, &before).unwrap();
    assert_eq!(
        again.transactions,
        vec![format!(
            "delete refs/heads/gone\nupdate refs/heads/a {TWO}\nupdate refs/heads/new {TWO}\n"
        )]
    );
    assert_eq!(again.detach, vec!["checkout", "--quiet", "--force", "--detach", TWO]);
}

fn carry_out(plan: &RestorePlan, map: &NameMap<String>, names: &[&str]) -> (NameMap<String>, String) {
    let mut list: Vec<(String, String)> = Vec::new();
    for name in names {
        if let Some(id) = map.get(name) {
            list.push((name.to_string(), id.clone()));
        }
    }
    for line in plan.transactions.iter().flat_map(|t| t.lines()) {
        let words: Vec<&str> = line.split(' ').collect();
        let name = words[1].trim_start_matches("refs/heads/").to_string();
        list.retain(|entry| entry.0 != name);
        if words[0] == "update" {
            list.push((name, words[2].to_string()));
        }
    }
    let mut after = NameMap::new();
    for (name, id) in list {
        after.insert(name, id);
    }
    let head = match &plan.reattach {
        Some(args) => args.last().unwrap().clone(),
        None => plan.detach.last().unwrap().clone(),
    };
    (after, head)
}

#[test]
fn redo_after_undo_leaves_no_trace() {
    let names = ["a", "gone", "new", "same"];
    let before = tips(&[("a", ONE), ("gone", ONE), ("same", ONE)]);
    let after = tips(&[("a", TWO), ("new", TWO), ("same", ONE)]);
    let mut e = entry("1", diff_branches(&before, &after));
    e.head_before = "a".to_string();
    e.head_after = TWO.to_string();
    e.head_after_detached = true;
    let mut log = Log { version: OPLOG_VERSION, cursor: 1, entries: vec![e] };
    let undo =
        restore(next_entry(&log, Direction::Undo).unwrap(), Direction::Undo, false, false, &after)
            .unwrap();
    let (between, head) = carry_out(&undo, &after, &names);
    assert_eq!(head, "a");
    for name in names {
        assert_eq!(between.get(name), before.get(name));
    }
    advance(&mut log, Direction::Undo);
    let redo =
        restore(next_entry(&log, Direction::Redo).unwrap(), Direction::Redo, false, false, &between)
            .unwrap();
    let (end, head) = carry_out(&redo, &between, &names);
    assert_eq!(head, TWO);
    for name in names {
        assert_eq!(end.get(name), after.get(name));
    }
    advance(&mut log, Direction::Redo);
    assert_eq!(log.cursor, 1);
    assert_eq!(log.entries.len(), 1);
}

#[test]
fn directories_and_files_are_moved_apart() {
    assert!(ref_prefix_conflict("foo", "foo/bar"));
    assert!(ref_prefix_conflict("foo/bar", "foo"));
    assert!(ref_prefix_conflict("foo", "foo"));
    assert!(!ref_prefix_conflict("foo", "foobar"));
    let before = tips(&[("foo/bar", ONE), ("main", ONE)]);
    let after = tips(&[("foo", TWO), ("main", ONE)]);
    let e = entry("1", diff_branches(&before, &after));
    let plan = restore(&e, Direction::Undo, false, false, &after).unwrap();
    assert_eq!(plan.transactions.len(), 2);
    assert_eq!(plan.transactions[0], "delete refs/heads/foo\n");
}

#[test]
fn work_done_since_is_not_lost() {
    let before = tips(&[("a", ONE)]);
    let after = tips(&[("a", TWO)]);
    let mut e = entry("1", diff_branches(&before, &after));
    e.head_before = "a".to_string();
    assert!(matches!(
        restore(&e, Direction::Undo, false, true, &after),
        Err(RestoreError::Dirty)
    ));
    match restore(&e, Direction::Undo, false, false, &tips(&[("a", ONE)])) {
        Err(RestoreError::Drifted(names)) => assert_eq!(names, vec!["a".to_string()]),
        other => panic!("{other:?}"),
    }
    assert!(restore(&e, Direction::Undo, true, true, &tips(&[("a", ONE)])).is_ok());
    assert!(drifted_branches(&e.changes, &after, Direction::Undo).is_empty());
    e.head_before = "zzz".to_string();
    e.head_before_detached = true;
    assert!(matches!(
        restore(&e, Direction::Undo, false, false, &after),
        Err(RestoreError::InvalidHead(_))
    ));
    e.head_before = "b".to_string();
    e.head_before_detached = false;
    assert!(matches!(
        restore(&e, Direction::Undo, true, false, &tips(&[("b", "zzz")])),
        Err(RestoreError::InvalidTip(_, _))
    ));
    assert_eq!(
        RestoreError::Drifted(vec!["a".to_string()]).message(),
        "These branches changed since the operation: a. Rerun with --force to overwrite them anyway."
    );
}

#[test]
fn the_cursor_goes_back_and_forth() {
    let mut log = Log {
        version: OPLOG_VERSION,
        cursor: 2,
        entries: vec![entry("1", NameMap::new()), entry("2", NameMap::new())],
    };
    assert_eq!(next_entry(&log, Direction::Undo).unwrap().id, "2");
    assert!(next_entry(&log, Direction::Redo).is_none());
    advance(&mut log, Direction::Undo);
    assert_eq!(next_entry(&log, Direction::Redo).unwrap().id, "2");
    advance(&mut log, Direction::Redo);
    assert_eq!(log.cursor, 2);
    advance(&mut log, Direction::Undo);
    let stale = record_entry(&mut log, entry("3", NameMap::new()));
    assert_eq!(stale, vec!["2".to_string()]);
    assert!(next_entry(&log, Direction::Redo).is_none());
    assert_eq!(next_entry(&log, Direction::Undo).unwrap().id, "3");
}

#[test]
fn logs_of_other_versions_are_refused() {
    let odd = Log { version: 9, cursor: 0, entries: vec![] };
    let err = load_log(Some(odd), "log.json").unwrap_err();
    assert_eq!(
        err.message(),
        "Unsupported Kindra oplog version 9 in log.json (expected 1). Remove the file to reset undo history."
    );
    let far = Log { version: OPLOG_VERSION, cursor: 7, entries: vec![] };
    assert_eq!(load_log(Some(far), "log.json").unwrap().cursor, 0);
    assert_eq!(load_log(None, "log.json").unwrap().entries.len(), 0);
}

#[test]
fn entries_are_anchored_before_the_log_is_saved() {
    assert_eq!(next_record_step(None), RecordStep::Anchor);
    assert_eq!(next_record_step(Some(RecordStep::Anchor)), RecordStep::SaveLog);
    assert_eq!(next_record_step(Some(RecordStep::SaveLog)), RecordStep::RemoveAnchors);
    assert_eq!(next_record_step(Some(RecordStep::RemoveAnchors)), RecordStep::RemovePending);
    assert_eq!(next_record_step(Some(RecordStep::RemovePending)), RecordStep::Done);
}

#[test]
fn ages_and_summaries() {
    assert_eq!(format_age(59), "59s");
    assert_eq!(format_age(60), "1m");
    assert_eq!(format_age(7200), "2h");
    assert_eq!(format_age(172_800), "2d");
    let before = tips(&[("a", ONE), ("b", ONE), ("c", ONE), ("d", ONE)]);
    let after = tips(&[("a", TWO), ("b", TWO), ("c", TWO), ("d", TWO)]);
    assert_eq!(summarize("sync", &diff_branches(&before, &after)), "a, b, c +1 more rebased");
    assert_eq!(summarize("sync", &NameMap::new()), "sync");
    assert!(operation_in_progress(false, true, false));
    assert!(!operation_in_progress(false, false, false));
}

#[test]
fn the_log_is_listed_newest_first() {
    let mut one = entry("1", NameMap::new());
    one.time = 40;
    one.summary = "a rebased".to_string();
    let mut two = entry("2", NameMap::new());
    two.time = 100;
    two.op = "reorder".to_string();
    two.summary = "b rebased".to_string();
    let log = Log { version: OPLOG_VERSION, cursor: 1, entries: vec![one, two] };
    assert_eq!(
        reflog_at(&log, 100),
        vec![
            "Kindra operation log (newest first):",
            "↑ 0s ago  reorder  b rebased",
            "* 1m ago  sync     a rebased",
            "",
            "* = current state   ↑ = undone (redoable with 'kin redo')",
        ]
    );
    assert_eq!(reflog(&Log::default()), vec!["No operations recorded yet."]);
    assert_eq!(
        moved_message(&log.entries[0], Direction::Undo),
        vec!["Undid sync: a rebased", "Run 'kin redo' to reapply it."]
    );
    assert_eq!(
        moved_message(&log.entries[0], Direction::Redo),
        vec!["Redid sync: a rebased"]
    );
}
