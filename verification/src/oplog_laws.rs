//! What the log sums up and drops, and what undoing an operation tells git.

use crate::lists::{chosen, lemma_chosen_next, lemma_chosen_none};
use crate::oid::full_oid;
use crate::oplog::{
    age_of, change_view, created_among, cursor_after, deleted_among, entry_line, excess,
    is_anchored, log_lines, moved_among, next_index, record_after, summary_of, ChangeView, Direction,
    Entry, Log, RecordStep, MAX_ENTRIES,
};
use crate::oplog_restore::{
    delete_lines, deletions_among, drifted_among, head_hex, is_plan, transactions_of, update_lines,
    updates_among, RestorePlan,
};
use crate::text::{dec, join_of, padded, strs};
use vstd::prelude::*;

verus! {

/// The branches that are summed up: one that was not there before counts as created, one that is not
/// there any more as deleted, and any other is named, in order.
pub proof fn law_every_change_is_summed_up(
    names: Seq<Seq<char>>,
    changes: Map<Seq<char>, ChangeView>,
    n: int,
)
    requires
        0 <= n <= names.len(),
    ensures
        created_among(names.take(n), changes) == chosen(
            n,
            |k: int| changes[names[k]].0 is None && changes[names[k]].1 is Some,
            |k: int| names[k],
        ).len(),
        deleted_among(names.take(n), changes) == chosen(
            n,
            |k: int| changes[names[k]].0 is Some && changes[names[k]].1 is None,
            |k: int| names[k],
        ).len(),
        moved_among(names.take(n), changes) == chosen(
            n,
            |k: int| changes[names[k]].0 is Some == changes[names[k]].1 is Some,
            |k: int| names[k],
        ),
    decreases n,
{
    let new = |k: int| changes[names[k]].0 is None && changes[names[k]].1 is Some;
    let gone = |k: int| changes[names[k]].0 is Some && changes[names[k]].1 is None;
    let other = |k: int| changes[names[k]].0 is Some == changes[names[k]].1 is Some;
    let give = |k: int| names[k];
    if n > 0 {
        law_every_change_is_summed_up(names, changes, n - 1);
        lemma_chosen_next(n - 1, new, give);
        lemma_chosen_next(n - 1, gone, give);
        lemma_chosen_next(n - 1, other, give);
        assert(names.take(n).drop_last() =~= names.take(n - 1));
        assert(names.take(n).last() == names[n - 1]);
    } else {
        lemma_chosen_none(new, give);
        lemma_chosen_none(gone, give);
        lemma_chosen_none(other, give);
    }
}

/// The log drops no entry as long as there is room for all, and then as many as there is no room for.
pub proof fn law_only_what_has_no_room_is_dropped(n: int)
    requires
        n >= 0,
    ensures
        0 <= excess(n) <= n,
        n <= MAX_ENTRIES ==> excess(n) == 0,
        n > MAX_ENTRIES ==> n - excess(n) == MAX_ENTRIES,
{
}

/// The entry that is undone is the last one in force, and the entry that is redone the first one that
/// was undone; there is none only where no entry is in force, or none was undone. What was undone is
/// no longer in force, and what was redone is again.
pub proof fn law_entries_are_undone_from_the_last(log: Log, dir: Direction)
    requires
        log.wf(),
    ensures
        match next_index(log, Direction::Undo) {
            Some(i) => 0 <= i < log.cursor && i + 1 == log.cursor && cursor_after(
                log,
                Direction::Undo,
            ) == i,
            None => log.cursor == 0 && cursor_after(log, Direction::Undo) == 0,
        },
        match next_index(log, Direction::Redo) {
            Some(i) => log.cursor == i && i < log.entries@.len() && cursor_after(
                log,
                Direction::Redo,
            ) == i + 1,
            None => log.cursor == log.entries@.len() && cursor_after(log, Direction::Redo)
                == log.cursor,
        },
{
}

/// Recording an operation ends after four steps, one of each kind.
pub proof fn law_recording_ends()
    ensures
        ({
            let one = record_after(None);
            let two = record_after(Some(one));
            let three = record_after(Some(two));
            let four = record_after(Some(three));
            &&& seq![one, two, three, four] == seq![
                RecordStep::Anchor,
                RecordStep::SaveLog,
                RecordStep::RemoveAnchors,
                RecordStep::RemovePending,
            ]
            &&& record_after(Some(four)) == RecordStep::Done
        }),
{
}

/// The branches that count as drifted are those whose tip is not the one that the operation left, or,
/// where it is redone, not the one that it found.
pub proof fn law_drifted_branches_are_told(
    names: Seq<Seq<char>>,
    changes: Map<Seq<char>, ChangeView>,
    tips: Map<Seq<char>, Seq<char>>,
    n: int,
)
    requires
        0 <= n <= names.len(),
    ensures
        drifted_among(names.take(n), changes, tips, Direction::Undo) == chosen(
            n,
            |k: int|
                !(match changes[names[k]].1 {
                    Some(t) => tips.contains_key(names[k]) && tips[names[k]] == t,
                    None => !tips.contains_key(names[k]),
                }),
            |k: int| names[k],
        ),
        drifted_among(names.take(n), changes, tips, Direction::Redo) == chosen(
            n,
            |k: int|
                !(match changes[names[k]].0 {
                    Some(t) => tips.contains_key(names[k]) && tips[names[k]] == t,
                    None => !tips.contains_key(names[k]),
                }),
            |k: int| names[k],
        ),
    decreases n,
{
    let undo = |k: int|
        !(match changes[names[k]].1 {
            Some(t) => tips.contains_key(names[k]) && tips[names[k]] == t,
            None => !tips.contains_key(names[k]),
        });
    let redo = |k: int|
        !(match changes[names[k]].0 {
            Some(t) => tips.contains_key(names[k]) && tips[names[k]] == t,
            None => !tips.contains_key(names[k]),
        });
    let give = |k: int| names[k];
    if n > 0 {
        law_drifted_branches_are_told(names, changes, tips, n - 1);
        lemma_chosen_next(n - 1, undo, give);
        lemma_chosen_next(n - 1, redo, give);
        assert(names.take(n).drop_last() =~= names.take(n - 1));
        assert(names.take(n).last() == names[n - 1]);
    } else {
        lemma_chosen_none(undo, give);
        lemma_chosen_none(redo, give);
    }
}

/// Undoing an operation deletes the branches that it created, where they are still there, and gives
/// every other branch that it changed the tip that it had before; redoing it the other way round.
pub proof fn law_restored_branches(
    names: Seq<Seq<char>>,
    changes: Map<Seq<char>, ChangeView>,
    tips: Map<Seq<char>, Seq<char>>,
    n: int,
)
    requires
        0 <= n <= names.len(),
    ensures
        deletions_among(names.take(n), changes, tips, Direction::Undo) == chosen(
            n,
            |k: int| changes[names[k]].0 is None && tips.contains_key(names[k]),
            |k: int| names[k],
        ),
        deletions_among(names.take(n), changes, tips, Direction::Redo) == chosen(
            n,
            |k: int| changes[names[k]].1 is None && tips.contains_key(names[k]),
            |k: int| names[k],
        ),
        updates_among(names.take(n), changes, Direction::Undo) == chosen(
            n,
            |k: int| changes[names[k]].0 is Some,
            |k: int| (names[k], changes[names[k]].0->0),
        ),
        updates_among(names.take(n), changes, Direction::Redo) == chosen(
            n,
            |k: int| changes[names[k]].1 is Some,
            |k: int| (names[k], changes[names[k]].1->0),
        ),
    decreases n,
{
    let a = |k: int| changes[names[k]].0 is None && tips.contains_key(names[k]);
    let b = |k: int| changes[names[k]].1 is None && tips.contains_key(names[k]);
    let c = |k: int| changes[names[k]].0 is Some;
    let d = |k: int| changes[names[k]].1 is Some;
    let name = |k: int| names[k];
    let first = |k: int| (names[k], changes[names[k]].0->0);
    let second = |k: int| (names[k], changes[names[k]].1->0);
    if n > 0 {
        law_restored_branches(names, changes, tips, n - 1);
        lemma_chosen_next(n - 1, a, name);
        lemma_chosen_next(n - 1, b, name);
        lemma_chosen_next(n - 1, c, first);
        lemma_chosen_next(n - 1, d, second);
        assert(names.take(n).drop_last() =~= names.take(n - 1));
        assert(names.take(n).last() == names[n - 1]);
    } else {
        lemma_chosen_none(a, name);
        lemma_chosen_none(b, name);
        lemma_chosen_none(c, first);
        lemma_chosen_none(d, second);
    }
}

/// The one name is that of a directory in which the other one lies, or they are the same.
pub open spec fn share_a_path(a: Seq<char>, b: Seq<char>) -> bool {
    a == b || (a + "/"@).is_prefix_of(b) || (b + "/"@).is_prefix_of(a)
}

/// Branches are deleted and updated in one transaction unless some branch that is deleted shares its
/// path with one that is updated: then the deletions come first, on their own. Without branches there
/// is no transaction.
pub proof fn law_deleted_branches_make_room(
    deletions: Seq<Seq<char>>,
    updates: Seq<(Seq<char>, Seq<char>)>,
)
    ensures
        ({
            let t = transactions_of(deletions, updates);
            &&& t.len() == 0 <==> deletions.len() == 0 && updates.len() == 0
            &&& t.len() == 2 <==> exists|i: int, j: int|
                0 <= i < deletions.len() && 0 <= j < updates.len() && share_a_path(
                    #[trigger] deletions[i],
                    (#[trigger] updates[j]).0,
                )
            &&& t.len() == 1 ==> t[0] == delete_lines(deletions) + update_lines(updates)
            &&& t.len() == 2 ==> t[0] == delete_lines(deletions) && t[1] == update_lines(updates)
            &&& t.len() <= 2
        }),
{
}

/// Every branch that is deleted, and every branch that is updated, has its line, in order.
pub proof fn law_every_branch_has_its_line(
    deletions: Seq<Seq<char>>,
    updates: Seq<(Seq<char>, Seq<char>)>,
    name: Seq<char>,
    oid: Seq<char>,
)
    ensures
        delete_lines(Seq::empty()) == Seq::<char>::empty(),
        delete_lines(deletions.push(name)) == delete_lines(deletions) + "delete refs/heads/"@ + name
            + "\n"@,
        update_lines(Seq::empty()) == Seq::<char>::empty(),
        update_lines(updates.push((name, oid))) == update_lines(updates) + "update refs/heads/"@
            + name + " "@ + oid + "\n"@,
{
    reveal_strlit("");
    assert(""@ =~= Seq::<char>::empty());
    assert(deletions.push(name).drop_last() =~= deletions);
    assert(updates.push((name, oid)).drop_last() =~= updates);
    assert(delete_lines(deletions.push(name)) =~= delete_lines(deletions) + "delete refs/heads/"@
        + name + "\n"@);
    assert(update_lines(updates.push((name, oid))) =~= update_lines(updates)
        + "update refs/heads/"@ + name + " "@ + oid + "\n"@);
}

/// Undoing an operation checks out what was checked out before it, and redoing it what was checked out
/// after it: a commit as such, a branch at the tip that it then has. The working tree is first put on
/// that commit without a branch, so that the branches can be moved.
pub proof fn law_restore_goes_back_to_the_checkout(
    p: RestorePlan,
    e: Entry,
    dir: Direction,
    force: bool,
    tips: Map<Seq<char>, Seq<char>>,
    hex: Seq<char>,
)
    requires
        head_hex(e, dir, tips) == Some(hex),
        is_plan(p, e, dir, force, tips, full_oid(hex)),
    ensures
        ({
            let (head, detached) = match dir {
                Direction::Undo => (e.head_before@, e.head_before_detached),
                Direction::Redo => (e.head_after@, e.head_after_detached),
            };
            let change = change_view(e.changes@[head]);
            let tip = match dir {
                Direction::Undo => change.0,
                Direction::Redo => change.1,
            };
            &&& hex == if detached {
                head
            } else if e.changes@.contains_key(head) {
                tip->0
            } else {
                tips[head]
            }
            &&& !detached && e.changes@.contains_key(head) ==> tip is Some
            &&& !detached && !e.changes@.contains_key(head) ==> tips.contains_key(head)
            &&& strs(p.detach@) == if force {
                seq!["checkout"@, "--quiet"@, "--force"@, "--detach"@, full_oid(hex)]
            } else {
                seq!["checkout"@, "--quiet"@, "--detach"@, full_oid(hex)]
            }
            &&& p.reattach is None <==> detached
            &&& p.reattach matches Some(args) ==> strs(args@) == if force {
                seq!["checkout"@, "--quiet"@, "--force"@, head]
            } else {
                seq!["checkout"@, "--quiet"@, head]
            }
        }),
{
}

/// No commit that undoing or redoing may need is lost: all the tips before and after an operation are
/// kept, and so are the commits that were checked out without a branch. Nothing else is.
pub proof fn law_commits_of_an_entry_are_kept(e: Entry, hex: Seq<char>)
    ensures
        is_anchored(e, hex) <==> {
            ||| exists|n: Seq<char>| #[trigger]
                e.changes@.contains_key(n) && (e.changes@[n].pre matches Some(t) && t@ == hex)
            ||| exists|n: Seq<char>| #[trigger]
                e.changes@.contains_key(n) && (e.changes@[n].post matches Some(t) && t@ == hex)
            ||| e.head_before_detached && hex.len() > 0 && e.head_before@ == hex
            ||| e.head_after_detached && hex.len() > 0 && e.head_after@ == hex
        },
{
}

/// An age is told in the largest unit that it is at least one of, in whole numbers.
pub proof fn law_age_is_told_in_its_unit(secs: u64)
    ensures
        secs < 60 ==> age_of(secs) == dec(secs as nat) + "s"@,
        60 <= secs < 3600 ==> age_of(secs) == dec((secs / 60) as nat) + "m"@,
        3600 <= secs < 86_400 ==> age_of(secs) == dec((secs / 3600) as nat) + "h"@,
        86_400 <= secs ==> age_of(secs) == dec((secs / 86_400) as nat) + "d"@,
{
}

/// The log is shown from the newest entry to the oldest, each in a line.
pub proof fn law_log_is_shown_from_the_newest(log: Log, now_secs: u64, i: int)
    requires
        0 <= i < log.entries@.len(),
    ensures
        ({
            let n = log.entries@.len() as int;
            log_lines(log, now_secs).len() > n && log_lines(log, now_secs)[n - i] == entry_line(
                log,
                i,
                now_secs,
            )
        }),
{
}

/// The line that sums up an operation names at most three branches that moved and counts the others, and
/// counts those that were created and deleted; an operation without any goes by its own name.
pub proof fn law_summary_of_an_operation(
    op: Seq<char>,
    names: Seq<Seq<char>>,
    changes: Map<Seq<char>, ChangeView>,
)
    ensures
        ({
            let moved = moved_among(names, changes);
            let created = created_among(names, changes);
            let deleted = deleted_among(names, changes);
            let line = summary_of(op, names, changes);
            &&& moved.len() == 0 && created == 0 && deleted == 0 ==> line == op
            &&& 0 < moved.len() <= 3 && created == 0 && deleted == 0 ==> line == join_of(
                moved,
                ", "@,
            ) + " rebased"@
            &&& moved.len() > 3 && created == 0 && deleted == 0 ==> line == join_of(
                moved.take(3),
                ", "@,
            ) + " +"@ + dec((moved.len() - 3) as nat) + " more rebased"@
            &&& moved.len() == 0 && created > 0 && deleted == 0 ==> line == dec(created)
                + " created"@
            &&& moved.len() == 0 && created == 0 && deleted > 0 ==> line == dec(deleted)
                + " deleted"@
            &&& moved.len() == 0 && created > 0 && deleted > 0 ==> line == dec(created)
                + " created"@ + ", "@ + (dec(deleted) + " deleted"@)
        }),
{
    let none = Seq::<Seq<char>>::empty();
    let created = created_among(names, changes);
    let deleted = deleted_among(names, changes);
    let a = dec(created) + " created"@;
    let b = dec(deleted) + " deleted"@;
    assert(none + none + none =~= none);
    assert(none + seq![a] + none =~= seq![a]);
    assert(none + none + seq![b] =~= seq![b]);
    assert(none + seq![a] + seq![b] =~= seq![a, b]);
    assert(seq![a, b].drop_last() =~= seq![a]);
    assert(join_of(seq![a, b], ", "@) == join_of(seq![a], ", "@) + ", "@ + b);
    let moved = moved_among(names, changes);
    let shown = if moved.len() > 3 {
        join_of(moved.take(3), ", "@) + " +"@ + dec((moved.len() - 3) as nat) + " more rebased"@
    } else {
        join_of(moved, ", "@) + " rebased"@
    };
    assert(seq![shown] + none + none =~= seq![shown]);
}

/// A line of the log is marked with a star where its entry is the last one in force, with an arrow where
/// it was undone, and not at all where others in force follow it; it tells the age, the operation and
/// what it did.
pub proof fn law_entries_are_marked(log: Log, i: int, now_secs: u64)
    requires
        0 <= i < log.entries@.len(),
    ensures
        ({
            let e = log.entries@[i];
            let line = entry_line(log, i, now_secs);
            let told = age_of(
                if now_secs >= e.time {
                    (now_secs - e.time) as u64
                } else {
                    0
                },
            ) + " ago  "@ + padded(e.op@, 8) + " "@ + e.summary@;
            &&& i + 1 == log.cursor ==> line == "* "@ + told
            &&& i >= log.cursor ==> line == "↑ "@ + told
            &&& i + 1 < log.cursor ==> line == "  "@ + told
        }),
{
    let e = log.entries@[i];
    let line = entry_line(log, i, now_secs);
    let age = age_of(
        if now_secs >= e.time {
            (now_secs - e.time) as u64
        } else {
            0
        },
    );
    let told = age + " ago  "@ + padded(e.op@, 8) + " "@ + e.summary@;
    if i + 1 == log.cursor {
        assert(line =~= "* "@ + told);
    } else if i >= log.cursor {
        assert(line =~= "↑ "@ + told);
    } else {
        assert(line =~= "  "@ + told);
    }
}

} // verus!
