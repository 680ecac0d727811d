//! The log of operations: what each did to the branches, so that it can be undone and redone.

use crate::clock::now;
use crate::names::{in_order, text_map, NameMap};
use crate::oid::{full_oid, is_oid_text, parse_oid};
use crate::text::{
    cat2, cat3, cat4, cat5, dec, decimal, join, join_of, opt_string, pad, padded, push_text, same,
    strs, wide_decimal,
};
use vstd::prelude::*;

verus! {

/// The version of the file format.
pub const OPLOG_VERSION: u32 = 1;

/// How many operations are kept.
pub const MAX_ENTRIES: usize = 25;

/// The tip of a branch before and after an operation; none where the branch was not there.
#[derive(Debug)]
pub struct Change {
    pub pre: Option<String>,
    pub post: Option<String>,
}

/// The tip before and the tip after.
pub type ChangeView = (Option<Seq<char>>, Option<Seq<char>>);

pub open spec fn change_view(c: Change) -> ChangeView {
    (opt_string(c.pre), opt_string(c.post))
}

/// The changes by name.
pub open spec fn change_map(m: Map<Seq<char>, Change>) -> Map<Seq<char>, ChangeView> {
    m.map_values(|c: Change| change_view(c))
}

/// An operation: what it did to the branches, and where the checkout was before and after it.
#[derive(Debug)]
pub struct Entry {
    /// The id, which also names the references that keep its commits.
    pub id: String,
    /// In seconds since the beginning of 1970.
    pub time: u64,
    pub op: String,
    pub summary: String,
    /// The branch, or the commit where none was checked out.
    pub head_before: String,
    pub head_before_detached: bool,
    pub head_after: String,
    pub head_after_detached: bool,
    pub changes: NameMap<Change>,
}

/// The log: the first `cursor` entries are in force, those behind them have been undone.
#[derive(Debug)]
pub struct Log {
    pub version: u32,
    pub cursor: usize,
    pub entries: Vec<Entry>,
}

impl Log {
    /// The cursor lies within the entries.
    pub open spec fn wf(self) -> bool {
        self.cursor <= self.entries@.len()
    }
}

impl Default for Log {
    fn default() -> (r: Log)
        ensures
            r.version == OPLOG_VERSION,
            r.cursor == 0,
            r.entries@.len() == 0,
    {
        Log { version: OPLOG_VERSION, cursor: 0, entries: Vec::new() }
    }
}

/// The branches as they were when an operation began.
#[derive(Debug)]
pub struct Pending {
    pub id: String,
    pub time: u64,
    pub op: String,
    pub head_before: String,
    pub head_before_detached: bool,
    pub branches: NameMap<String>,
}

/// The tip of a branch, where it is there.
pub open spec fn tip_of(tips: Map<Seq<char>, Seq<char>>, name: Seq<char>) -> Option<Seq<char>> {
    if tips.contains_key(name) {
        Some(tips[name])
    } else {
        None
    }
}

/// What changed between two states of the branches.
pub open spec fn difference(
    before: Map<Seq<char>, Seq<char>>,
    after: Map<Seq<char>, Seq<char>>,
) -> Map<Seq<char>, ChangeView> {
    Map::new(
        |n: Seq<char>| tip_of(before, n) != tip_of(after, n),
        |n: Seq<char>| (tip_of(before, n), tip_of(after, n)),
    )
}

fn look_up(tips: &NameMap<String>, name: &str) -> (r: Option<String>)
    ensures
        opt_string(r) == tip_of(text_map(tips@), name@),
{
    assert(text_map(tips@).contains_key(name@) == tips@.contains_key(name@));
    match tips.get(name) {
        Some(t) => Some(t.clone()),
        None => None,
    }
}

fn note_difference(
    before: &NameMap<String>,
    after: &NameMap<String>,
    name: &String,
    changes: &mut NameMap<Change>,
)
    ensures
        ({
            let pre = tip_of(text_map(before@), name@);
            let post = tip_of(text_map(after@), name@);
            change_map(final(changes)@) == if pre != post {
                change_map(old(changes)@).insert(name@, (pre, post))
            } else {
                change_map(old(changes)@)
            }
        }),
{
    let pre = look_up(before, name.as_str());
    let post = look_up(after, name.as_str());
    if !crate::text::same_opt(&pre, &post) {
        let ghost was = changes@;
        changes.insert(name.clone(), Change { pre, post });
        assert(change_map(changes@) =~= change_map(was).insert(
            name@,
            (opt_string(pre), opt_string(post)),
        ));
    }
}

/// What changed between two states of the branches.
pub fn diff_branches(before: &NameMap<String>, after: &NameMap<String>) -> (r: NameMap<Change>)
    ensures
        change_map(r@) == difference(text_map(before@), text_map(after@)),
{
    let ghost all = difference(text_map(before@), text_map(after@));
    let mut changes: NameMap<Change> = NameMap::new();
    assert(change_map(changes@) =~= Map::<Seq<char>, ChangeView>::empty());
    let n: usize = before.len();
    let mut i: usize = 0;
    while i < n
        invariant
            i <= n,
            n == before.names().len(),
            before.listed(),
            all == difference(text_map(before@), text_map(after@)),
            change_map(changes@).submap_of(all),
            forall|k: int|
                0 <= k < i && all.contains_key(#[trigger] before.names()[k]) ==> change_map(
                    changes@,
                ).contains_key(before.names()[k]),
        decreases n - i,
    {
        let name = before.name_at(i);
        let ghost was = change_map(changes@);
        note_difference(before, after, name, &mut changes);
        assert(change_map(changes@).submap_of(all)) by {
            assert forall|t: Seq<char>| #[trigger] change_map(changes@).contains_key(t) implies
                all.contains_key(t) && change_map(changes@)[t] == all[t] by {
                if t != name@ {
                    assert(was.contains_key(t));
                } else if was.contains_key(t) {
                    assert(all.contains_key(t));
                }
            }
        }
        i += 1;
    }
    let m: usize = after.len();
    let mut j: usize = 0;
    while j < m
        invariant
            j <= m,
            m == after.names().len(),
            n == before.names().len(),
            before.listed(),
            after.listed(),
            all == difference(text_map(before@), text_map(after@)),
            change_map(changes@).submap_of(all),
            forall|k: int|
                0 <= k < n && all.contains_key(#[trigger] before.names()[k]) ==> change_map(
                    changes@,
                ).contains_key(before.names()[k]),
            forall|k: int|
                0 <= k < j && all.contains_key(#[trigger] after.names()[k]) ==> change_map(
                    changes@,
                ).contains_key(after.names()[k]),
        decreases m - j,
    {
        let name = after.name_at(j);
        let ghost was = change_map(changes@);
        note_difference(before, after, name, &mut changes);
        assert(change_map(changes@).submap_of(all)) by {
            assert forall|t: Seq<char>| #[trigger] change_map(changes@).contains_key(t) implies
                all.contains_key(t) && change_map(changes@)[t] == all[t] by {
                if t != name@ {
                    assert(was.contains_key(t));
                } else if was.contains_key(t) {
                    assert(all.contains_key(t));
                }
            }
        }
        j += 1;
    }
    proof {
        assert forall|t: Seq<char>| all.contains_key(t) implies change_map(changes@).contains_key(
            t,
        ) by {
            if before@.contains_key(t) {
                let k = before.names().index_of(t);
                assert(before.names()[k] == t);
            } else {
                assert(after@.contains_key(t)) by {
                    assert(text_map(before@).contains_key(t) == before@.contains_key(t));
                    assert(text_map(after@).contains_key(t) == after@.contains_key(t));
                }
                let k = after.names().index_of(t);
                assert(after.names()[k] == t);
            }
        }
        assert(change_map(changes@) =~= all);
    }
    changes
}

/// Which way the branches are moved.
#[derive(Debug, Clone, Copy, PartialEq, Eq, Structural)]
pub enum Direction {
    Undo,
    Redo,
}

impl Direction {
    /// The tip that a branch gets.
    pub open spec fn target_of(self, c: ChangeView) -> Option<Seq<char>> {
        match self {
            Direction::Undo => c.0,
            Direction::Redo => c.1,
        }
    }

    /// The tip that a branch should have before.
    pub open spec fn expected_of(self, c: ChangeView) -> Option<Seq<char>> {
        match self {
            Direction::Undo => c.1,
            Direction::Redo => c.0,
        }
    }

    /// The tip that a branch gets.
    pub fn target(self, change: &Change) -> (r: &Option<String>)
        ensures
            opt_string(*r) == self.target_of(change_view(*change)),
    {
        match self {
            Direction::Undo => &change.pre,
            Direction::Redo => &change.post,
        }
    }

    /// The tip that a branch should have before.
    pub fn expected(self, change: &Change) -> (r: &Option<String>)
        ensures
            opt_string(*r) == self.expected_of(change_view(*change)),
    {
        match self {
            Direction::Undo => &change.post,
            Direction::Redo => &change.pre,
        }
    }
}

/// The branches after changes were undone or redone.
pub open spec fn moved(
    tips: Map<Seq<char>, Seq<char>>,
    changes: Map<Seq<char>, ChangeView>,
    dir: Direction,
) -> Map<Seq<char>, Seq<char>> {
    Map::new(
        |n: Seq<char>|
            if changes.contains_key(n) {
                dir.target_of(changes[n]) is Some
            } else {
                tips.contains_key(n)
            },
        |n: Seq<char>|
            if changes.contains_key(n) {
                dir.target_of(changes[n])->0
            } else {
                tips[n]
            },
    )
}

/// The branches have the tips that the changes expect.
pub open spec fn undrifted(
    tips: Map<Seq<char>, Seq<char>>,
    changes: Map<Seq<char>, ChangeView>,
    dir: Direction,
) -> bool {
    forall|n: Seq<char>| #[trigger]
        changes.contains_key(n) ==> tip_of(tips, n) == dir.expected_of(changes[n])
}

/// Undoing what an operation did brings back every branch as it was before it, and redoing it every
/// branch as it was after it. Nothing has drifted in between.
pub proof fn law_undo_and_redo(
    before: Map<Seq<char>, Seq<char>>,
    after: Map<Seq<char>, Seq<char>>,
)
    ensures
        moved(after, difference(before, after), Direction::Undo) == before,
        moved(before, difference(before, after), Direction::Redo) == after,
        undrifted(after, difference(before, after), Direction::Undo),
        undrifted(before, difference(before, after), Direction::Redo),
{
    let d = difference(before, after);
    let back = moved(after, d, Direction::Undo);
    let forth = moved(before, d, Direction::Redo);
    assert forall|n: Seq<char>| back.contains_key(n) <==> before.contains_key(n) by {
        assert(tip_of(before, n) == tip_of(after, n) || d.contains_key(n));
    }
    assert forall|n: Seq<char>| before.contains_key(n) implies back[n] == before[n] by {
        assert(tip_of(before, n) == Some(before[n]));
        assert(tip_of(before, n) == tip_of(after, n) || d.contains_key(n));
    }
    assert forall|n: Seq<char>| forth.contains_key(n) <==> after.contains_key(n) by {
        assert(tip_of(before, n) == tip_of(after, n) || d.contains_key(n));
    }
    assert forall|n: Seq<char>| after.contains_key(n) implies forth[n] == after[n] by {
        assert(tip_of(after, n) == Some(after[n]));
        assert(tip_of(before, n) == tip_of(after, n) || d.contains_key(n));
    }
    assert(back =~= before);
    assert(forth =~= after);
}

/// Where nothing has drifted, redoing what was undone brings the branches back, and the other way
/// round.
pub proof fn law_redo_reverses_undo(
    tips: Map<Seq<char>, Seq<char>>,
    changes: Map<Seq<char>, ChangeView>,
    dir: Direction,
)
    requires
        undrifted(tips, changes, dir),
    ensures
        ({
            let other = match dir {
                Direction::Undo => Direction::Redo,
                Direction::Redo => Direction::Undo,
            };
            &&& moved(moved(tips, changes, dir), changes, other) == tips
            &&& undrifted(moved(tips, changes, dir), changes, other)
        }),
{
    let other = match dir {
        Direction::Undo => Direction::Redo,
        Direction::Redo => Direction::Undo,
    };
    let there = moved(tips, changes, dir);
    let back = moved(there, changes, other);
    assert forall|n: Seq<char>| #[trigger] changes.contains_key(n) implies tip_of(there, n)
        == other.expected_of(changes[n]) by {}
    assert forall|n: Seq<char>| back.contains_key(n) <==> tips.contains_key(n) by {
        if changes.contains_key(n) {
            assert(tip_of(tips, n) == dir.expected_of(changes[n]));
        }
    }
    assert forall|n: Seq<char>| tips.contains_key(n) implies back[n] == tips[n] by {
        if changes.contains_key(n) {
            assert(tip_of(tips, n) == dir.expected_of(changes[n]));
        }
    }
    assert(back =~= tips);
}

/// The changes among the first names that created a branch, deleted one, or moved one.
pub open spec fn created_among(
    names: Seq<Seq<char>>,
    changes: Map<Seq<char>, ChangeView>,
) -> nat
    decreases names.len(),
{
    if names.len() == 0 {
        0
    } else {
        let c = changes[names.last()];
        created_among(names.drop_last(), changes) + if c.0 is None && c.1 is Some {
            1nat
        } else {
            0
        }
    }
}

pub open spec fn deleted_among(
    names: Seq<Seq<char>>,
    changes: Map<Seq<char>, ChangeView>,
) -> nat
    decreases names.len(),
{
    if names.len() == 0 {
        0
    } else {
        let c = changes[names.last()];
        deleted_among(names.drop_last(), changes) + if c.0 is Some && c.1 is None {
            1nat
        } else {
            0
        }
    }
}

pub open spec fn moved_among(
    names: Seq<Seq<char>>,
    changes: Map<Seq<char>, ChangeView>,
) -> Seq<Seq<char>>
    decreases names.len(),
{
    if names.len() == 0 {
        Seq::empty()
    } else {
        let c = changes[names.last()];
        let rest = moved_among(names.drop_last(), changes);
        if (c.0 is None && c.1 is Some) || (c.0 is Some && c.1 is None) {
            rest
        } else {
            rest.push(names.last())
        }
    }
}

/// The line that sums up changes.
pub open spec fn summary_of(
    op: Seq<char>,
    names: Seq<Seq<char>>,
    changes: Map<Seq<char>, ChangeView>,
) -> Seq<char> {
    let modified = moved_among(names, changes);
    let created = created_among(names, changes);
    let deleted = deleted_among(names, changes);
    let none = Seq::<Seq<char>>::empty();
    let parts = (if modified.len() > 3 {
        seq![
            join_of(modified.take(3), ", "@) + " +"@ + dec((modified.len() - 3) as nat)
                + " more rebased"@,
        ]
    } else if modified.len() > 0 {
        seq![join_of(modified, ", "@) + " rebased"@]
    } else {
        none
    }) + (if created > 0 {
        seq![dec(created) + " created"@]
    } else {
        none
    }) + (if deleted > 0 {
        seq![dec(deleted) + " deleted"@]
    } else {
        none
    });
    if parts.len() == 0 {
        op
    } else {
        join_of(parts, ", "@)
    }
}

fn first_three(v: &Vec<String>) -> (r: Vec<String>)
    requires
        v@.len() > 3,
    ensures
        strs(r@) == strs(v@).take(3),
{
    let mut out: Vec<String> = Vec::new();
    out.push(v[0].clone());
    out.push(v[1].clone());
    out.push(v[2].clone());
    assert(strs(out@) =~= strs(v@).take(3));
    out
}

/// The line that sums up changes.
pub fn summarize(op: &str, changes: &NameMap<Change>) -> (r: String)
    ensures
        changes.listed(),
        r@ == summary_of(op@, changes.names(), change_map(changes@)),
{
    let n: usize = changes.len();
    let ghost all = changes.names();
    let ghost map = change_map(changes@);
    let mut created: usize = 0;
    let mut deleted: usize = 0;
    let mut modified: Vec<String> = Vec::new();
    let mut i: usize = 0;
    assert(strs(modified@) =~= Seq::<Seq<char>>::empty());
    while i < n
        invariant
            i <= n,
            n == changes.names().len(),
            all == changes.names(),
            map == change_map(changes@),
            created == created_among(all.take(i as int), map),
            deleted == deleted_among(all.take(i as int), map),
            created + deleted <= i,
            strs(modified@) == moved_among(all.take(i as int), map),
        decreases n - i,
    {
        let name = changes.name_at(i);
        let c = changes.value_at(i);
        proof {
            assert(all.take(i + 1).drop_last() =~= all.take(i as int));
            assert(all.take(i + 1).last() == name@);
            assert(map[name@] == change_view(*c));
        }
        if c.pre.is_none() && c.post.is_some() {
            created += 1;
        } else if c.pre.is_some() && c.post.is_none() {
            deleted += 1;
        } else {
            push_text(&mut modified, name.clone());
        }
        i += 1;
    }
    assert(all.take(all.len() as int) =~= all);
    assert(strs(modified@).len() == modified@.len());
    let mut parts: Vec<String> = Vec::new();
    assert(strs(parts@) =~= Seq::<Seq<char>>::empty());
    if modified.len() > 3 {
        let shown = join(&first_three(&modified), ", ");
        let extra = decimal((modified.len() - 3) as u64);
        push_text(&mut parts, cat4(shown.as_str(), " +", extra.as_str(), " more rebased"));
    } else if modified.len() > 0 {
        let shown = join(&modified, ", ");
        push_text(&mut parts, cat2(shown.as_str(), " rebased"));
    }
    if created > 0 {
        push_text(&mut parts, cat2(decimal(created as u64).as_str(), " created"));
    }
    if deleted > 0 {
        push_text(&mut parts, cat2(decimal(deleted as u64).as_str(), " deleted"));
    }
    let ghost three = (if modified@.len() > 3 {
        seq![
            join_of(strs(modified@).take(3), ", "@) + " +"@ + dec((modified@.len() - 3) as nat)
                + " more rebased"@,
        ]
    } else if modified@.len() > 0 {
        seq![join_of(strs(modified@), ", "@) + " rebased"@]
    } else {
        Seq::<Seq<char>>::empty()
    }) + (if created > 0 {
        seq![dec(created as nat) + " created"@]
    } else {
        Seq::<Seq<char>>::empty()
    }) + (if deleted > 0 {
        seq![dec(deleted as nat) + " deleted"@]
    } else {
        Seq::<Seq<char>>::empty()
    });
    assert(strs(parts@) =~= three);
    assert(strs(parts@).len() == parts@.len());
    if parts.len() == 0 {
        op.to_owned()
    } else {
        join(&parts, ", ")
    }
}

/// The state of the branches when an operation begins, under an id and a time that are given.
pub fn pending_at(
    nanos: u128,
    secs: u64,
    op: &str,
    head_before: String,
    head_before_detached: bool,
    branches: NameMap<String>,
) -> (r: Pending)
    ensures
        r.id@ == dec(nanos as nat),
        r.time == secs,
        r.op@ == op@,
        r.head_before == head_before,
        r.head_before_detached == head_before_detached,
        r.branches == branches,
{
    Pending {
        id: wide_decimal(nanos),
        time: secs,
        op: op.to_owned(),
        head_before,
        head_before_detached,
        branches,
    }
}

/// The state of the branches when an operation begins. Its id is the time in nanoseconds, its time
/// the same in seconds.
pub fn begin(
    op: &str,
    head_before: String,
    head_before_detached: bool,
    branches: NameMap<String>,
) -> (r: Pending)
    ensures
        exists|nanos: nat|
            r.id@ == #[trigger] dec(nanos) && r.time as int == nanos as int / 1_000_000_000,
        r.op@ == op@,
        r.head_before == head_before,
        r.head_before_detached == head_before_detached,
        r.branches == branches,
{
    let (nanos, secs): (u128, u64) = now();
    let r = pending_at(nanos, secs, op, head_before, head_before_detached, branches);
    assert(r.id@ == dec(nanos as nat));
    r
}

/// The entries of which one has that id.
pub open spec fn has_entry(entries: Seq<Entry>, id: Seq<char>) -> bool {
    exists|i: int| 0 <= i < entries.len() && (#[trigger] entries[i]).id@ == id
}

fn is_recorded(log: &Log, id: &str) -> (r: bool)
    ensures
        r == has_entry(log.entries@, id@),
{
    let mut i: usize = 0;
    while i < log.entries.len()
        invariant
            i <= log.entries@.len(),
            forall|k: int| 0 <= k < i ==> (#[trigger] log.entries@[k]).id@ != id@,
        decreases log.entries@.len() - i,
    {
        if same(log.entries[i].id.as_str(), id) {
            return true;
        }
        i += 1;
    }
    false
}

/// The ids of entries.
pub open spec fn ids(entries: Seq<Entry>) -> Seq<Seq<char>> {
    Seq::new(entries.len(), |i: int| entries[i].id@)
}

/// How many of the oldest entries are too many.
pub open spec fn excess(n: int) -> int {
    if n > MAX_ENTRIES {
        n - MAX_ENTRIES
    } else {
        0
    }
}

/// Drops the oldest entries where there are too many; the ids of those that were dropped.
pub fn enforce_retention(log: &mut Log) -> (r: Vec<String>)
    ensures
        ({
            let k = excess(old(log).entries@.len() as int);
            &&& final(log).entries@ == old(log).entries@.skip(k)
            &&& final(log).cursor == if old(log).cursor >= k {
                old(log).cursor - k
            } else {
                0
            }
            &&& final(log).version == old(log).version
            &&& strs(r@) == ids(old(log).entries@.take(k))
        }),
        old(log).wf() ==> final(log).wf(),
        final(log).entries@.len() <= MAX_ENTRIES,
{
    let ghost all = log.entries@;
    let ghost k = excess(all.len() as int);
    let ghost start = log.cursor;
    let mut dropped: Vec<String> = Vec::new();
    assert(all.skip(0) =~= all);
    assert(strs(dropped@) =~= ids(all.take(0)));
    while log.entries.len() > MAX_ENTRIES
        invariant
            dropped@.len() <= k,
            k == excess(all.len() as int),
            log.entries@ == all.skip(dropped@.len() as int),
            log.version == old(log).version,
            log.cursor == if start >= dropped@.len() {
                start - dropped@.len()
            } else {
                0
            },
            strs(dropped@) == ids(all.take(dropped@.len() as int)),
        decreases log.entries@.len(),
    {
        let ghost n = dropped@.len() as int;
        let oldest = log.entries.remove(0);
        assert(oldest == all[n]);
        assert(log.entries@ =~= all.skip(n + 1));
        let ghost before = dropped@;
        dropped.push(oldest.id);
        assert(strs(dropped@) =~= strs(before).push(oldest.id@));
        assert(ids(all.take(n + 1)) =~= ids(all.take(n)).push(oldest.id@));
        log.cursor = if log.cursor > 0 {
            log.cursor - 1
        } else {
            0
        };
    }
    dropped
}

/// Puts an entry behind those in force; those that were undone go, and the oldest where there are
/// too many. The ids of all that went: their commits need no longer be kept.
pub fn record_entry(log: &mut Log, entry: Entry) -> (r: Vec<String>)
    requires
        old(log).wf(),
    ensures
        ({
            let all = old(log).entries@.take(old(log).cursor as int).push(entry);
            let undone = old(log).entries@.skip(old(log).cursor as int);
            let k = excess(all.len() as int);
            &&& final(log).entries@ == all.skip(k)
            &&& final(log).cursor == final(log).entries@.len()
            &&& final(log).version == old(log).version
            &&& strs(r@) == ids(undone) + ids(all.take(k))
        }),
        final(log).wf(),
        final(log).entries@.len() <= MAX_ENTRIES,
        final(log).entries@.last() == entry,
{
    let ghost before = log.entries@;
    let mut undone = log.entries.split_off(log.cursor);
    let ghost gone = undone@;
    assert(log.entries@ =~= before.take(log.cursor as int));
    assert(gone =~= before.skip(log.cursor as int));
    let mut stale: Vec<String> = Vec::new();
    let mut i: usize = 0;
    while i < undone.len()
        invariant
            i <= undone@.len(),
            undone@ == gone,
            strs(stale@) == ids(gone).take(i as int),
        decreases undone@.len() - i,
    {
        let ghost was = stale@;
        stale.push(undone[i].id.clone());
        assert(strs(stale@) =~= strs(was).push(gone[i as int].id@));
        assert(strs(stale@) =~= ids(gone).take(i + 1));
        i += 1;
    }
    assert(strs(stale@) =~= ids(gone));
    log.entries.push(entry);
    log.cursor = log.entries.len();
    let ghost all = log.entries@;
    let mut old_ids = enforce_retention(log);
    let ghost a = stale@;
    let ghost b = old_ids@;
    stale.append(&mut old_ids);
    assert(strs(stale@) =~= strs(a) + strs(b));
    assert(log.entries@.last() == all.last());
    stale
}

/// What is done with an operation that has ended.
#[derive(Debug)]
pub enum Finalized {
    /// It moved no branch: its snapshot goes.
    Nothing,
    /// It has been recorded before: its snapshot goes.
    Recorded,
    /// It is recorded.
    New(Entry),
}

/// Decides what is done with an operation that has ended, from the branches and the checkout as they
/// are.
pub fn finalize(
    pending: Pending,
    after: &NameMap<String>,
    head_after: String,
    head_after_detached: bool,
    log: &Log,
) -> (r: Finalized)
    ensures
        ({
            let changes = difference(text_map(pending.branches@), text_map(after@));
            match r {
                Finalized::Nothing => changes == Map::<Seq<char>, ChangeView>::empty(),
                Finalized::Recorded => changes != Map::<Seq<char>, ChangeView>::empty()
                    && has_entry(log.entries@, pending.id@),
                Finalized::New(e) => {
                    &&& changes != Map::<Seq<char>, ChangeView>::empty()
                    &&& !has_entry(log.entries@, pending.id@)
                    &&& e.id == pending.id
                    &&& e.time == pending.time
                    &&& e.op == pending.op
                    &&& e.changes.listed()
                    &&& change_map(e.changes@) == changes
                    &&& e.summary@ == summary_of(pending.op@, e.changes.names(), changes)
                    &&& e.head_before == pending.head_before
                    &&& e.head_before_detached == pending.head_before_detached
                    &&& e.head_after == head_after
                    &&& e.head_after_detached == head_after_detached
                },
            }
        }),
{
    let changes = diff_branches(&pending.branches, after);
    if changes.len() == 0 {
        proof {
            assert forall|t: Seq<char>| !change_map(changes@).contains_key(t) by {
                assert(changes@.contains_key(t) <==> changes.names().contains(t));
            }
            assert(change_map(changes@) =~= Map::<Seq<char>, ChangeView>::empty());
        }
        return Finalized::Nothing;
    }
    proof {
        let t = changes.names()[0];
        assert(changes.names().contains(t));
        assert(changes@.contains_key(t));
        assert(change_map(changes@).contains_key(t));
        assert(!Map::<Seq<char>, ChangeView>::empty().contains_key(t));
    }
    if is_recorded(log, pending.id.as_str()) {
        return Finalized::Recorded;
    }
    let summary = summarize(pending.op.as_str(), &changes);
    Finalized::New(
        Entry {
            id: pending.id,
            time: pending.time,
            op: pending.op,
            summary,
            head_before: pending.head_before,
            head_before_detached: pending.head_before_detached,
            head_after,
            head_after_detached,
            changes,
        },
    )
}

/// A step of recording an operation.
#[derive(Debug, Clone, Copy, PartialEq, Eq, Structural)]
pub enum RecordStep {
    /// The commits of the entry get references.
    Anchor,
    SaveLog,
    /// The commits of entries that went lose theirs.
    RemoveAnchors,
    RemovePending,
    Done,
}

pub open spec fn record_after(done: Option<RecordStep>) -> RecordStep {
    match done {
        None => RecordStep::Anchor,
        Some(RecordStep::Anchor) => RecordStep::SaveLog,
        Some(RecordStep::SaveLog) => RecordStep::RemoveAnchors,
        Some(RecordStep::RemoveAnchors) => RecordStep::RemovePending,
        Some(_) => RecordStep::Done,
    }
}

/// The step behind one that succeeded.
pub fn next_record_step(done: Option<RecordStep>) -> (r: RecordStep)
    ensures
        r == record_after(done),
{
    match done {
        None => RecordStep::Anchor,
        Some(RecordStep::Anchor) => RecordStep::SaveLog,
        Some(RecordStep::SaveLog) => RecordStep::RemoveAnchors,
        Some(RecordStep::RemoveAnchors) => RecordStep::RemovePending,
        Some(_) => RecordStep::Done,
    }
}

/// The log on disk never names an entry whose commits are not kept: they are anchored before it is
/// saved, and let go only after it has been saved without them.
pub proof fn law_saved_entries_are_anchored(done: Option<RecordStep>)
    ensures
        record_after(done) == RecordStep::SaveLog ==> done == Some(RecordStep::Anchor),
        record_after(done) == RecordStep::RemoveAnchors ==> done == Some(RecordStep::SaveLog),
        record_after(done) == RecordStep::RemovePending ==> done == Some(
            RecordStep::RemoveAnchors,
        ),
{
}

/// The commits of an entry: every tip before and after it, and a checkout of no branch.
pub open spec fn is_anchored(e: Entry, hex: Seq<char>) -> bool {
    ||| exists|n: Seq<char>| #[trigger]
        e.changes@.contains_key(n) && (opt_string(e.changes@[n].pre) == Some(hex) || opt_string(
            e.changes@[n].post,
        ) == Some(hex))
    ||| e.head_before_detached && e.head_before@ == hex && hex.len() > 0
    ||| e.head_after_detached && e.head_after@ == hex && hex.len() > 0
}

fn note_oid(found: &mut NameMap<bool>, hex: &Option<String>)
    ensures
        forall|t: Seq<char>| #[trigger]
            final(found)@.contains_key(t) <==> old(found)@.contains_key(t) || opt_string(*hex)
                == Some(t),
{
    match hex {
        Some(h) => {
            found.insert(h.clone(), true);
        },
        None => {},
    }
}

/// The commits of an entry, in order, each once.
pub fn anchor_oids(entry: &Entry) -> (r: Vec<String>)
    ensures
        in_order(strs(r@)),
        forall|hex: Seq<char>| #[trigger] strs(r@).contains(hex) <==> is_anchored(*entry, hex),
{
    let mut found: NameMap<bool> = NameMap::new();
    let n: usize = entry.changes.len();
    let ghost names = entry.changes.names();
    let mut i: usize = 0;
    while i < n
        invariant
            i <= n,
            n == names.len(),
            names == entry.changes.names(),
            entry.changes.listed(),
            forall|hex: Seq<char>| #[trigger]
                found@.contains_key(hex) <==> exists|k: int|
                    0 <= k < i && (opt_string(entry.changes@[#[trigger] names[k]].pre) == Some(hex)
                        || opt_string(entry.changes@[names[k]].post) == Some(hex)),
        decreases n - i,
    {
        let ghost before = found@;
        let c = entry.changes.value_at(i);
        note_oid(&mut found, &c.pre);
        note_oid(&mut found, &c.post);
        proof {
            assert forall|hex: Seq<char>| #[trigger]
                found@.contains_key(hex) <==> exists|k: int|
                    0 <= k < i + 1 && (opt_string(entry.changes@[#[trigger] names[k]].pre) == Some(
                        hex,
                    ) || opt_string(entry.changes@[names[k]].post) == Some(hex)) by {
                assert(before.contains_key(hex) <==> exists|k: int|
                    0 <= k < i && (opt_string(entry.changes@[#[trigger] names[k]].pre) == Some(hex)
                        || opt_string(entry.changes@[names[k]].post) == Some(hex)));
                if found@.contains_key(hex) && !before.contains_key(hex) {
                    assert(opt_string(entry.changes@[names[i as int]].pre) == Some(hex)
                        || opt_string(entry.changes@[names[i as int]].post) == Some(hex));
                }
            }
        }
        i += 1;
    }
    if entry.head_before_detached && !entry.head_before.as_str().is_empty() {
        found.insert(entry.head_before.clone(), true);
    }
    if entry.head_after_detached && !entry.head_after.as_str().is_empty() {
        found.insert(entry.head_after.clone(), true);
    }
    proof {
        assert forall|hex: Seq<char>| #[trigger]
            found@.contains_key(hex) <==> is_anchored(*entry, hex) by {
            if exists|k: int|
                0 <= k < n && (opt_string(entry.changes@[#[trigger] names[k]].pre) == Some(hex)
                    || opt_string(entry.changes@[names[k]].post) == Some(hex)) {
                let k = choose|k: int|
                    0 <= k < n && (opt_string(entry.changes@[#[trigger] names[k]].pre) == Some(hex)
                        || opt_string(entry.changes@[names[k]].post) == Some(hex));
                assert(names.contains(names[k]));
                assert(entry.changes@.contains_key(names[k]));
            }
            if exists|t: Seq<char>| #[trigger]
                entry.changes@.contains_key(t) && (opt_string(entry.changes@[t].pre) == Some(hex)
                    || opt_string(entry.changes@[t].post) == Some(hex)) {
                let t = choose|t: Seq<char>| #[trigger]
                    entry.changes@.contains_key(t) && (opt_string(entry.changes@[t].pre) == Some(
                        hex,
                    ) || opt_string(entry.changes@[t].post) == Some(hex));
                let k = names.index_of(t);
                assert(names[k] == t);
            }
        }
    }
    let m: usize = found.len();
    let mut out: Vec<String> = Vec::new();
    let mut j: usize = 0;
    while j < m
        invariant
            j <= m,
            m == found.names().len(),
            strs(out@) == found.names().take(j as int),
        decreases m - j,
    {
        let ghost before = out@;
        out.push(found.name_at(j).clone());
        assert(strs(out@) =~= strs(before).push(found.names()[j as int]));
        assert(strs(out@) =~= found.names().take(j + 1));
        j += 1;
    }
    proof {
        assert(strs(out@) =~= found.names());
        assert forall|hex: Seq<char>| #[trigger]
            strs(out@).contains(hex) <==> is_anchored(*entry, hex) by {
            assert(found@.contains_key(hex) <==> found.names().contains(hex));
        }
    }
    out
}

/// Where the references of an entry lie.
pub fn anchor_namespace(id: &str) -> (r: String)
    ensures
        r@ == "refs/kindra/undo/"@ + id@,
{
    cat2("refs/kindra/undo/", id)
}

/// A reference that keeps a commit, or why there is none.
#[derive(Debug)]
pub enum Anchor {
    /// The reference and the commit.
    Create(String, String),
    /// The text is no id.
    Invalid(String),
}

/// How the commit is kept.
pub open spec fn is_anchor(a: Anchor, id: Seq<char>, hex: Seq<char>) -> bool {
    if is_oid_text(hex) {
        a matches Anchor::Create(name, oid) && name@ == "refs/kindra/undo/"@ + id + "/"@ + hex
            && oid@ == full_oid(hex)
    } else {
        a matches Anchor::Invalid(h) && h@ == hex
    }
}

/// The references that keep the commits of an entry, in the order of the commits.
pub fn anchor_entry(entry: &Entry) -> (r: Vec<Anchor>)
    ensures
        exists|hexes: Seq<Seq<char>>|
            {
                &&& #[trigger] in_order(hexes)
                &&& forall|hex: Seq<char>| #[trigger]
                    hexes.contains(hex) <==> is_anchored(*entry, hex)
                &&& r@.len() == hexes.len()
                &&& forall|i: int|
                    0 <= i < r@.len() ==> is_anchor(#[trigger] r@[i], entry.id@, hexes[i])
            },
{
    let found = anchor_oids(entry);
    let ghost hexes = strs(found@);
    let namespace = anchor_namespace(entry.id.as_str());
    let mut out: Vec<Anchor> = Vec::new();
    let mut i: usize = 0;
    while i < found.len()
        invariant
            i <= found@.len(),
            hexes == strs(found@),
            namespace@ == "refs/kindra/undo/"@ + entry.id@,
            out@.len() == i,
            forall|k: int| 0 <= k < i ==> is_anchor(#[trigger] out@[k], entry.id@, hexes[k]),
        decreases found@.len() - i,
    {
        let hex = found[i].as_str();
        let anchor = match parse_oid(hex) {
            Some(oid) => Anchor::Create(cat3(namespace.as_str(), "/", hex), oid),
            None => Anchor::Invalid(hex.to_owned()),
        };
        assert(is_anchor(anchor, entry.id@, hexes[i as int]));
        out.push(anchor);
        i += 1;
    }
    assert(in_order(hexes));
    out
}

/// Why a log cannot be read.
#[derive(Debug)]
pub struct UnsupportedLog {
    pub version: u32,
    pub path: String,
}

impl UnsupportedLog {
    pub fn message(&self) -> (r: String)
        ensures
            r@ == "Unsupported Kindra oplog version "@ + dec(self.version as nat) + " in "@ + (
            self.path@ + " (expected "@ + dec(OPLOG_VERSION as nat)
                + "). Remove the file to reset undo history."@),
    {
        let end = cat4(
            self.path.as_str(),
            " (expected ",
            decimal(OPLOG_VERSION as u64).as_str(),
            "). Remove the file to reset undo history.",
        );
        cat4(
            "Unsupported Kindra oplog version ",
            decimal(self.version as u64).as_str(),
            " in ",
            end.as_str(),
        )
    }
}

/// Takes a log as it was read: a cursor behind the entries is put at their end.
pub fn load_log(read: Option<Log>, path: &str) -> (r: Result<Log, UnsupportedLog>)
    ensures
        match read {
            None => r matches Ok(log) && log.version == OPLOG_VERSION && log.cursor == 0
                && log.entries@.len() == 0,
            Some(raw) => if raw.version != OPLOG_VERSION {
                r matches Err(e) && e.version == raw.version && e.path@ == path@
            } else {
                r matches Ok(log) && log.version == raw.version && log.entries == raw.entries
                    && log.cursor == if raw.cursor <= raw.entries@.len() {
                    raw.cursor as int
                } else {
                    raw.entries@.len() as int
                }
            },
        },
        r matches Ok(log) ==> log.wf(),
{
    match read {
        None => Ok(Log { version: OPLOG_VERSION, cursor: 0, entries: Vec::new() }),
        Some(mut log) => {
            if log.version != OPLOG_VERSION {
                return Err(UnsupportedLog { version: log.version, path: path.to_owned() });
            }
            if log.cursor > log.entries.len() {
                log.cursor = log.entries.len();
            }
            Ok(log)
        },
    }
}

/// The entry that is undone or redone next.
pub open spec fn next_index(log: Log, dir: Direction) -> Option<int> {
    match dir {
        Direction::Undo => if log.cursor > 0 {
            Some(log.cursor - 1)
        } else {
            None
        },
        Direction::Redo => if log.cursor < log.entries@.len() {
            Some(log.cursor as int)
        } else {
            None
        },
    }
}

/// The entry that is undone or redone next.
pub fn next_entry(log: &Log, dir: Direction) -> (r: Option<&Entry>)
    requires
        log.wf(),
    ensures
        match next_index(*log, dir) {
            Some(i) => r matches Some(e) && *e == log.entries@[i],
            None => r is None,
        },
{
    match dir {
        Direction::Undo => if log.cursor > 0 {
            Some(&log.entries[log.cursor - 1])
        } else {
            None
        },
        Direction::Redo => if log.cursor < log.entries.len() {
            Some(&log.entries[log.cursor])
        } else {
            None
        },
    }
}

/// The log after its next entry was undone or redone.
pub open spec fn cursor_after(log: Log, dir: Direction) -> int {
    match dir {
        Direction::Undo => if log.cursor > 0 {
            log.cursor - 1
        } else {
            0
        },
        Direction::Redo => if log.cursor < log.entries@.len() {
            log.cursor + 1
        } else {
            log.cursor as int
        },
    }
}

/// Moves the cursor past an entry that was undone or redone.
pub fn advance(log: &mut Log, dir: Direction)
    requires
        old(log).wf(),
    ensures
        final(log).wf(),
        final(log).cursor == cursor_after(*old(log), dir),
        final(log).entries == old(log).entries,
        final(log).version == old(log).version,
{
    let n: usize = log.entries.len();
    match dir {
        Direction::Undo => {
            if log.cursor > 0 {
                log.cursor -= 1;
            }
        },
        Direction::Redo => {
            if log.cursor < n {
                log.cursor += 1;
            }
        },
    }
}

/// After an undo the same entry can be redone, and after a redo undone; the log is then as it was.
pub proof fn law_redo_takes_the_undone_entry(log: Log, after: Log, dir: Direction)
    requires
        log.wf(),
        next_index(log, dir) is Some,
        after.entries == log.entries,
        after.cursor == cursor_after(log, dir),
    ensures
        ({
            let other = match dir {
                Direction::Undo => Direction::Redo,
                Direction::Redo => Direction::Undo,
            };
            next_index(after, other) == next_index(log, dir) && cursor_after(after, other)
                == log.cursor
        }),
{
}

/// A new operation leaves nothing to redo, and is the next to be undone.
pub proof fn law_new_entry_ends_redo(before: Log, after: Log, entry: Entry)
    requires
        before.wf(),
        ({
            let all = before.entries@.take(before.cursor as int).push(entry);
            after.entries@ == all.skip(excess(all.len() as int))
        }),
        after.cursor == after.entries@.len(),
    ensures
        next_index(after, Direction::Redo) is None,
        next_index(after, Direction::Undo) == Some(after.entries@.len() - 1),
        after.entries@[after.entries@.len() - 1] == entry,
{
}

/// An age in words.
pub open spec fn age_of(secs: u64) -> Seq<char> {
    if secs < 60 {
        dec(secs as nat) + "s"@
    } else if secs < 3600 {
        dec((secs / 60) as nat) + "m"@
    } else if secs < 86_400 {
        dec((secs / 3600) as nat) + "h"@
    } else {
        dec((secs / 86_400) as nat) + "d"@
    }
}

pub fn format_age(secs: u64) -> (r: String)
    ensures
        r@ == age_of(secs),
{
    if secs < 60 {
        cat2(decimal(secs).as_str(), "s")
    } else if secs < 3600 {
        cat2(decimal(secs / 60).as_str(), "m")
    } else if secs < 86_400 {
        cat2(decimal(secs / 3600).as_str(), "h")
    } else {
        cat2(decimal(secs / 86_400).as_str(), "d")
    }
}

/// The line of an entry: a star marks the last one in force, an arrow one that can be redone.
pub open spec fn entry_line(log: Log, i: int, now_secs: u64) -> Seq<char> {
    let e = log.entries@[i];
    let marker = if i == log.cursor - 1 {
        "* "@
    } else if i >= log.cursor {
        "↑ "@
    } else {
        "  "@
    };
    let age = if now_secs >= e.time {
        (now_secs - e.time) as u64
    } else {
        0
    };
    marker + age_of(age) + " ago  "@ + padded(e.op@, 8) + (" "@ + e.summary@)
}

/// What stands below the entries.
pub open spec fn log_note(log: Log) -> Seq<Seq<char>> {
    if log.cursor == 0 {
        seq![
            ""@,
            "All recorded operations have been undone. 'kin redo' reapplies the oldest undone one."@,
        ]
    } else if log.cursor < log.entries@.len() {
        seq![""@, "* = current state   ↑ = undone (redoable with 'kin redo')"@]
    } else {
        Seq::empty()
    }
}

/// The lines of a log.
pub open spec fn log_lines(log: Log, now_secs: u64) -> Seq<Seq<char>> {
    let n = log.entries@.len();
    if n == 0 {
        seq!["No operations recorded yet."@]
    } else {
        seq!["Kindra operation log (newest first):"@] + Seq::new(
            n,
            |i: int| entry_line(log, n - 1 - i, now_secs),
        ) + log_note(log)
    }
}

/// The lines of a log at a time, the newest entry first.
pub fn reflog_at(log: &Log, now_secs: u64) -> (r: Vec<String>)
    requires
        log.wf(),
    ensures
        strs(r@) == log_lines(*log, now_secs),
{
    let mut out: Vec<String> = Vec::new();
    let n: usize = log.entries.len();
    if n == 0 {
        push_text(&mut out, "No operations recorded yet.".to_owned());
        assert(strs(out@) =~= log_lines(*log, now_secs));
        return out;
    }
    push_text(&mut out, "Kindra operation log (newest first):".to_owned());
    let ghost lines = Seq::new(n as nat, |i: int| entry_line(*log, n - 1 - i, now_secs));
    let ghost head = strs(out@);
    assert(head =~= seq!["Kindra operation log (newest first):"@]);
    assert(head =~= head + lines.take(0));
    let mut k: usize = 0;
    while k < n
        invariant
            k <= n,
            n == log.entries@.len(),
            lines == Seq::new(n as nat, |i: int| entry_line(*log, n - 1 - i, now_secs)),
            strs(out@) == head + lines.take(k as int),
        decreases n - k,
    {
        let i: usize = n - 1 - k;
        let e = &log.entries[i];
        let marker = if log.cursor > 0 && i == log.cursor - 1 {
            "* "
        } else if i >= log.cursor {
            "↑ "
        } else {
            "  "
        };
        let age: u64 = if now_secs >= e.time {
            now_secs - e.time
        } else {
            0
        };
        let tail = cat2(" ", e.summary.as_str());
        let line = cat5(
            marker,
            format_age(age).as_str(),
            " ago  ",
            pad(e.op.as_str(), 8).as_str(),
            tail.as_str(),
        );
        assert(line@ == lines[k as int]);
        push_text(&mut out, line);
        assert(strs(out@) =~= head + lines.take(k + 1));
        k += 1;
    }
    assert(lines.take(n as int) =~= lines);
    if log.cursor == 0 {
        push_text(&mut out, "".to_owned());
        push_text(
            &mut out,
            "All recorded operations have been undone. 'kin redo' reapplies the oldest undone one.".to_owned(),
        );
    } else if log.cursor < n {
        push_text(&mut out, "".to_owned());
        push_text(
            &mut out,
            "* = current state   ↑ = undone (redoable with 'kin redo')".to_owned(),
        );
    }
    assert(strs(out@) =~= log_lines(*log, now_secs));
    out
}

/// The lines of a log, the newest entry first, with the ages at the time of the call.
pub fn reflog(log: &Log) -> (r: Vec<String>)
    requires
        log.wf(),
    ensures
        exists|secs: u64| strs(r@) == #[trigger] log_lines(*log, secs),
{
    reflog_at(log, now().1)
}

/// Whether an operation is under way: one of the saved ones, or a rebase of git's own.
pub fn operation_in_progress(rebase_state: bool, run_state: bool, git_rebase: bool) -> (r: bool)
    ensures
        r == (rebase_state || run_state || git_rebase),
{
    rebase_state || run_state || git_rebase
}

/// What is said after an undo or a redo.
pub open spec fn moved_lines(e: Entry, dir: Direction) -> Seq<Seq<char>> {
    match dir {
        Direction::Undo => seq![
            "Undid "@ + e.op@ + ": "@ + e.summary@,
            "Run 'kin redo' to reapply it."@,
        ],
        Direction::Redo => seq!["Redid "@ + e.op@ + ": "@ + e.summary@],
    }
}

pub fn moved_message(entry: &Entry, dir: Direction) -> (r: Vec<String>)
    ensures
        strs(r@) == moved_lines(*entry, dir),
{
    let mut out: Vec<String> = Vec::new();
    match dir {
        Direction::Undo => {
            push_text(
                &mut out,
                cat4("Undid ", entry.op.as_str(), ": ", entry.summary.as_str()),
            );
            push_text(&mut out, "Run 'kin redo' to reapply it.".to_owned());
        },
        Direction::Redo => {
            push_text(
                &mut out,
                cat4("Redid ", entry.op.as_str(), ": ", entry.summary.as_str()),
            );
        },
    }
    assert(strs(out@) =~= moved_lines(*entry, dir));
    out
}

} // verus!
