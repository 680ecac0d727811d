//! How an entry of the log is undone or redone: when that is refused, and what git is told.

use crate::head::{HeadAt, RepoView};
use crate::names::{text_map, NameMap};
use crate::oid::{full_oid, is_oid_text, parse_oid};
use crate::oplog::{
    change_map, change_view, cursor_after, difference, law_redo_reverses_undo,
    law_redo_takes_the_undone_entry, moved, next_index, tip_of, undrifted, Change, ChangeView,
    Direction, Entry, Log,
};
use crate::text::{
    cat2, cat3, cat5, join, join_of, list, opt_string, push_text, same, starts_with, strs,
};
use vstd::prelude::*;

verus! {

/// Why an entry is not undone or redone.
#[derive(Debug)]
pub enum RestoreError {
    /// There are changes that are not committed.
    Dirty,
    /// Those branches have moved since.
    Drifted(Vec<String>),
    /// The branch to go back to has no commit.
    NoCommit(String),
    /// The commit to go back to is no id.
    InvalidHead(String),
    /// The tip of the branch to go back to is no id.
    InvalidTip(String, String),
}

impl RestoreError {
    pub open spec fn text(self) -> Seq<char> {
        match self {
            RestoreError::Dirty =>
                "Working tree has uncommitted changes; refusing to move branches. Commit or stash them, or rerun with --force to discard them."@,
            RestoreError::Drifted(v) => "These branches changed since the operation: "@ + join_of(
                strs(v@),
                ", "@,
            ) + ". Rerun with --force to overwrite them anyway."@,
            RestoreError::NoCommit(b) => "Cannot restore HEAD: branch '"@ + b@
                + "' has no known commit to return to"@,
            RestoreError::InvalidHead(h) => "Invalid saved detached HEAD '"@ + h@ + "'"@,
            RestoreError::InvalidTip(t, b) => "Invalid saved tip '"@ + t@ + "' for '"@ + b@ + "'"@,
        }
    }

    pub fn message(&self) -> (r: String)
        ensures
            r@ == self.text(),
    {
        match self {
            RestoreError::Dirty =>
                "Working tree has uncommitted changes; refusing to move branches. Commit or stash them, or rerun with --force to discard them.".to_owned(),
            RestoreError::Drifted(v) => cat3(
                "These branches changed since the operation: ",
                join(v, ", ").as_str(),
                ". Rerun with --force to overwrite them anyway.",
            ),
            RestoreError::NoCommit(b) => cat3(
                "Cannot restore HEAD: branch '",
                b.as_str(),
                "' has no known commit to return to",
            ),
            RestoreError::InvalidHead(h) => cat3("Invalid saved detached HEAD '", h.as_str(), "'"),
            RestoreError::InvalidTip(t, b) => cat5(
                "Invalid saved tip '",
                t.as_str(),
                "' for '",
                b.as_str(),
                "'",
            ),
        }
    }
}

/// The branches among the names that do not have the tip that is expected.
pub open spec fn drifted_among(
    names: Seq<Seq<char>>,
    changes: Map<Seq<char>, ChangeView>,
    tips: Map<Seq<char>, Seq<char>>,
    dir: Direction,
) -> Seq<Seq<char>>
    decreases names.len(),
{
    if names.len() == 0 {
        Seq::empty()
    } else {
        let n = names.last();
        let rest = drifted_among(names.drop_last(), changes, tips, dir);
        if tip_of(tips, n) != dir.expected_of(changes[n]) {
            rest.push(n)
        } else {
            rest
        }
    }
}

fn look_up(tips: &NameMap<String>, name: &str) -> (r: Option<String>)
    ensures
        opt_string(r) == tip_of(text_map(tips@), name@),
{
    assert(text_map(tips@).contains_key(name@) == tips@.contains_key(name@));
    match tips.get(name) {
        Some(t) => Some(t.clone()),
        None => None,
    }
}

/// The branches that do not have the tip that is expected, in order.
pub fn drifted_branches(changes: &NameMap<Change>, tips: &NameMap<String>, dir: Direction) -> (r: Vec<
    String,
>)
    ensures
        changes.listed(),
        strs(r@) == drifted_among(changes.names(), change_map(changes@), text_map(tips@), dir),
{
    let n: usize = changes.len();
    let ghost all = changes.names();
    let ghost map = change_map(changes@);
    let ghost now = text_map(tips@);
    let mut out: Vec<String> = Vec::new();
    let mut i: usize = 0;
    assert(strs(out@) =~= Seq::<Seq<char>>::empty());
    while i < n
        invariant
            i <= n,
            n == changes.names().len(),
            all == changes.names(),
            map == change_map(changes@),
            now == text_map(tips@),
            strs(out@) == drifted_among(all.take(i as int), map, now, dir),
        decreases n - i,
    {
        let name = changes.name_at(i);
        let c = changes.value_at(i);
        proof {
            assert(all.take(i + 1).drop_last() =~= all.take(i as int));
            assert(all.take(i + 1).last() == name@);
            assert(map[name@] == change_view(*c));
        }
        let current = look_up(tips, name.as_str());
        if !crate::text::same_opt(&current, dir.expected(c)) {
            push_text(&mut out, name.clone());
        }
        i += 1;
    }
    assert(all.take(all.len() as int) =~= all);
    out
}

proof fn lemma_drifted(
    names: Seq<Seq<char>>,
    changes: Map<Seq<char>, ChangeView>,
    tips: Map<Seq<char>, Seq<char>>,
    dir: Direction,
)
    ensures
        drifted_among(names, changes, tips, dir).len() == 0 <==> forall|i: int|
            0 <= i < names.len() ==> tip_of(tips, #[trigger] names[i]) == dir.expected_of(
                changes[names[i]],
            ),
    decreases names.len(),
{
    if names.len() > 0 {
        let rest = names.drop_last();
        lemma_drifted(rest, changes, tips, dir);
        let n = names.len() - 1;
        if drifted_among(names, changes, tips, dir).len() == 0 {
            assert forall|i: int| 0 <= i < names.len() implies tip_of(tips, #[trigger] names[i])
                == dir.expected_of(changes[names[i]]) by {
                if i < n {
                    assert(rest[i] == names[i]);
                }
            }
        }
        if forall|i: int|
            0 <= i < names.len() ==> tip_of(tips, #[trigger] names[i]) == dir.expected_of(
                changes[names[i]],
            ) {
            assert(tip_of(tips, names[n]) == dir.expected_of(changes[names[n]]));
            assert forall|i: int| 0 <= i < rest.len() implies tip_of(tips, #[trigger] rest[i])
                == dir.expected_of(changes[rest[i]]) by {
                assert(rest[i] == names[i]);
            }
        }
    }
}

/// No branch counts as drifted if and only if every changed branch has the tip that is expected.
pub proof fn law_drift_is_any_other_tip(
    names: Seq<Seq<char>>,
    changes: Map<Seq<char>, ChangeView>,
    tips: Map<Seq<char>, Seq<char>>,
    dir: Direction,
)
    requires
        forall|n: Seq<char>| #[trigger] changes.contains_key(n) <==> names.contains(n),
    ensures
        drifted_among(names, changes, tips, dir).len() == 0 <==> undrifted(tips, changes, dir),
{
    lemma_drifted(names, changes, tips, dir);
    if undrifted(tips, changes, dir) {
        assert forall|i: int| 0 <= i < names.len() implies tip_of(tips, #[trigger] names[i])
            == dir.expected_of(changes[names[i]]) by {
            assert(names.contains(names[i]));
            assert(changes.contains_key(names[i]));
        }
    }
    if drifted_among(names, changes, tips, dir).len() == 0 {
        assert forall|n: Seq<char>| #[trigger] changes.contains_key(n) implies tip_of(tips, n)
            == dir.expected_of(changes[n]) by {
            let k = names.index_of(n);
            assert(names[k] == n);
        }
    }
}

/// The branches among the names that are deleted: they get no tip, and are there.
pub open spec fn deletions_among(
    names: Seq<Seq<char>>,
    changes: Map<Seq<char>, ChangeView>,
    tips: Map<Seq<char>, Seq<char>>,
    dir: Direction,
) -> Seq<Seq<char>>
    decreases names.len(),
{
    if names.len() == 0 {
        Seq::empty()
    } else {
        let n = names.last();
        let rest = deletions_among(names.drop_last(), changes, tips, dir);
        if dir.target_of(changes[n]) is None && tips.contains_key(n) {
            rest.push(n)
        } else {
            rest
        }
    }
}

/// The branches among the names that get a tip, with it.
pub open spec fn updates_among(
    names: Seq<Seq<char>>,
    changes: Map<Seq<char>, ChangeView>,
    dir: Direction,
) -> Seq<(Seq<char>, Seq<char>)>
    decreases names.len(),
{
    if names.len() == 0 {
        Seq::empty()
    } else {
        let n = names.last();
        let rest = updates_among(names.drop_last(), changes, dir);
        match dir.target_of(changes[n]) {
            Some(oid) => rest.push((n, oid)),
            None => rest,
        }
    }
}

/// The branches without those that are deleted.
pub open spec fn after_deletions(
    tips: Map<Seq<char>, Seq<char>>,
    deletions: Seq<Seq<char>>,
) -> Map<Seq<char>, Seq<char>>
    decreases deletions.len(),
{
    if deletions.len() == 0 {
        tips
    } else {
        after_deletions(tips, deletions.drop_last()).remove(deletions.last())
    }
}

/// The branches with the tips that are given.
pub open spec fn after_updates(
    tips: Map<Seq<char>, Seq<char>>,
    updates: Seq<(Seq<char>, Seq<char>)>,
) -> Map<Seq<char>, Seq<char>>
    decreases updates.len(),
{
    if updates.len() == 0 {
        tips
    } else {
        after_updates(tips, updates.drop_last()).insert(updates.last().0, updates.last().1)
    }
}

proof fn lemma_after_deletions(
    names: Seq<Seq<char>>,
    changes: Map<Seq<char>, ChangeView>,
    tips: Map<Seq<char>, Seq<char>>,
    dir: Direction,
    t: Seq<char>,
)
    ensures
        ({
            let after = after_deletions(tips, deletions_among(names, changes, tips, dir));
            &&& after.contains_key(t) <==> tips.contains_key(t) && !(names.contains(t)
                && dir.target_of(changes[t]) is None)
            &&& after.contains_key(t) ==> after[t] == tips[t]
        }),
    decreases names.len(),
{
    if names.len() > 0 {
        let rest = names.drop_last();
        let n = names.last();
        lemma_after_deletions(rest, changes, tips, dir, t);
        let dels = deletions_among(rest, changes, tips, dir);
        assert(dels.push(n).drop_last() =~= dels);
        assert(names =~= rest.push(n));
        if rest.contains(t) {
            assert(names[rest.index_of(t)] == t);
        }
        assert(names[names.len() - 1] == n);
        if names.contains(t) && t != n {
            let k = names.index_of(t);
            assert(rest[k] == t);
        }
    }
}

proof fn lemma_after_updates(
    names: Seq<Seq<char>>,
    changes: Map<Seq<char>, ChangeView>,
    tips: Map<Seq<char>, Seq<char>>,
    dir: Direction,
    t: Seq<char>,
)
    ensures
        ({
            let after = after_updates(tips, updates_among(names, changes, dir));
            let given = names.contains(t) && dir.target_of(changes[t]) is Some;
            &&& after.contains_key(t) <==> given || tips.contains_key(t)
            &&& given ==> after[t] == dir.target_of(changes[t])->0
            &&& !given && tips.contains_key(t) ==> after[t] == tips[t]
        }),
    decreases names.len(),
{
    if names.len() > 0 {
        let rest = names.drop_last();
        let n = names.last();
        lemma_after_updates(rest, changes, tips, dir, t);
        let ups = updates_among(rest, changes, dir);
        match dir.target_of(changes[n]) {
            Some(oid) => {
                assert(ups.push((n, oid)).drop_last() =~= ups);
            },
            None => {},
        }
        if rest.contains(t) {
            assert(names[rest.index_of(t)] == t);
        }
        assert(names[names.len() - 1] == n);
        if names.contains(t) && t != n {
            let k = names.index_of(t);
            assert(rest[k] == t);
        }
    }
}

/// What git is told moves the branches exactly as the entry says: it deletes and updates nothing
/// else, and leaves nothing out.
pub proof fn law_restore_moves_the_branches(
    names: Seq<Seq<char>>,
    changes: Map<Seq<char>, ChangeView>,
    tips: Map<Seq<char>, Seq<char>>,
    dir: Direction,
)
    requires
        forall|n: Seq<char>| #[trigger] changes.contains_key(n) <==> names.contains(n),
    ensures
        after_updates(
            after_deletions(tips, deletions_among(names, changes, tips, dir)),
            updates_among(names, changes, dir),
        ) == moved(tips, changes, dir),
{
    let mid = after_deletions(tips, deletions_among(names, changes, tips, dir));
    let end = after_updates(mid, updates_among(names, changes, dir));
    let want = moved(tips, changes, dir);
    assert forall|t: Seq<char>| end.contains_key(t) <==> want.contains_key(t) by {
        lemma_after_deletions(names, changes, tips, dir, t);
        lemma_after_updates(names, changes, mid, dir, t);
        assert(changes.contains_key(t) <==> names.contains(t));
    }
    assert forall|t: Seq<char>| end.contains_key(t) implies end[t] == want[t] by {
        lemma_after_deletions(names, changes, tips, dir, t);
        lemma_after_updates(names, changes, mid, dir, t);
        assert(changes.contains_key(t) <==> names.contains(t));
    }
    assert(end =~= want);
}

/// An operation that is undone at once leaves every branch as it was before it.
pub proof fn law_undo_restores_every_branch(
    names: Seq<Seq<char>>,
    before: Map<Seq<char>, Seq<char>>,
    after: Map<Seq<char>, Seq<char>>,
)
    requires
        forall|n: Seq<char>| #[trigger]
            difference(before, after).contains_key(n) <==> names.contains(n),
    ensures
        ({
            let d = difference(before, after);
            &&& drifted_among(names, d, after, Direction::Undo).len() == 0
            &&& after_updates(
                after_deletions(after, deletions_among(names, d, after, Direction::Undo)),
                updates_among(names, d, Direction::Undo),
            ) == before
        }),
{
    let d = difference(before, after);
    crate::oplog::law_undo_and_redo(before, after);
    law_restore_moves_the_branches(names, d, after, Direction::Undo);
    law_drift_is_any_other_tip(names, d, after, Direction::Undo);
}

/// The two names cannot both be files of one store: one is the directory of the other.
pub open spec fn prefix_conflict(a: Seq<char>, b: Seq<char>) -> bool {
    a == b || (a + "/"@).is_prefix_of(b) || (b + "/"@).is_prefix_of(a)
}

/// Whether two references cannot be locked together.
pub fn ref_prefix_conflict(a: &str, b: &str) -> (r: bool)
    ensures
        r == prefix_conflict(a@, b@),
{
    let x = cat2(a, "/");
    let y = cat2(b, "/");
    same(a, b) || starts_with(b, x.as_str()) || starts_with(a, y.as_str())
}

/// Some branch that is deleted cannot be locked together with one that gets a tip.
pub open spec fn has_conflict(
    deletions: Seq<Seq<char>>,
    updates: Seq<(Seq<char>, Seq<char>)>,
) -> bool {
    exists|i: int, j: int|
        0 <= i < deletions.len() && 0 <= j < updates.len() && prefix_conflict(
            #[trigger] deletions[i],
            (#[trigger] updates[j]).0,
        )
}

pub open spec fn delete_lines(deletions: Seq<Seq<char>>) -> Seq<char>
    decreases deletions.len(),
{
    if deletions.len() == 0 {
        ""@
    } else {
        delete_lines(deletions.drop_last()) + ("delete refs/heads/"@ + deletions.last() + "\n"@)
    }
}

pub open spec fn update_lines(updates: Seq<(Seq<char>, Seq<char>)>) -> Seq<char>
    decreases updates.len(),
{
    if updates.len() == 0 {
        ""@
    } else {
        update_lines(updates.drop_last()) + ("update refs/heads/"@ + updates.last().0 + " "@
            + updates.last().1 + "\n"@)
    }
}

/// The inputs of `git update-ref --stdin`, one for each transaction: a single one, unless a branch
/// that is deleted stands in the way of one that gets a tip.
pub open spec fn transactions_of(
    deletions: Seq<Seq<char>>,
    updates: Seq<(Seq<char>, Seq<char>)>,
) -> Seq<Seq<char>> {
    if has_conflict(deletions, updates) {
        seq![delete_lines(deletions), update_lines(updates)]
    } else if deletions.len() > 0 || updates.len() > 0 {
        seq![delete_lines(deletions) + update_lines(updates)]
    } else {
        Seq::empty()
    }
}

fn transactions(changes: &NameMap<Change>, tips: &NameMap<String>, dir: Direction) -> (r: Vec<
    String,
>)
    ensures
        changes.listed(),
        strs(r@) == transactions_of(
            deletions_among(changes.names(), change_map(changes@), text_map(tips@), dir),
            updates_among(changes.names(), change_map(changes@), dir),
        ),
{
    let n: usize = changes.len();
    let ghost all = changes.names();
    let ghost map = change_map(changes@);
    let ghost now = text_map(tips@);
    let mut deleted: Vec<String> = Vec::new();
    let mut updated: Vec<String> = Vec::new();
    let mut delete_text = "".to_owned();
    let mut update_text = "".to_owned();
    let mut i: usize = 0;
    assert(strs(deleted@) =~= Seq::<Seq<char>>::empty());
    while i < n
        invariant
            i <= n,
            n == changes.names().len(),
            all == changes.names(),
            map == change_map(changes@),
            now == text_map(tips@),
            strs(deleted@) == deletions_among(all.take(i as int), map, now, dir),
            updated@.len() == updates_among(all.take(i as int), map, dir).len(),
            forall|k: int|
                0 <= k < updated@.len() ==> (#[trigger] updated@[k])@ == updates_among(
                    all.take(i as int),
                    map,
                    dir,
                )[k].0,
            delete_text@ == delete_lines(deletions_among(all.take(i as int), map, now, dir)),
            update_text@ == update_lines(updates_among(all.take(i as int), map, dir)),
        decreases n - i,
    {
        let name = changes.name_at(i);
        let c = changes.value_at(i);
        let ghost dels = deletions_among(all.take(i as int), map, now, dir);
        let ghost ups = updates_among(all.take(i as int), map, dir);
        proof {
            assert(all.take(i + 1).drop_last() =~= all.take(i as int));
            assert(all.take(i + 1).last() == name@);
            assert(map[name@] == change_view(*c));
            assert(now.contains_key(name@) == tips@.contains_key(name@));
            assert(dels.push(name@).drop_last() =~= dels);
        }
        match dir.target(c) {
            Some(oid) => {
                assert(ups.push((name@, oid@)).drop_last() =~= ups);
                let line = cat5("update refs/heads/", name.as_str(), " ", oid.as_str(), "\n");
                update_text = cat2(update_text.as_str(), line.as_str());
                updated.push(name.clone());
            },
            None => {
                if tips.contains(name.as_str()) {
                    let line = cat3("delete refs/heads/", name.as_str(), "\n");
                    delete_text = cat2(delete_text.as_str(), line.as_str());
                    push_text(&mut deleted, name.clone());
                }
            },
        }
        i += 1;
    }
    assert(all.take(all.len() as int) =~= all);
    let ghost dels = deletions_among(all, map, now, dir);
    let ghost ups = updates_among(all, map, dir);
    assert(strs(deleted@).len() == deleted@.len());
    let conflict = find_conflict(&deleted, &updated);
    assert(conflict == has_conflict(dels, ups)) by {
        if conflict {
            let (a, b) = choose|a: int, b: int|
                0 <= a < deleted@.len() && 0 <= b < updated@.len() && prefix_conflict(
                    (#[trigger] deleted@[a])@,
                    (#[trigger] updated@[b])@,
                );
            assert(dels[a] == deleted@[a]@ && ups[b].0 == updated@[b]@);
        }
        if has_conflict(dels, ups) {
            let (a, b) = choose|a: int, b: int|
                0 <= a < dels.len() && 0 <= b < ups.len() && prefix_conflict(
                    #[trigger] dels[a],
                    (#[trigger] ups[b]).0,
                );
            assert(dels[a] == deleted@[a]@ && ups[b].0 == updated@[b]@);
        }
    }
    let mut out: Vec<String> = Vec::new();
    if conflict {
        push_text(&mut out, delete_text);
        push_text(&mut out, update_text);
    } else if deleted.len() > 0 || updated.len() > 0 {
        push_text(&mut out, cat2(delete_text.as_str(), update_text.as_str()));
    }
    assert(strs(out@) =~= transactions_of(dels, ups));
    out
}

fn find_conflict(deleted: &Vec<String>, updated: &Vec<String>) -> (r: bool)
    ensures
        r <==> exists|a: int, b: int|
            0 <= a < deleted@.len() && 0 <= b < updated@.len() && prefix_conflict(
                (#[trigger] deleted@[a])@,
                (#[trigger] updated@[b])@,
            ),
{
    let mut i: usize = 0;
    while i < deleted.len()
        invariant
            i <= deleted@.len(),
            forall|a: int, b: int|
                0 <= a < i && 0 <= b < updated@.len() ==> !prefix_conflict(
                    (#[trigger] deleted@[a])@,
                    (#[trigger] updated@[b])@,
                ),
        decreases deleted@.len() - i,
    {
        let mut j: usize = 0;
        while j < updated.len()
            invariant
                i < deleted@.len(),
                j <= updated@.len(),
                forall|b: int|
                    0 <= b < j ==> !prefix_conflict(
                        deleted@[i as int]@,
                        (#[trigger] updated@[b])@,
                    ),
            decreases updated@.len() - j,
        {
            if ref_prefix_conflict(deleted[i].as_str(), updated[j].as_str()) {
                assert(prefix_conflict(deleted@[i as int]@, updated@[j as int]@));
                return true;
            }
            j += 1;
        }
        i += 1;
    }
    false
}

/// Where the checkout goes: a branch, or a commit where that is detached.
pub open spec fn head_of(e: Entry, dir: Direction) -> (Seq<char>, bool) {
    match dir {
        Direction::Undo => (e.head_before@, e.head_before_detached),
        Direction::Redo => (e.head_after@, e.head_after_detached),
    }
}

/// The text of the commit that the checkout goes to.
pub open spec fn head_hex(
    e: Entry,
    dir: Direction,
    tips: Map<Seq<char>, Seq<char>>,
) -> Option<Seq<char>> {
    let (head, detached) = head_of(e, dir);
    if detached {
        Some(head)
    } else if e.changes@.contains_key(head) {
        dir.target_of(change_view(e.changes@[head]))
    } else {
        tip_of(tips, head)
    }
}

fn find_head(entry: &Entry, dir: Direction, tips: &NameMap<String>) -> (r: Result<
    String,
    RestoreError,
>)
    ensures
        ({
            let (head, detached) = head_of(*entry, dir);
            match head_hex(*entry, dir, text_map(tips@)) {
                None => r matches Err(RestoreError::NoCommit(b)) && b@ == head,
                Some(hex) => if is_oid_text(hex) {
                    r matches Ok(oid) && oid@ == full_oid(hex)
                } else if detached {
                    r matches Err(RestoreError::InvalidHead(h)) && h@ == head
                } else {
                    r matches Err(RestoreError::InvalidTip(t, b)) && t@ == hex && b@ == head
                },
            }
        }),
{
    let (head, detached) = match dir {
        Direction::Undo => (entry.head_before.as_str(), entry.head_before_detached),
        Direction::Redo => (entry.head_after.as_str(), entry.head_after_detached),
    };
    if detached {
        return match parse_oid(head) {
            Some(oid) => Ok(oid),
            None => Err(RestoreError::InvalidHead(head.to_owned())),
        };
    }
    let hex = match entry.changes.get(head) {
        Some(c) => crate::text::copy_opt(dir.target(c)),
        None => look_up(tips, head),
    };
    match hex {
        Some(h) => match parse_oid(h.as_str()) {
            Some(oid) => Ok(oid),
            None => Err(RestoreError::InvalidTip(h, head.to_owned())),
        },
        None => Err(RestoreError::NoCommit(head.to_owned())),
    }
}

/// What is done, one behind the other: the checkout goes to the commit, so that every branch can be
/// moved; the branches are moved; the checkout goes to the branch.
#[derive(Debug)]
pub struct RestorePlan {
    pub detach: Vec<String>,
    pub transactions: Vec<String>,
    pub reattach: Option<Vec<String>>,
}

/// How git is called to go to a commit.
pub open spec fn detach_args(oid: Seq<char>, force: bool) -> Seq<Seq<char>> {
    if force {
        seq!["checkout"@, "--quiet"@, "--force"@, "--detach"@, oid]
    } else {
        seq!["checkout"@, "--quiet"@, "--detach"@, oid]
    }
}

/// How git is called to go to a branch.
pub open spec fn reattach_args(branch: Seq<char>, force: bool) -> Seq<Seq<char>> {
    if force {
        seq!["checkout"@, "--quiet"@, "--force"@, branch]
    } else {
        seq!["checkout"@, "--quiet"@, branch]
    }
}

/// The plan moves the branches of the entry.
pub open spec fn is_plan(
    p: RestorePlan,
    e: Entry,
    dir: Direction,
    force: bool,
    tips: Map<Seq<char>, Seq<char>>,
    oid: Seq<char>,
) -> bool {
    &&& strs(p.detach@) == detach_args(oid, force)
    &&& strs(p.transactions@) == transactions_of(
        deletions_among(e.changes.names(), change_map(e.changes@), tips, dir),
        updates_among(e.changes.names(), change_map(e.changes@), dir),
    )
    &&& if head_of(e, dir).1 {
        p.reattach is None
    } else {
        p.reattach matches Some(args) && strs(args@) == reattach_args(head_of(e, dir).0, force)
    }
}

/// Decides how an entry is undone or redone. Without `force` neither uncommitted changes nor commits
/// that were made since are lost: then nothing is done.
pub fn restore(
    entry: &Entry,
    dir: Direction,
    force: bool,
    dirty: bool,
    tips: &NameMap<String>,
) -> (r: Result<RestorePlan, RestoreError>)
    ensures
        entry.changes.listed(),
        ({
            let now = text_map(tips@);
            let drifted = drifted_among(
                entry.changes.names(),
                change_map(entry.changes@),
                now,
                dir,
            );
            let (head, detached) = head_of(*entry, dir);
            if !force && dirty {
                r matches Err(RestoreError::Dirty)
            } else if !force && drifted.len() > 0 {
                r matches Err(RestoreError::Drifted(v)) && strs(v@) == drifted
            } else {
                match head_hex(*entry, dir, now) {
                    None => r matches Err(RestoreError::NoCommit(b)) && b@ == head,
                    Some(hex) => if is_oid_text(hex) {
                        r matches Ok(p) && is_plan(p, *entry, dir, force, now, full_oid(hex))
                    } else if detached {
                        r matches Err(RestoreError::InvalidHead(h)) && h@ == head
                    } else {
                        r matches Err(RestoreError::InvalidTip(t, b)) && t@ == hex && b@ == head
                    },
                }
            }
        }),
{
    let drifted = drifted_branches(&entry.changes, tips, dir);
    assert(strs(drifted@).len() == drifted@.len());
    if !force && dirty {
        return Err(RestoreError::Dirty);
    }
    if !force && drifted.len() > 0 {
        return Err(RestoreError::Drifted(drifted));
    }
    let oid = match find_head(entry, dir, tips) {
        Ok(oid) => oid,
        Err(e) => return Err(e),
    };
    let detach = if force {
        list(&["checkout", "--quiet", "--force", "--detach", oid.as_str()])
    } else {
        list(&["checkout", "--quiet", "--detach", oid.as_str()])
    };
    assert(strs(detach@) =~= detach_args(oid@, force));
    let (head, detached) = match dir {
        Direction::Undo => (entry.head_before.as_str(), entry.head_before_detached),
        Direction::Redo => (entry.head_after.as_str(), entry.head_after_detached),
    };
    let reattach = if detached {
        None
    } else {
        let args = if force {
            list(&["checkout", "--quiet", "--force", head])
        } else {
            list(&["checkout", "--quiet", head])
        };
        assert(strs(args@) =~= reattach_args(head@, force));
        Some(args)
    };
    Ok(RestorePlan { detach, transactions: transactions(&entry.changes, tips, dir), reattach })
}

/// Where the checkout is before or after the operation.
pub open spec fn head_at(e: Entry, dir: Direction) -> HeadAt {
    let (head, detached) = head_of(e, dir);
    if detached {
        HeadAt::Detached(full_oid(head))
    } else {
        HeadAt::Branch(head)
    }
}

/// Where the commands of a plan leave the checkout.
pub open spec fn checked_out(p: RestorePlan) -> HeadAt {
    match p.reattach {
        Some(args) => HeadAt::Branch(strs(args@).last()),
        None => HeadAt::Detached(strs(p.detach@).last()),
    }
}

/// The repository after a plan was carried out: the branches that it deletes are gone, those that it
/// updates have their tips, and the checkout is where its commands leave it.
pub open spec fn carried_out(repo: RepoView, e: Entry, dir: Direction, p: RestorePlan) -> RepoView {
    let names = e.changes.names();
    let changes = change_map(e.changes@);
    RepoView {
        tips: after_updates(
            after_deletions(repo.tips, deletions_among(names, changes, repo.tips, dir)),
            updates_among(names, changes, dir),
        ),
        head: checked_out(p),
    }
}

/// The entry is undone or redone by that plan, in a clean working tree and without force.
pub open spec fn restores(repo: RepoView, e: Entry, dir: Direction, p: RestorePlan) -> bool {
    &&& drifted_among(e.changes.names(), change_map(e.changes@), repo.tips, dir).len() == 0
    &&& head_hex(e, dir, repo.tips) matches Some(hex) && is_oid_text(hex) && is_plan(
        p,
        e,
        dir,
        false,
        repo.tips,
        full_oid(hex),
    )
}

/// An undo that is redone at once leaves no trace: the same entry is redone, no branch counts as
/// drifted, and where the redo is not refused for want of a commit to go to, every branch that the
/// operation changed is where the operation left it, no other branch was touched, the checkout is
/// where it was after the operation, and the log is as it was.
pub proof fn law_redo_after_undo(
    repo: RepoView,
    log: Log,
    undone: Log,
    i: int,
    undo: RestorePlan,
    redo: RestorePlan,
)
    requires
        log.wf(),
        next_index(log, Direction::Undo) == Some(i),
        log.entries@[i].changes.listed(),
        restores(repo, log.entries@[i], Direction::Undo, undo),
        undone.entries == log.entries,
        undone.cursor == cursor_after(log, Direction::Undo),
    ensures
        ({
            let e = log.entries@[i];
            let changes = change_map(e.changes@);
            let between = carried_out(repo, e, Direction::Undo, undo);
            let end = carried_out(between, e, Direction::Redo, redo);
            &&& between.head == head_at(e, Direction::Undo)
            &&& next_index(undone, Direction::Redo) == Some(i)
            &&& cursor_after(undone, Direction::Redo) == log.cursor
            &&& drifted_among(e.changes.names(), changes, between.tips, Direction::Redo).len() == 0
            &&& restores(between, e, Direction::Redo, redo) ==> {
                &&& end.head == head_at(e, Direction::Redo)
                &&& end.tips == repo.tips
                &&& forall|n: Seq<char>| #[trigger]
                    changes.contains_key(n) ==> tip_of(end.tips, n) == changes[n].1
                &&& forall|n: Seq<char>|
                    !(#[trigger] changes.contains_key(n)) ==> tip_of(between.tips, n) == tip_of(
                        repo.tips,
                        n,
                    ) && tip_of(end.tips, n) == tip_of(repo.tips, n)
            }
        }),
{
    let e = log.entries@[i];
    let names = e.changes.names();
    let changes = change_map(e.changes@);
    let between = carried_out(repo, e, Direction::Undo, undo);
    assert forall|n: Seq<char>| #[trigger] changes.contains_key(n) <==> names.contains(n) by {
        assert(changes.contains_key(n) == e.changes@.contains_key(n));
    }
    law_drift_is_any_other_tip(names, changes, repo.tips, Direction::Undo);
    law_restore_moves_the_branches(names, changes, repo.tips, Direction::Undo);
    law_restore_moves_the_branches(names, changes, between.tips, Direction::Redo);
    law_redo_reverses_undo(repo.tips, changes, Direction::Undo);
    law_drift_is_any_other_tip(names, changes, between.tips, Direction::Redo);
    law_redo_takes_the_undone_entry(log, undone, Direction::Undo);
}

} // verus!
