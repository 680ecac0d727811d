//! The record of the worktrees that are managed, and how two writers' changes are brought together.

use crate::clock::now;
use crate::stack::lemma_filter_next;
use crate::text::{cat4, dec, decimal, same};
use crate::worktree::path_resolver::{normalize_path, normalized};
use crate::worktree::WorktreeRole;
use vstd::prelude::*;

verus! {

/// The version of the file format.
pub const METADATA_VERSION: u32 = 1;

/// A worktree that is managed.
#[derive(Debug, Clone, PartialEq, Eq)]
pub struct ManagedWorktreeRecord {
    pub role: WorktreeRole,
    pub branch: String,
    pub path: String,
    pub created_at: u64,
    pub last_used_at: u64,
}

impl ManagedWorktreeRecord {
    pub fn path_buf(&self) -> (r: String)
        ensures
            r@ == self.path@,
    {
        self.path.clone()
    }

    pub fn normalized_path(&self) -> (r: String)
        ensures
            r@ == normalized(self.path@),
    {
        normalize_path(self.path.as_str())
    }

    pub fn copy(&self) -> (r: ManagedWorktreeRecord)
        ensures
            r == *self,
    {
        ManagedWorktreeRecord {
            role: self.role,
            branch: self.branch.clone(),
            path: self.path.clone(),
            created_at: self.created_at,
            last_used_at: self.last_used_at,
        }
    }
}

/// The record is for that role and branch.
pub open spec fn is_for(r: ManagedWorktreeRecord, role: WorktreeRole, branch: Seq<char>) -> bool {
    r.role == role && r.branch@ == branch
}

/// The first record for that role and branch, or the number of records.
pub open spec fn index_for(
    records: Seq<ManagedWorktreeRecord>,
    role: WorktreeRole,
    branch: Seq<char>,
) -> int
    decreases records.len(),
{
    if records.len() == 0 || is_for(records[0], role, branch) {
        0
    } else {
        1 + index_for(records.drop_first(), role, branch)
    }
}

proof fn lemma_index_for(
    records: Seq<ManagedWorktreeRecord>,
    role: WorktreeRole,
    branch: Seq<char>,
)
    ensures
        0 <= index_for(records, role, branch) <= records.len(),
        index_for(records, role, branch) < records.len() ==> is_for(
            records[index_for(records, role, branch)],
            role,
            branch,
        ),
        forall|i: int|
            0 <= i < index_for(records, role, branch) ==> !is_for(
                #[trigger] records[i],
                role,
                branch,
            ),
    decreases records.len(),
{
    if records.len() > 0 && !is_for(records[0], role, branch) {
        let rest = records.drop_first();
        lemma_index_for(rest, role, branch);
        assert forall|i: int| 0 <= i < index_for(records, role, branch) implies !is_for(
            #[trigger] records[i],
            role,
            branch,
        ) by {
            if i > 0 {
                assert(records[i] == rest[i - 1]);
            }
        }
    }
}

fn find_for(records: &Vec<ManagedWorktreeRecord>, role: WorktreeRole, branch: &str) -> (r: Option<
    usize,
>)
    ensures
        match r {
            Some(i) => i == index_for(records@, role, branch@) && i < records@.len(),
            None => index_for(records@, role, branch@) == records@.len(),
        },
{
    let mut i: usize = 0;
    assert(records@.skip(0) =~= records@);
    while i < records.len()
        invariant
            i <= records@.len(),
            index_for(records@, role, branch@) == i + index_for(
                records@.skip(i as int),
                role,
                branch@,
            ),
        decreases records@.len() - i,
    {
        assert(records@.skip(i as int)[0] == records@[i as int]);
        assert(records@.skip(i as int).drop_first() =~= records@.skip(i + 1));
        if records[i].role == role && same(records[i].branch.as_str(), branch) {
            return Some(i);
        }
        i += 1;
    }
    None
}

/// Records of other roles.
pub open spec fn other_role(role: WorktreeRole) -> spec_fn(ManagedWorktreeRecord) -> bool {
    |r: ManagedWorktreeRecord| r.role != role
}

/// Records for anything but a role and branch.
pub open spec fn other_key(role: WorktreeRole, branch: Seq<char>) -> spec_fn(
    ManagedWorktreeRecord,
) -> bool {
    |r: ManagedWorktreeRecord| !is_for(r, role, branch)
}

fn without_role(records: &Vec<ManagedWorktreeRecord>, role: WorktreeRole) -> (r: Vec<
    ManagedWorktreeRecord,
>)
    ensures
        r@ == records@.filter(other_role(role)),
{
    let ghost keep = other_role(role);
    let mut out: Vec<ManagedWorktreeRecord> = Vec::new();
    let mut i: usize = 0;
    proof {
        reveal(Seq::filter);
        assert(records@.take(0).filter(keep) =~= Seq::<ManagedWorktreeRecord>::empty());
    }
    while i < records.len()
        invariant
            i <= records@.len(),
            keep == other_role(role),
            out@ == records@.take(i as int).filter(keep),
        decreases records@.len() - i,
    {
        proof {
            lemma_filter_next(records@, i as int, keep);
        }
        if records[i].role != role {
            out.push(records[i].copy());
        }
        i += 1;
    }
    assert(records@.take(records@.len() as int) =~= records@);
    out
}

fn without_key(records: &Vec<ManagedWorktreeRecord>, role: WorktreeRole, branch: &str) -> (r: Vec<
    ManagedWorktreeRecord,
>)
    ensures
        r@ == records@.filter(other_key(role, branch@)),
{
    let ghost keep = other_key(role, branch@);
    let mut out: Vec<ManagedWorktreeRecord> = Vec::new();
    let mut i: usize = 0;
    proof {
        reveal(Seq::filter);
        assert(records@.take(0).filter(keep) =~= Seq::<ManagedWorktreeRecord>::empty());
    }
    while i < records.len()
        invariant
            i <= records@.len(),
            keep == other_key(role, branch@),
            out@ == records@.take(i as int).filter(keep),
        decreases records@.len() - i,
    {
        proof {
            lemma_filter_next(records@, i as int, keep);
        }
        if !(records[i].role == role && same(records[i].branch.as_str(), branch)) {
            out.push(records[i].copy());
        }
        i += 1;
    }
    assert(records@.take(records@.len() as int) =~= records@);
    out
}

/// There is at most one main and one review worktree.
pub open spec fn is_single(role: WorktreeRole) -> bool {
    role != WorktreeRole::Temp
}

/// The records with one more. A record for the same role and branch is replaced in its place; a
/// role of which there is only one loses the record that it had.
pub open spec fn with_record(
    records: Seq<ManagedWorktreeRecord>,
    record: ManagedWorktreeRecord,
) -> Seq<ManagedWorktreeRecord> {
    let at = index_for(records, record.role, record.branch@);
    if at < records.len() {
        records.update(at, record)
    } else if is_single(record.role) {
        records.filter(other_role(record.role)).push(record)
    } else {
        records.push(record)
    }
}

fn put_record(records: &mut Vec<ManagedWorktreeRecord>, record: ManagedWorktreeRecord)
    ensures
        final(records)@ == with_record(old(records)@, record),
{
    match find_for(records, record.role, record.branch.as_str()) {
        Some(i) => {
            let ghost before = records@;
            records.remove(i);
            records.insert(i, record);
            assert(records@ =~= before.update(i as int, record));
        },
        None => {
            if record.role != WorktreeRole::Temp {
                let mut kept = without_role(records, record.role);
                kept.push(record);
                *records = kept;
            } else {
                records.push(record);
            }
        },
    }
}

/// The contents of the file.
#[derive(Debug, Clone)]
pub struct MetadataFile {
    pub version: u32,
    pub worktrees: Vec<ManagedWorktreeRecord>,
}

/// A record that is written over one for the same role and branch keeps when that one was made.
pub open spec fn refreshed(
    records: Seq<ManagedWorktreeRecord>,
    record: ManagedWorktreeRecord,
    role: WorktreeRole,
    branch: Seq<char>,
    path: Seq<char>,
    now: u64,
) -> bool {
    let at = index_for(records, role, branch);
    &&& is_for(record, role, branch)
    &&& record.path@ == normalized(path)
    &&& record.last_used_at == now
    &&& record.created_at == if at < records.len() {
        records[at].created_at
    } else {
        now
    }
}

/// The managed worktrees as they were read and as they have become.
#[derive(Debug)]
pub struct WorktreeMetadata {
    pub file: MetadataFile,
    pub original_file: MetadataFile,
    pub path: Option<String>,
}

impl Default for WorktreeMetadata {
    fn default() -> (r: WorktreeMetadata)
        ensures
            r.file.version == METADATA_VERSION,
            r.file.worktrees@.len() == 0,
            r.original_file.version == METADATA_VERSION,
            r.original_file.worktrees@.len() == 0,
            r.path is None,
    {
        WorktreeMetadata {
            file: MetadataFile { version: METADATA_VERSION, worktrees: Vec::new() },
            original_file: MetadataFile { version: METADATA_VERSION, worktrees: Vec::new() },
            path: None,
        }
    }
}

impl WorktreeMetadata {
    pub fn records(&self) -> (r: &Vec<ManagedWorktreeRecord>)
        ensures
            *r == self.file.worktrees,
    {
        &self.file.worktrees
    }

    /// The first record of a role.
    pub fn find_role(&self, role: WorktreeRole) -> (r: Option<&ManagedWorktreeRecord>)
        ensures
            match r {
                Some(record) => exists|i: int| {
                    &&& 0 <= i < self.file.worktrees@.len()
                    &&& *record == #[trigger] self.file.worktrees@[i]
                    &&& record.role == role
                    &&& forall|j: int|
                        0 <= j < i ==> (#[trigger] self.file.worktrees@[j]).role != role
                },
                None => forall|j: int|
                    0 <= j < self.file.worktrees@.len() ==> (
                    #[trigger] self.file.worktrees@[j]).role != role,
            },
    {
        let mut i: usize = 0;
        while i < self.file.worktrees.len()
            invariant
                i <= self.file.worktrees@.len(),
                forall|j: int| 0 <= j < i ==> (#[trigger] self.file.worktrees@[j]).role != role,
            decreases self.file.worktrees@.len() - i,
        {
            if self.file.worktrees[i].role == role {
                return Some(&self.file.worktrees[i]);
            }
            i += 1;
        }
        None
    }

    /// The record of a temporary worktree for a branch.
    pub fn find_temp_branch(&self, branch: &str) -> (r: Option<&ManagedWorktreeRecord>)
        ensures
            ({
                let at = index_for(self.file.worktrees@, WorktreeRole::Temp, branch@);
                match r {
                    Some(record) => at < self.file.worktrees@.len() && *record
                        == self.file.worktrees@[at],
                    None => at == self.file.worktrees@.len(),
                }
            }),
    {
        match find_for(&self.file.worktrees, WorktreeRole::Temp, branch) {
            Some(i) => Some(&self.file.worktrees[i]),
            None => None,
        }
    }

    /// The first record whose path is the same.
    pub fn find_by_path(&self, path: &str) -> (r: Option<&ManagedWorktreeRecord>)
        ensures
            match r {
                Some(record) => exists|i: int| {
                    &&& 0 <= i < self.file.worktrees@.len()
                    &&& *record == #[trigger] self.file.worktrees@[i]
                    &&& normalized(record.path@) == normalized(path@)
                    &&& forall|j: int|
                        0 <= j < i ==> normalized((#[trigger] self.file.worktrees@[j]).path@)
                            != normalized(path@)
                },
                None => forall|j: int|
                    0 <= j < self.file.worktrees@.len() ==> normalized(
                        (#[trigger] self.file.worktrees@[j]).path@,
                    ) != normalized(path@),
            },
    {
        let wanted = normalize_path(path);
        let mut i: usize = 0;
        while i < self.file.worktrees.len()
            invariant
                i <= self.file.worktrees@.len(),
                wanted@ == normalized(path@),
                forall|j: int|
                    0 <= j < i ==> normalized((#[trigger] self.file.worktrees@[j]).path@)
                        != wanted@,
            decreases self.file.worktrees@.len() - i,
        {
            if same(self.file.worktrees[i].normalized_path().as_str(), wanted.as_str()) {
                return Some(&self.file.worktrees[i]);
            }
            i += 1;
        }
        None
    }

    /// Records a worktree as used at `now`: a record for the same role and branch gets the new path
    /// and time, any other case adds a record, and a main or review worktree replaces the one that
    /// was there.
    pub fn upsert_at(&mut self, role: WorktreeRole, branch: &str, path: &str, now: u64)
        ensures
            exists|record: ManagedWorktreeRecord| #[trigger]
                refreshed(old(self).file.worktrees@, record, role, branch@, path@, now) && final(self).file.worktrees@ == with_record(old(self).file.worktrees@, record),
            final(self).file.version == old(self).file.version,
            final(self).original_file == old(self).original_file,
            final(self).path == old(self).path,
    {
        let created_at: u64 = match find_for(&self.file.worktrees, role, branch) {
            Some(i) => self.file.worktrees[i].created_at,
            None => now,
        };
        let record = ManagedWorktreeRecord {
            role,
            branch: branch.to_owned(),
            path: normalize_path(path),
            created_at,
            last_used_at: now,
        };
        assert(refreshed(old(self).file.worktrees@, record, role, branch@, path@, now));
        put_record(&mut self.file.worktrees, record);
    }

    /// Records a worktree as used now.
    pub fn upsert(&mut self, role: WorktreeRole, branch: &str, path: &str)
        ensures
            exists|now: u64, record: ManagedWorktreeRecord| #[trigger]
                refreshed(old(self).file.worktrees@, record, role, branch@, path@, now) && final(self).file.worktrees@ == with_record(old(self).file.worktrees@, record),
            final(self).file.version == old(self).file.version,
            final(self).original_file == old(self).original_file,
            final(self).path == old(self).path,
    {
        let at: u64 = now().1;
        self.upsert_at(role, branch, path, at);
    }

    /// Forgets the worktrees of a role.
    pub fn remove_role(&mut self, role: WorktreeRole)
        ensures
            final(self).file.worktrees@ == old(self).file.worktrees@.filter(other_role(role)),
            final(self).file.version == old(self).file.version,
            final(self).original_file == old(self).original_file,
            final(self).path == old(self).path,
    {
        self.file.worktrees = without_role(&self.file.worktrees, role);
    }

    /// Forgets the temporary worktree of a branch.
    pub fn remove_temp_branch(&mut self, branch: &str)
        ensures
            final(self).file.worktrees@ == old(self).file.worktrees@.filter(
                other_key(WorktreeRole::Temp, branch@),
            ),
            final(self).file.version == old(self).file.version,
            final(self).original_file == old(self).original_file,
            final(self).path == old(self).path,
    {
        self.file.worktrees = without_key(&self.file.worktrees, WorktreeRole::Temp, branch);
    }
}

/// The file has a version that is not known.
#[derive(Debug)]
pub struct UnsupportedVersion {
    pub version: u32,
    pub path: String,
}

impl UnsupportedVersion {
    pub fn message(&self) -> (r: String)
        ensures
            r@ == "Unsupported Kindra worktree metadata version "@ + dec(self.version as nat)
                + " in "@ + (self.path@ + "."@),
    {
        let end = crate::text::cat2(self.path.as_str(), ".");
        cat4(
            "Unsupported Kindra worktree metadata version ",
            decimal(self.version as u64).as_str(),
            " in ",
            end.as_str(),
        )
    }
}

/// Accepts a file of the known version.
pub fn check_version(version: u32, path: &str) -> (r: Result<(), UnsupportedVersion>)
    ensures
        match r {
            Ok(_) => version == METADATA_VERSION,
            Err(e) => version != METADATA_VERSION && e.version == version && e.path@ == path@,
        },
{
    if version == METADATA_VERSION {
        Ok(())
    } else {
        Err(UnsupportedVersion { version, path: path.to_owned() })
    }
}

/// The last record for that role and branch, or -1.
pub open spec fn last_for(
    records: Seq<ManagedWorktreeRecord>,
    role: WorktreeRole,
    branch: Seq<char>,
) -> int
    decreases records.len(),
{
    if records.len() == 0 {
        -1
    } else if is_for(records.last(), role, branch) {
        records.len() - 1
    } else {
        last_for(records.drop_last(), role, branch)
    }
}

fn find_last_for(records: &Vec<ManagedWorktreeRecord>, role: WorktreeRole, branch: &str) -> (r:
    Option<usize>)
    ensures
        match r {
            Some(i) => i == last_for(records@, role, branch@) && i < records@.len(),
            None => last_for(records@, role, branch@) == -1,
        },
{
    let mut n: usize = records.len();
    assert(records@.take(n as int) =~= records@);
    while n > 0
        invariant
            n <= records@.len(),
            last_for(records@, role, branch@) == last_for(records@.take(n as int), role, branch@),
        decreases n,
    {
        assert(records@.take(n as int).last() == records@[n - 1]);
        assert(records@.take(n as int).drop_last() =~= records@.take(n - 1));
        if records[n - 1].role == role && same(records[n - 1].branch.as_str(), branch) {
            return Some(n - 1);
        }
        n -= 1;
    }
    None
}

proof fn lemma_last_for(
    records: Seq<ManagedWorktreeRecord>,
    role: WorktreeRole,
    branch: Seq<char>,
)
    ensures
        -1 <= last_for(records, role, branch) < records.len(),
        last_for(records, role, branch) >= 0 ==> is_for(
            records[last_for(records, role, branch)],
            role,
            branch,
        ),
        forall|i: int|
            last_for(records, role, branch) < i < records.len() ==> !is_for(
                #[trigger] records[i],
                role,
                branch,
            ),
    decreases records.len(),
{
    if records.len() > 0 && !is_for(records.last(), role, branch) {
        let fewer = records.drop_last();
        lemma_last_for(fewer, role, branch);
        assert forall|i: int| last_for(records, role, branch) < i < records.len() implies !is_for(
            #[trigger] records[i],
            role,
            branch,
        ) by {
            if i < fewer.len() {
                assert(records[i] == fewer[i]);
            }
        }
    }
}

/// A record was forgotten: there was one for its role and branch, and there is none now.
pub open spec fn was_dropped(
    original: Seq<ManagedWorktreeRecord>,
    updated: Seq<ManagedWorktreeRecord>,
    i: int,
) -> bool {
    0 <= i < original.len() && last_for(updated, original[i].role, original[i].branch@) == -1
}

/// A record of the latest file goes with one that was forgotten: for a role of which there is only
/// one, whatever its branch has become.
pub open spec fn goes_with(
    record: ManagedWorktreeRecord,
    dropped: ManagedWorktreeRecord,
) -> bool {
    record.role == dropped.role && (is_single(dropped.role) || record.branch@ == dropped.branch@)
}

/// Records that go with none that was forgotten.
pub open spec fn survives(
    original: Seq<ManagedWorktreeRecord>,
    updated: Seq<ManagedWorktreeRecord>,
) -> spec_fn(ManagedWorktreeRecord) -> bool {
    |r: ManagedWorktreeRecord|
        forall|i: int| #[trigger] was_dropped(original, updated, i) ==> !goes_with(r, original[i])
}

/// The record at place `i` is the one that counts for its role and branch, and it is new or
/// different.
pub open spec fn was_changed(
    original: Seq<ManagedWorktreeRecord>,
    updated: Seq<ManagedWorktreeRecord>,
    i: int,
) -> bool {
    let r = updated[i];
    let at = last_for(original, r.role, r.branch@);
    last_for(updated, r.role, r.branch@) == i && (at == -1 || !same_record(original[at], r))
}

/// The two records say the same.
pub open spec fn same_record(a: ManagedWorktreeRecord, b: ManagedWorktreeRecord) -> bool {
    a.role == b.role && a.branch@ == b.branch@ && a.path@ == b.path@ && a.created_at == b.created_at
        && a.last_used_at == b.last_used_at
}

/// The latest records with the first `n` changes.
pub open spec fn with_changes(
    original: Seq<ManagedWorktreeRecord>,
    updated: Seq<ManagedWorktreeRecord>,
    latest: Seq<ManagedWorktreeRecord>,
    n: int,
) -> Seq<ManagedWorktreeRecord>
    decreases n,
{
    if n <= 0 {
        latest
    } else {
        let before = with_changes(original, updated, latest, n - 1);
        if was_changed(original, updated, n - 1) {
            with_record(before, updated[n - 1])
        } else {
            before
        }
    }
}

/// What one writer changed, done to what the file has become: what it forgot goes, and what it
/// added or changed comes in.
pub open spec fn merged_records(
    original: Seq<ManagedWorktreeRecord>,
    updated: Seq<ManagedWorktreeRecord>,
    latest: Seq<ManagedWorktreeRecord>,
) -> Seq<ManagedWorktreeRecord> {
    with_changes(
        original,
        updated,
        latest.filter(survives(original, updated)),
        updated.len() as int,
    )
}

fn survives_drop(
    record: &ManagedWorktreeRecord,
    original: &Vec<ManagedWorktreeRecord>,
    updated: &Vec<ManagedWorktreeRecord>,
) -> (r: bool)
    ensures
        r == survives(original@, updated@)(*record),
{
    let mut i: usize = 0;
    while i < original.len()
        invariant
            i <= original@.len(),
            forall|k: int|
                0 <= k < i && #[trigger] was_dropped(original@, updated@, k) ==> !goes_with(
                    *record,
                    original@[k],
                ),
        decreases original@.len() - i,
    {
        let o = &original[i];
        let dropped = find_last_for(updated, o.role, o.branch.as_str()).is_none();
        assert(dropped == was_dropped(original@, updated@, i as int));
        if dropped && record.role == o.role && (o.role != WorktreeRole::Temp || same(
            record.branch.as_str(),
            o.branch.as_str(),
        )) {
            return false;
        }
        i += 1;
    }
    true
}

/// Does to the latest file what one writer changed since it read the file.
pub fn apply_delta(original: &MetadataFile, updated: &MetadataFile, latest: &mut MetadataFile)
    ensures
        final(latest).worktrees@ == merged_records(
            original.worktrees@,
            updated.worktrees@,
            old(latest).worktrees@,
        ),
        final(latest).version == old(latest).version,
{
    let ghost o = original.worktrees@;
    let ghost u = updated.worktrees@;
    let ghost l = latest.worktrees@;
    let ghost keep = survives(o, u);
    let mut kept: Vec<ManagedWorktreeRecord> = Vec::new();
    let mut i: usize = 0;
    proof {
        reveal(Seq::filter);
        assert(l.take(0).filter(keep) =~= Seq::<ManagedWorktreeRecord>::empty());
    }
    while i < latest.worktrees.len()
        invariant
            i <= latest.worktrees@.len(),
            o == original.worktrees@,
            u == updated.worktrees@,
            l == latest.worktrees@,
            latest.version == old(latest).version,
            keep == survives(o, u),
            kept@ == l.take(i as int).filter(keep),
        decreases latest.worktrees@.len() - i,
    {
        proof {
            lemma_filter_next(l, i as int, keep);
        }
        if survives_drop(&latest.worktrees[i], &original.worktrees, &updated.worktrees) {
            kept.push(latest.worktrees[i].copy());
        }
        i += 1;
    }
    assert(l.take(l.len() as int) =~= l);
    let ghost start = kept@;
    let mut n: usize = 0;
    while n < updated.worktrees.len()
        invariant
            n <= updated.worktrees@.len(),
            o == original.worktrees@,
            u == updated.worktrees@,
            kept@ == with_changes(o, u, start, n as int),
        decreases updated.worktrees@.len() - n,
    {
        let r = &updated.worktrees[n];
        proof {
            lemma_last_for(u, r.role, r.branch@);
            lemma_last_for(o, r.role, r.branch@);
            assert(is_for(u[n as int], r.role, r.branch@));
        }
        let counts = match find_last_for(&updated.worktrees, r.role, r.branch.as_str()) {
            Some(k) => k == n,
            None => false,
        };
        let changed = counts && match find_last_for(
            &original.worktrees,
            r.role,
            r.branch.as_str(),
        ) {
            Some(k) => {
                let before = &original.worktrees[k];
                !(same(before.path.as_str(), r.path.as_str()) && before.created_at == r.created_at
                    && before.last_used_at == r.last_used_at)
            },
            None => true,
        };
        assert(changed == was_changed(o, u, n as int));
        if changed {
            put_record(&mut kept, r.copy());
        }
        n += 1;
    }
    latest.worktrees = kept;
}

/// A filter that keeps everything changes nothing.
proof fn lemma_filter_all(
    records: Seq<ManagedWorktreeRecord>,
    keep: spec_fn(ManagedWorktreeRecord) -> bool,
)
    requires
        forall|i: int| 0 <= i < records.len() ==> keep(#[trigger] records[i]),
    ensures
        records.filter(keep) == records,
    decreases records.len(),
{
    reveal(Seq::filter);
    if records.len() > 0 {
        let fewer = records.drop_last();
        assert forall|i: int| 0 <= i < fewer.len() implies keep(#[trigger] fewer[i]) by {
            assert(fewer[i] == records[i]);
        }
        lemma_filter_all(fewer, keep);
        assert(keep(records[records.len() - 1]));
        assert(fewer.push(records.last()) =~= records);
    }
}

/// A writer that changed nothing leaves the latest file as it is.
pub proof fn law_no_change_no_delta(
    original: Seq<ManagedWorktreeRecord>,
    latest: Seq<ManagedWorktreeRecord>,
)
    ensures
        merged_records(original, original, latest) == latest,
{
    let keep = survives(original, original);
    assert forall|i: int| !#[trigger] was_dropped(original, original, i) by {
        if 0 <= i < original.len() {
            lemma_last_for(original, original[i].role, original[i].branch@);
            assert(is_for(original[i], original[i].role, original[i].branch@));
        }
    }
    assert forall|i: int| 0 <= i < latest.len() implies keep(#[trigger] latest[i]) by {}
    lemma_filter_all(latest, keep);
    lemma_no_changes(original, latest, original.len() as int);
}

proof fn lemma_no_changes(
    original: Seq<ManagedWorktreeRecord>,
    latest: Seq<ManagedWorktreeRecord>,
    n: int,
)
    requires
        0 <= n <= original.len(),
    ensures
        with_changes(original, original, latest, n) == latest,
    decreases n,
{
    if n > 0 {
        lemma_no_changes(original, latest, n - 1);
    }
}

/// No two records are for the same role of which there is only one.
pub open spec fn singles(records: Seq<ManagedWorktreeRecord>) -> bool {
    forall|i: int, j: int|
        0 <= i < j < records.len() && is_single((#[trigger] records[i]).role) ==> records[i].role != (
        #[trigger] records[j]).role
}

/// What a filter leaves was there before, in the same order.
proof fn lemma_filter_singles(
    records: Seq<ManagedWorktreeRecord>,
    keep: spec_fn(ManagedWorktreeRecord) -> bool,
)
    requires
        singles(records),
    ensures
        singles(records.filter(keep)),
        forall|i: int|
            0 <= i < records.filter(keep).len() ==> keep(#[trigger] records.filter(keep)[i])
                && records.contains(records.filter(keep)[i]),
    decreases records.len(),
{
    reveal(Seq::filter);
    if records.len() > 0 {
        let fewer = records.drop_last();
        assert forall|i: int, j: int| 0 <= i < j < fewer.len() && is_single(
            (#[trigger] fewer[i]).role,
        ) implies fewer[i].role != (#[trigger] fewer[j]).role by {
            assert(fewer[i] == records[i] && fewer[j] == records[j]);
        }
        lemma_filter_singles(fewer, keep);
        let before = fewer.filter(keep);
        let after = records.filter(keep);
        assert forall|i: int| 0 <= i < after.len() implies keep(#[trigger] after[i])
            && records.contains(after[i]) by {
            if i < before.len() {
                assert(after[i] == before[i]);
                assert(fewer.contains(before[i]));
                let k = fewer.index_of(before[i]);
                assert(records[k] == before[i]);
            } else {
                assert(records[records.len() - 1] == after[i]);
            }
        }
        assert forall|i: int, j: int| 0 <= i < j < after.len() && is_single(
            (#[trigger] after[i]).role,
        ) implies after[i].role != (#[trigger] after[j]).role by {
            assert(after[i] == before[i]);
            if j < before.len() {
                assert(after[j] == before[j]);
            } else {
                assert(fewer.contains(before[i]));
                let k = fewer.index_of(before[i]);
                assert(records[k] == before[i]);
                assert(records[records.len() - 1] == after[j]);
            }
        }
    }
}

/// There is never more than one main and one review worktree: a record that comes in keeps it so,
/// and is the one that is found afterwards.
pub proof fn law_record_keeps_singles(
    records: Seq<ManagedWorktreeRecord>,
    record: ManagedWorktreeRecord,
)
    requires
        singles(records),
    ensures
        singles(with_record(records, record)),
        with_record(records, record).contains(record),
        index_for(with_record(records, record), record.role, record.branch@) < with_record(
            records,
            record,
        ).len(),
{
    let after = with_record(records, record);
    let at = index_for(records, record.role, record.branch@);
    lemma_index_for(records, record.role, record.branch@);
    if at < records.len() {
        assert(after[at] == record);
        assert forall|i: int, j: int| 0 <= i < j < after.len() && is_single(
            (#[trigger] after[i]).role,
        ) implies after[i].role != (#[trigger] after[j]).role by {
            assert(after[i].role == records[i].role && after[j].role == records[j].role);
        }
    } else if is_single(record.role) {
        lemma_filter_singles(records, other_role(record.role));
        let before = records.filter(other_role(record.role));
        assert(after[before.len() as int] == record);
        assert forall|i: int, j: int| 0 <= i < j < after.len() && is_single(
            (#[trigger] after[i]).role,
        ) implies after[i].role != (#[trigger] after[j]).role by {
            assert(after[i] == before[i]);
            assert(other_role(record.role)(before[i]));
            if j < before.len() {
                assert(after[j] == before[j]);
            }
        }
    } else {
        assert(after[records.len() as int] == record);
        assert forall|i: int, j: int| 0 <= i < j < after.len() && is_single(
            (#[trigger] after[i]).role,
        ) implies after[i].role != (#[trigger] after[j]).role by {
            assert(after[i] == records[i]);
            if j < records.len() {
                assert(after[j] == records[j]);
            }
        }
    }
    lemma_index_for(after, record.role, record.branch@);
    let k = after.index_of(record);
    assert(is_for(after[k], record.role, record.branch@));
}

/// There is at most one main and one review worktree, and no branch has two temporary ones.
pub open spec fn sound_records(records: Seq<ManagedWorktreeRecord>) -> bool {
    &&& singles(records)
    &&& forall|i: int, j: int|
        0 <= i < j < records.len() && (#[trigger] records[i]).role == (#[trigger] records[j]).role
            ==> records[i].branch@ != records[j].branch@
}

/// Records that stay when one for that role and branch comes in: those of other roles, and the
/// temporary ones of other branches.
pub open spec fn stays_beside(role: WorktreeRole, branch: Seq<char>) -> spec_fn(
    ManagedWorktreeRecord,
) -> bool {
    |r: ManagedWorktreeRecord| r.role != role || (!is_single(role) && r.branch@ != branch)
}

/// Two lists that differ only in what a filter drops leave the same.
proof fn lemma_filter_same(
    a: Seq<ManagedWorktreeRecord>,
    b: Seq<ManagedWorktreeRecord>,
    keep: spec_fn(ManagedWorktreeRecord) -> bool,
)
    requires
        a.len() == b.len(),
        forall|i: int| 0 <= i < a.len() ==> #[trigger] a[i] == b[i] || (!keep(a[i]) && !keep(b[i])),
    ensures
        a.filter(keep) == b.filter(keep),
    decreases a.len(),
{
    reveal(Seq::filter);
    if a.len() > 0 {
        assert forall|i: int| 0 <= i < a.len() - 1 implies #[trigger] a.drop_last()[i]
            == b.drop_last()[i] || (!keep(a.drop_last()[i]) && !keep(b.drop_last()[i])) by {
            assert(a.drop_last()[i] == a[i]);
        }
        lemma_filter_same(a.drop_last(), b.drop_last(), keep);
        assert(a[a.len() - 1] == b[a.len() - 1] || (!keep(a.last()) && !keep(b.last())));
    }
}

/// Filters that agree on the list leave the same.
proof fn lemma_filter_agree(
    records: Seq<ManagedWorktreeRecord>,
    keep: spec_fn(ManagedWorktreeRecord) -> bool,
    other: spec_fn(ManagedWorktreeRecord) -> bool,
)
    requires
        forall|i: int| 0 <= i < records.len() ==> keep(#[trigger] records[i]) == other(records[i]),
    ensures
        records.filter(keep) == records.filter(other),
    decreases records.len(),
{
    reveal(Seq::filter);
    if records.len() > 0 {
        let fewer = records.drop_last();
        assert forall|i: int| 0 <= i < fewer.len() implies keep(#[trigger] fewer[i]) == other(
            fewer[i],
        ) by {
            assert(fewer[i] == records[i]);
        }
        lemma_filter_agree(fewer, keep, other);
        assert(keep(records[records.len() - 1]) == other(records.last()));
    }
}

/// What a filter leaves has its places in the list, in the same order.
proof fn lemma_filter_sound(
    records: Seq<ManagedWorktreeRecord>,
    keep: spec_fn(ManagedWorktreeRecord) -> bool,
)
    requires
        sound_records(records),
    ensures
        sound_records(records.filter(keep)),
        forall|i: int|
            0 <= i < records.filter(keep).len() ==> keep(#[trigger] records.filter(keep)[i])
                && records.contains(records.filter(keep)[i]),
    decreases records.len(),
{
    reveal(Seq::filter);
    lemma_filter_singles(records, keep);
    if records.len() > 0 {
        let fewer = records.drop_last();
        assert forall|i: int| 0 <= i < fewer.len() implies #[trigger] fewer[i] == records[i] by {}
        lemma_filter_sound(fewer, keep);
        let before = fewer.filter(keep);
        let after = records.filter(keep);
        assert forall|i: int, j: int|
            0 <= i < j < after.len() && (#[trigger] after[i]).role == (
            #[trigger] after[j]).role implies after[i].branch@ != after[j].branch@ by {
            assert(after[i] == before[i]);
            if j < before.len() {
                assert(after[j] == before[j]);
            } else {
                assert(fewer.contains(before[i]));
                let k = fewer.index_of(before[i]);
                assert(records[k] == before[i]);
                assert(records[records.len() - 1] == after[j]);
            }
        }
    }
}

/// A record that comes in keeps the records sound.
proof fn lemma_record_keeps_sound(
    records: Seq<ManagedWorktreeRecord>,
    record: ManagedWorktreeRecord,
)
    requires
        sound_records(records),
    ensures
        sound_records(with_record(records, record)),
{
    let after = with_record(records, record);
    let at = index_for(records, record.role, record.branch@);
    lemma_index_for(records, record.role, record.branch@);
    law_record_keeps_singles(records, record);
    let keep = other_role(record.role);
    lemma_filter_sound(records, keep);
    let before = records.filter(keep);
    assert forall|i: int, j: int|
        0 <= i < j < after.len() && (#[trigger] after[i]).role == (
        #[trigger] after[j]).role implies after[i].branch@ != after[j].branch@ by {
        if at < records.len() {
            assert(after[i].role == records[i].role && after[i].branch@ == records[i].branch@);
            assert(after[j].role == records[j].role && after[j].branch@ == records[j].branch@);
        } else if is_single(record.role) {
            assert(after[i] == before[i]);
            assert(keep(before[i]));
            if j < before.len() {
                assert(after[j] == before[j]);
            }
        } else {
            assert(after[i] == records[i]);
            assert(!is_for(records[i], record.role, record.branch@));
            if j < records.len() {
                assert(after[j] == records[j]);
            }
        }
    }
}

/// What a worktree that is used leaves in the records. They stay sound. Exactly one record is for
/// its role and branch, with the normalized path, used now. A record that was there keeps its place
/// and when it was made; any other comes last, made now, and a main or review worktree of another
/// branch goes. Records of other roles, and temporary ones of other branches, stay as they were, in
/// their order.
pub proof fn law_used_worktree_is_recorded_once(
    records: Seq<ManagedWorktreeRecord>,
    record: ManagedWorktreeRecord,
    role: WorktreeRole,
    branch: Seq<char>,
    path: Seq<char>,
    now: u64,
)
    requires
        sound_records(records),
        refreshed(records, record, role, branch, path, now),
    ensures
        ({
            let after = with_record(records, record);
            let was = index_for(records, role, branch);
            let is = index_for(after, role, branch);
            &&& sound_records(after)
            &&& 0 <= is < after.len()
            &&& forall|i: int|
                0 <= i < after.len() ==> (is_for(#[trigger] after[i], role, branch) <==> i == is)
            &&& after[is].path@ == normalized(path)
            &&& after[is].last_used_at == now
            &&& was < records.len() ==> {
                &&& is == was
                &&& after[is].created_at == records[was].created_at
                &&& after.len() == records.len()
                &&& forall|i: int|
                    0 <= i < records.len() && i != was ==> #[trigger] after[i] == records[i]
            }
            &&& was == records.len() ==> {
                &&& is == after.len() - 1
                &&& after[is].created_at == now
                &&& after.drop_last() == records.filter(stays_beside(role, branch))
            }
            &&& after.filter(stays_beside(role, branch)) == records.filter(
                stays_beside(role, branch),
            )
        }),
{
    let after = with_record(records, record);
    let was = index_for(records, role, branch);
    let keep = stays_beside(role, branch);
    let at: int = if was < records.len() {
        was
    } else {
        after.len() - 1
    };
    lemma_index_for(records, role, branch);
    lemma_record_keeps_sound(records, record);
    lemma_index_for(after, role, branch);
    assert(after[at] == record);
    assert(is_for(after[at], role, branch));
    assert forall|i: int| 0 <= i < after.len() implies (is_for(#[trigger] after[i], role, branch)
        <==> i == at) by {
        if is_for(after[i], role, branch) && i != at {
            assert(after[i].role == after[at].role);
        }
    }
    assert(index_for(after, role, branch) == at);
    if was < records.len() {
        assert forall|i: int| 0 <= i < after.len() implies #[trigger] after[i] == records[i] || (
        !keep(after[i]) && !keep(records[i])) by {}
        lemma_filter_same(after, records, keep);
    } else {
        let kept = after.drop_last();
        if is_single(role) {
            let dropped = other_role(role);
            lemma_filter_sound(records, dropped);
            lemma_filter_agree(records, keep, dropped);
            assert(kept =~= records.filter(dropped));
            assert forall|i: int| 0 <= i < kept.len() implies keep(#[trigger] kept[i]) by {
                assert(dropped(records.filter(dropped)[i]));
            }
            lemma_filter_all(kept, keep);
        } else {
            assert(kept =~= records);
            assert forall|i: int| 0 <= i < kept.len() implies keep(#[trigger] kept[i]) by {
                assert(!is_for(records[i], role, branch));
            }
            lemma_filter_all(kept, keep);
        }
        reveal(Seq::filter);
        assert(after.last() == record);
        assert(!keep(record));
    }
}

/// Two writers' changes, brought together, leave the records sound.
pub proof fn law_merge_keeps_sound(
    original: Seq<ManagedWorktreeRecord>,
    updated: Seq<ManagedWorktreeRecord>,
    latest: Seq<ManagedWorktreeRecord>,
)
    requires
        sound_records(latest),
    ensures
        sound_records(merged_records(original, updated, latest)),
{
    let keep = survives(original, updated);
    lemma_filter_sound(latest, keep);
    lemma_changes_keep_sound(original, updated, latest.filter(keep), updated.len() as int);
}

proof fn lemma_changes_keep_sound(
    original: Seq<ManagedWorktreeRecord>,
    updated: Seq<ManagedWorktreeRecord>,
    latest: Seq<ManagedWorktreeRecord>,
    n: int,
)
    requires
        sound_records(latest),
    ensures
        sound_records(with_changes(original, updated, latest, n)),
    decreases n,
{
    if n > 0 {
        lemma_changes_keep_sound(original, updated, latest, n - 1);
        lemma_record_keeps_sound(
            with_changes(original, updated, latest, n - 1),
            updated[n - 1],
        );
    }
}

/// A temporary worktree that was forgotten is not found any more.
pub proof fn law_forgotten_branch_is_gone(records: Seq<ManagedWorktreeRecord>, branch: Seq<char>)
    ensures
        ({
            let after = records.filter(other_key(WorktreeRole::Temp, branch));
            index_for(after, WorktreeRole::Temp, branch) == after.len()
        }),
{
    broadcast use Seq::lemma_filter_pred;

    let keep = other_key(WorktreeRole::Temp, branch);
    let after = records.filter(keep);
    lemma_index_for(after, WorktreeRole::Temp, branch);
    let at = index_for(after, WorktreeRole::Temp, branch);
    if at < after.len() {
        assert(keep(after[at]));
    }
}

/// The records with one branch under another name.
pub open spec fn renamed_records(
    records: Seq<ManagedWorktreeRecord>,
    after: Seq<ManagedWorktreeRecord>,
    old_name: Seq<char>,
    new_name: Seq<char>,
) -> bool {
    &&& after.len() == records.len()
    &&& forall|i: int|
        0 <= i < records.len() ==> {
            let r = #[trigger] after[i];
            &&& r.role == records[i].role
            &&& r.path == records[i].path
            &&& r.created_at == records[i].created_at
            &&& r.last_used_at == records[i].last_used_at
            &&& r.branch@ == if records[i].branch@ == old_name {
                new_name
            } else {
                records[i].branch@
            }
        }
}

impl WorktreeMetadata {
    /// Puts one branch under another name in every record; says whether there was one.
    pub fn rename_branch(&mut self, old_name: &str, new_name: &str) -> (r: bool)
        ensures
            renamed_records(
                old(self).file.worktrees@,
                final(self).file.worktrees@,
                old_name@,
                new_name@,
            ),
            final(self).file.version == old(self).file.version,
            final(self).original_file == old(self).original_file,
            final(self).path == old(self).path,
            r <==> exists|i: int|
                0 <= i < old(self).file.worktrees@.len() && (#[trigger] old(
                    self).file.worktrees@[i]).branch@ == old_name@,
    {
        let mut out: Vec<ManagedWorktreeRecord> = Vec::new();
        let mut changed = false;
        let mut i: usize = 0;
        let ghost all = self.file.worktrees@;
        while i < self.file.worktrees.len()
            invariant
                i <= self.file.worktrees@.len(),
                *self == *old(self),
                all == self.file.worktrees@,
                renamed_records(all.take(i as int), out@, old_name@, new_name@),
                changed <==> exists|k: int|
                    0 <= k < i && (#[trigger] all[k]).branch@ == old_name@,
            decreases self.file.worktrees@.len() - i,
        {
            let mut record = self.file.worktrees[i].copy();
            if same(record.branch.as_str(), old_name) {
                record.branch = new_name.to_owned();
                changed = true;
                assert(all[i as int].branch@ == old_name@);
            }
            let ghost before = out@;
            out.push(record);
            proof {
                let next = all.take(i + 1);
                assert forall|k: int| 0 <= k < next.len() implies {
                    let r = #[trigger] out@[k];
                    &&& r.role == next[k].role
                    &&& r.path == next[k].path
                    &&& r.created_at == next[k].created_at
                    &&& r.last_used_at == next[k].last_used_at
                    &&& r.branch@ == if next[k].branch@ == old_name@ {
                        new_name@
                    } else {
                        next[k].branch@
                    }
                } by {
                    if k < i {
                        assert(out@[k] == before[k]);
                        assert(next[k] == all.take(i as int)[k]);
                    }
                }
            }
            i += 1;
        }
        assert(all.take(all.len() as int) =~= all);
        self.file.worktrees = out;
        changed
    }
}

/// A writer's record counts as changed exactly where it is the last one for its role and branch, and
/// there was none before or the last one then said something else.
pub proof fn law_what_counts_as_changed(
    original: Seq<ManagedWorktreeRecord>,
    updated: Seq<ManagedWorktreeRecord>,
    i: int,
    at: int,
)
    requires
        0 <= i < updated.len(),
        forall|j: int|
            i < j < updated.len() ==> (#[trigger] updated[j]).role != updated[i].role
                || updated[j].branch@ != updated[i].branch@,
        -1 <= at < original.len(),
        at >= 0 ==> original[at].role == updated[i].role && original[at].branch@
            == updated[i].branch@,
        forall|j: int|
            at < j < original.len() ==> (#[trigger] original[j]).role != updated[i].role
                || original[j].branch@ != updated[i].branch@,
    ensures
        was_changed(original, updated, i) <==> at == -1 || original[at].path@ != updated[i].path@
            || original[at].created_at != updated[i].created_at || original[at].last_used_at
            != updated[i].last_used_at,
{
    let r = updated[i];
    lemma_last_for(original, r.role, r.branch@);
    lemma_last_for(updated, r.role, r.branch@);
    let a = last_for(original, r.role, r.branch@);
    let u = last_for(updated, r.role, r.branch@);
    if a < at {
        assert(!is_for(original[at], r.role, r.branch@));
    }
    if u < i {
        assert(!is_for(updated[i], r.role, r.branch@));
    }
}

/// What a writer forgot goes from the latest records: of a role of which there is only one whatever is
/// recorded for it, and of the temporary worktrees the one of the same branch. Nothing else goes.
pub proof fn law_forgotten_records_go(
    original: Seq<ManagedWorktreeRecord>,
    updated: Seq<ManagedWorktreeRecord>,
    r: ManagedWorktreeRecord,
)
    ensures
        survives(original, updated)(r) <==> forall|i: int| #[trigger]
            was_dropped(original, updated, i) ==> original[i].role != r.role || (r.role
                == WorktreeRole::Temp && original[i].branch@ != r.branch@),
{
    if survives(original, updated)(r) {
        assert forall|i: int| #[trigger] was_dropped(original, updated, i) implies original[i].role
            != r.role || (r.role == WorktreeRole::Temp && original[i].branch@ != r.branch@) by {
            assert(!goes_with(r, original[i]));
        }
    } else {
        let i = choose|i: int| #[trigger]
            was_dropped(original, updated, i) && goes_with(r, original[i]);
        assert(was_dropped(original, updated, i));
    }
}

proof fn lemma_other_record_stays(
    records: Seq<ManagedWorktreeRecord>,
    record: ManagedWorktreeRecord,
    kept: ManagedWorktreeRecord,
)
    requires
        records.contains(kept),
        kept.role == WorktreeRole::Temp,
        record.role != WorktreeRole::Temp || record.branch@ != kept.branch@,
    ensures
        with_record(records, record).contains(kept),
{
    broadcast use Seq::lemma_filter_contains_rev;

    lemma_index_for(records, record.role, record.branch@);
    let at = index_for(records, record.role, record.branch@);
    let k = records.index_of(kept);
    let after = with_record(records, record);
    if at < records.len() {
        assert(at != k);
        assert(after[k] == kept);
    } else if is_single(record.role) {
        let rest = records.filter(other_role(record.role));
        assert(other_role(record.role)(kept));
        assert(records.filter(other_role(record.role)).contains(kept)) by {
            records.lemma_filter_contains_rev(other_role(record.role), kept);
        }
        let m = rest.index_of(kept);
        assert(after[m] == kept);
    } else {
        assert(after[k] == kept);
    }
}

/// What a writer noted of a temporary worktree is in the records that come out, whatever another writer
/// did meanwhile.
pub proof fn law_noted_worktree_comes_in(
    original: Seq<ManagedWorktreeRecord>,
    updated: Seq<ManagedWorktreeRecord>,
    latest: Seq<ManagedWorktreeRecord>,
    i: int,
    n: int,
)
    requires
        0 <= i < n <= updated.len(),
        updated[i].role == WorktreeRole::Temp,
        was_changed(original, updated, i),
    ensures
        with_changes(original, updated, latest, n).contains(updated[i]),
    decreases n,
{
    let before = with_changes(original, updated, latest, n - 1);
    let after = with_changes(original, updated, latest, n);
    let r = updated[n - 1];
    if i == n - 1 {
        lemma_index_for(before, r.role, r.branch@);
        let at = index_for(before, r.role, r.branch@);
        if at < before.len() {
            assert(after[at] == r);
        } else {
            assert(after[before.len() as int] == r);
        }
    } else {
        law_noted_worktree_comes_in(original, updated, latest, i, n - 1);
        if was_changed(original, updated, n - 1) {
            lemma_other_record_stays(before, r, updated[i]);
        }
    }
}

/// A branch that got another name is recorded under it everywhere and under the old one nowhere; all the
/// rest of the records stays as it was.
pub proof fn law_renamed_branch_is_recorded(
    records: Seq<ManagedWorktreeRecord>,
    after: Seq<ManagedWorktreeRecord>,
    old_name: Seq<char>,
    new_name: Seq<char>,
    i: int,
)
    requires
        renamed_records(records, after, old_name, new_name),
        old_name != new_name,
        0 <= i < records.len(),
    ensures
        after.len() == records.len(),
        after[i].branch@ != old_name,
        records[i].branch@ == old_name ==> after[i].branch@ == new_name,
        records[i].branch@ != old_name ==> after[i].branch@ == records[i].branch@,
        after[i].role == records[i].role,
        after[i].path == records[i].path,
        after[i].created_at == records[i].created_at,
        after[i].last_used_at == records[i].last_used_at,
{
}

} // verus!
