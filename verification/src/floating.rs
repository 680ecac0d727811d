//! Branches that float: their history holds an older version of a commit of the target branch.

use crate::graph::{descends, reaches, reaches_commit, CommitGraph, Parents};
use crate::names::NameMap;
use crate::oid::{full_oid, is_oid_text, parse_oid};
use crate::text::{
    copy_opt, has_text, lines_of, opt_string, same, same_opt, split_lines, strs, trim, trim_of, words, words_of,
};
use vstd::prelude::*;

verus! {

/// How many commits are handed to one run of `git patch-id`.
pub const PATCH_ID_BATCH_SIZE: usize = 512;

/// What is read of a commit on a first-parent line.
#[derive(Debug)]
pub struct CommitDetails {
    pub id: String,
    pub tree_id: String,
    pub summary: String,
    pub email: String,
    pub parent_id: Option<String>,
}

impl CommitDetails {
    pub fn copy(&self) -> (r: CommitDetails)
        ensures
            r == *self,
    {
        CommitDetails {
            id: self.id.clone(),
            tree_id: self.tree_id.clone(),
            summary: self.summary.clone(),
            email: self.email.clone(),
            parent_id: copy_opt(&self.parent_id),
        }
    }
}

/// A limit of 0 is no limit.
pub open spec fn in_limit(taken: int, limit: int) -> bool {
    limit == 0 || taken < limit
}

/// Whether one more commit may be read when `taken` have been read.
pub fn within_history_limit(taken: usize, limit: usize) -> (r: bool)
    ensures
        r == in_limit(taken as int, limit as int),
{
    limit == 0 || taken < limit
}

/// The part of a history that the limit lets through.
pub open spec fn limited<A>(history: Seq<A>, limit: int) -> Seq<A> {
    if limit == 0 || limit >= history.len() {
        history
    } else {
        history.take(limit)
    }
}

/// The ids of commits.
pub open spec fn ids_of(v: Seq<CommitDetails>) -> Seq<Seq<char>> {
    Seq::new(v.len(), |i: int| v[i].id@)
}

/// What is known of the target branch: its recent commits, their patch ids, and every commit that
/// its reflog mentions.
#[derive(Debug)]
pub struct FloatingTargetContext {
    pub candidates: Vec<CommitDetails>,
    pub patch_ids: Vec<String>,
    pub reflog_ids: Vec<String>,
}

/// The patch ids of the commits that have one.
pub open spec fn known_patch_ids(
    ids: Seq<Seq<char>>,
    cache: Map<Seq<char>, Option<String>>,
) -> Seq<Seq<char>>
    decreases ids.len(),
{
    if ids.len() == 0 {
        Seq::empty()
    } else {
        let before = known_patch_ids(ids.drop_last(), cache);
        let id = ids.last();
        if cache.contains_key(id) && cache[id] is Some {
            before.push(cache[id]->0@)
        } else {
            before
        }
    }
}

/// Gathers what is known of the target. `history` is its first-parent line from the tip down.
pub fn build_floating_target_context(
    history: &Vec<CommitDetails>,
    history_limit: usize,
    patch_id_cache: &NameMap<Option<String>>,
    reflog_ids: Vec<String>,
) -> (r: FloatingTargetContext)
    ensures
        r.candidates@ == limited(history@, history_limit as int),
        strs(r.patch_ids@) == known_patch_ids(
            ids_of(limited(history@, history_limit as int)),
            patch_id_cache@,
        ),
        r.reflog_ids == reflog_ids,
{
    let ghost part = limited(history@, history_limit as int);
    let mut candidates: Vec<CommitDetails> = Vec::new();
    let mut patch_ids: Vec<String> = Vec::new();
    let mut i: usize = 0;
    assert(ids_of(part.take(0)) =~= Seq::<Seq<char>>::empty());
    assert(strs(patch_ids@) =~= Seq::<Seq<char>>::empty());
    while i < history.len() && within_history_limit(i, history_limit)
        invariant
            i <= part.len() <= history@.len(),
            part == limited(history@, history_limit as int),
            candidates@ == part.take(i as int),
            strs(patch_ids@) == known_patch_ids(ids_of(part.take(i as int)), patch_id_cache@),
        decreases history@.len() - i,
    {
        let c = &history[i];
        candidates.push(c.copy());
        proof {
            let next = ids_of(part.take(i + 1));
            assert(next.drop_last() =~= ids_of(part.take(i as int)));
            assert(next.last() == c.id@);
        }
        let ghost before = patch_ids@;
        if let Some(Some(p)) = patch_id_cache.get(c.id.as_str()) {
            patch_ids.push(p.clone());
            assert(strs(patch_ids@) =~= strs(before).push(p@));
        }
        i += 1;
    }
    assert(part.take(i as int) =~= part);
    FloatingTargetContext { candidates, patch_ids, reflog_ids }
}

/// The reflog of a branch is kept under this reference.
pub open spec fn reflog_name_of(branch: Seq<char>) -> Seq<char> {
    if "refs/"@.is_prefix_of(branch) {
        branch
    } else {
        "refs/heads/"@ + branch
    }
}

pub fn reflog_name(branch_name: &str) -> (r: String)
    ensures
        r@ == reflog_name_of(branch_name@),
{
    if crate::text::starts_with(branch_name, "refs/") {
        branch_name.to_owned()
    } else {
        crate::text::cat2("refs/heads/", branch_name)
    }
}

/// The ids of reflog entries, new and old, without the id that no object has.
pub open spec fn reflog_ids_of(entries: Seq<(String, String)>) -> Seq<Seq<char>>
    decreases entries.len(),
{
    if entries.len() == 0 {
        Seq::empty()
    } else {
        let before = reflog_ids_of(entries.drop_last());
        let (new, old_id) = (entries.last().0@, entries.last().1@);
        let with_new = if crate::oid::is_zero_oid(new) {
            before
        } else {
            before.push(new)
        };
        if crate::oid::is_zero_oid(old_id) {
            with_new
        } else {
            with_new.push(old_id)
        }
    }
}

/// Reads the entries of a reflog, each the new and the old id.
pub fn read_branch_reflog_ids(entries: &Vec<(String, String)>) -> (r: Vec<String>)
    ensures
        strs(r@) == reflog_ids_of(entries@),
{
    let mut out: Vec<String> = Vec::new();
    let mut i: usize = 0;
    assert(strs(out@) =~= Seq::<Seq<char>>::empty());
    while i < entries.len()
        invariant
            i <= entries@.len(),
            strs(out@) == reflog_ids_of(entries@.take(i as int)),
        decreases entries@.len() - i,
    {
        proof {
            assert(entries@.take(i + 1).drop_last() =~= entries@.take(i as int));
            assert(entries@.take(i + 1).last() == entries@[i as int]);
        }
        let ghost before = out@;
        if !crate::oid::zero_oid(entries[i].0.as_str()) {
            out.push(entries[i].0.clone());
            assert(strs(out@) =~= strs(before).push(entries@[i as int].0@));
        }
        let ghost middle = out@;
        if !crate::oid::zero_oid(entries[i].1.as_str()) {
            out.push(entries[i].1.clone());
            assert(strs(out@) =~= strs(middle).push(entries@[i as int].1@));
        }
        i += 1;
    }
    assert(entries@.take(entries@.len() as int) =~= entries@);
    out
}

/// The commit is one that the reflog mentions and that a candidate rewrote: the same summary, author
/// and parent.
pub open spec fn metadata_matches(c: CommitDetails, target: FloatingTargetContext) -> bool {
    &&& strs(target.reflog_ids@).contains(c.id@)
    &&& exists|k: int|
        0 <= k < target.candidates@.len() && same_metadata(c, #[trigger] target.candidates@[k])
}

pub open spec fn same_metadata(c: CommitDetails, candidate: CommitDetails) -> bool {
    &&& trim_of(candidate.summary@) == trim_of(c.summary@)
    &&& candidate.email@ == c.email@
    &&& opt_string(candidate.parent_id) == opt_string(c.parent_id)
}

/// The commit is a candidate, has the tree of one, or was rewritten into one.
pub open spec fn is_hit(c: CommitDetails, target: FloatingTargetContext) -> bool {
    ||| ids_of(target.candidates@).contains(c.id@)
    ||| exists|k: int|
        0 <= k < target.candidates@.len() && (#[trigger] target.candidates@[k]).tree_id@ == c.tree_id@
    ||| metadata_matches(c, target)
}

fn hit(c: &CommitDetails, target: &FloatingTargetContext) -> (r: bool)
    ensures
        r == is_hit(*c, *target),
{
    let in_reflog = has_text(&target.reflog_ids, c.id.as_str());
    let summary = trim(c.summary.as_str());
    let mut k: usize = 0;
    while k < target.candidates.len()
        invariant
            k <= target.candidates@.len(),
            summary@ == trim_of(c.summary@),
            in_reflog == strs(target.reflog_ids@).contains(c.id@),
            forall|j: int| 0 <= j < k ==> ids_of(target.candidates@)[j] != c.id@,
            forall|j: int| 0 <= j < k ==> (#[trigger] target.candidates@[j]).tree_id@ != c.tree_id@,
            in_reflog ==> forall|j: int|
                0 <= j < k ==> !same_metadata(*c, #[trigger] target.candidates@[j]),
        decreases target.candidates@.len() - k,
    {
        let t = &target.candidates[k];
        assert(ids_of(target.candidates@)[k as int] == t.id@);
        if same(t.id.as_str(), c.id.as_str()) || same(t.tree_id.as_str(), c.tree_id.as_str()) {
            return true;
        }
        if in_reflog && same(trim(t.summary.as_str()).as_str(), summary.as_str()) && same(
            t.email.as_str(),
            c.email.as_str(),
        ) && same_opt(&t.parent_id, &c.parent_id) {
            assert(same_metadata(*c, target.candidates@[k as int]));
            return true;
        }
        k += 1;
    }
    false
}

/// What walking down a branch's history finds.
#[derive(Debug)]
pub enum FloatingScan {
    /// The branch is on the target, part of it, or merged into it.
    NotFloating,
    /// The branch stands on this commit, an old version of a commit of the target.
    Base(String),
    /// Only the patches of these commits can tell.
    NeedPatchIds(Vec<String>),
}

/// The target has no commits.
#[derive(Debug)]
pub struct NoTarget {
}

impl NoTarget {
    pub fn message(&self) -> (r: String)
        ensures
            r@ == "Expected at least one target commit for floating-base detection."@,
    {
        "Expected at least one target commit for floating-base detection.".to_owned()
    }
}

/// Walks down the rest of a history: the commit it stops at, or the commits that were no hits. Above
/// the tip itself a hit is the base; from a commit that the target has on, nothing counts.
pub open spec fn scan_down(
    g: Parents,
    history: Seq<CommitDetails>,
    target: FloatingTargetContext,
    target_id: Seq<char>,
    tip: Seq<char>,
    seen: Seq<Seq<char>>,
) -> Result<Seq<char>, Seq<Seq<char>>>
    decreases history.len(),
{
    if history.len() == 0 || descends(g, target_id, history[0].id@) {
        Err(seen)
    } else if is_hit(history[0], target) {
        if history[0].id@ != tip {
            Ok(history[0].id@)
        } else {
            scan_down(g, history.drop_first(), target, target_id, tip, seen)
        }
    } else {
        scan_down(g, history.drop_first(), target, target_id, tip, seen.push(history[0].id@))
    }
}

/// The first half of the search for the base of a floating branch: all that needs no patch ids.
/// `history` is the branch's first-parent line from the tip down.
pub fn scan_floating_base(
    graph: &CommitGraph,
    branch_tip: &str,
    history: &Vec<CommitDetails>,
    target: &FloatingTargetContext,
    history_limit: usize,
) -> (r: Result<FloatingScan, NoTarget>)
    ensures
        r is Err <==> target.candidates@.len() == 0,
        r matches Ok(scan) ==> ({
            let t = target.candidates@[0].id@;
            let on_target = reaches(graph@, branch_tip@, t) || descends(graph@, t, branch_tip@);
            let down = scan_down(
                graph@,
                limited(history@, history_limit as int),
                *target,
                t,
                branch_tip@,
                Seq::empty(),
            );
            match scan {
                FloatingScan::NotFloating => on_target,
                FloatingScan::Base(id) => !on_target && down == Ok::<_, Seq<Seq<char>>>(id@),
                FloatingScan::NeedPatchIds(ids) => !on_target && down == Err::<Seq<char>, _>(
                    strs(ids@),
                ),
            }
        }),
{
    if target.candidates.len() == 0 {
        return Err(NoTarget {  });
    }
    let target_id = target.candidates[0].id.as_str();
    if reaches_commit(graph, branch_tip, target_id) || graph.descendant_of(target_id, branch_tip) {
        return Ok(FloatingScan::NotFloating);
    }
    let ghost part = limited(history@, history_limit as int);
    let ghost whole = scan_down(graph@, part, *target, target_id@, branch_tip@, Seq::empty());
    let mut seen: Vec<String> = Vec::new();
    let mut i: usize = 0;
    assert(part.skip(0) =~= part);
    assert(strs(seen@) =~= Seq::<Seq<char>>::empty());
    while i < history.len() && within_history_limit(i, history_limit) && !graph.descendant_of(
        target_id,
        history[i].id.as_str(),
    )
        invariant
            i <= part.len() <= history@.len(),
            part == limited(history@, history_limit as int),
            target.candidates@.len() > 0,
            target_id@ == target.candidates@[0].id@,
            !reaches(graph@, branch_tip@, target_id@),
            !descends(graph@, target_id@, branch_tip@),
            whole == scan_down(graph@, part, *target, target_id@, branch_tip@, Seq::empty()),
            whole == scan_down(
                graph@,
                part.skip(i as int),
                *target,
                target_id@,
                branch_tip@,
                strs(seen@),
            ),
        decreases history@.len() - i,
    {
        let c = &history[i];
        let ghost before = seen@;
        assert(part.skip(i as int)[0] == *c);
        assert(part.skip(i as int).drop_first() =~= part.skip(i + 1));
        if hit(c, target) {
            if !same(c.id.as_str(), branch_tip) {
                return Ok(FloatingScan::Base(c.id.clone()));
            }
        } else {
            seen.push(c.id.clone());
            assert(strs(seen@) =~= strs(before).push(c.id@));
        }
        i += 1;
    }
    proof {
        if i < part.len() {
            assert(part.skip(i as int)[0] == history@[i as int]);
        }
    }
    Ok(FloatingScan::NeedPatchIds(seen))
}

/// The first commit, other than the tip, whose patch the target has.
pub open spec fn first_patch_match(
    ids: Seq<Seq<char>>,
    tip: Seq<char>,
    cache: Map<Seq<char>, Option<String>>,
    patch_ids: Seq<Seq<char>>,
) -> Option<Seq<char>>
    decreases ids.len(),
{
    if ids.len() == 0 {
        None
    } else if ids[0] != tip && cache.contains_key(ids[0]) && cache[ids[0]] is Some
        && patch_ids.contains(cache[ids[0]]->0@) {
        Some(ids[0])
    } else {
        first_patch_match(ids.drop_first(), tip, cache, patch_ids)
    }
}

/// The second half of the search: the patch ids decide.
pub fn match_patch_ids(
    patch_candidates: &Vec<String>,
    branch_tip: &str,
    patch_id_cache: &NameMap<Option<String>>,
    target: &FloatingTargetContext,
) -> (r: Option<String>)
    ensures
        opt_string(r) == first_patch_match(
            strs(patch_candidates@),
            branch_tip@,
            patch_id_cache@,
            strs(target.patch_ids@),
        ),
{
    let ghost all = strs(patch_candidates@);
    let mut i: usize = 0;
    assert(all.skip(0) =~= all);
    while i < patch_candidates.len()
        invariant
            i <= patch_candidates@.len(),
            all == strs(patch_candidates@),
            first_patch_match(all, branch_tip@, patch_id_cache@, strs(target.patch_ids@))
                == first_patch_match(
                all.skip(i as int),
                branch_tip@,
                patch_id_cache@,
                strs(target.patch_ids@),
            ),
        decreases patch_candidates@.len() - i,
    {
        let id = &patch_candidates[i];
        assert(all.skip(i as int)[0] == id@);
        assert(all.skip(i as int).drop_first() =~= all.skip(i + 1));
        if !same(id.as_str(), branch_tip) {
            if let Some(Some(p)) = patch_id_cache.get(id.as_str()) {
                if has_text(&target.patch_ids, p.as_str()) {
                    return Some(id.clone());
                }
            }
        }
        i += 1;
    }
    None
}

/// The commit that a branch stands on, where that is an old version of a commit of the target.
pub open spec fn floating_base(
    g: Parents,
    tip: Seq<char>,
    history: Seq<CommitDetails>,
    target: FloatingTargetContext,
    limit: int,
    cache: Map<Seq<char>, Option<String>>,
) -> Option<Seq<char>> {
    let t = target.candidates@[0].id@;
    if reaches(g, tip, t) || descends(g, t, tip) {
        None
    } else {
        match scan_down(g, limited(history, limit), target, t, tip, Seq::empty()) {
            Ok(id) => Some(id),
            Err(ids) => first_patch_match(ids, tip, cache, strs(target.patch_ids@)),
        }
    }
}

/// The commit that a branch stands on, where that is an old version of a commit of the target. The
/// cache holds the patch ids of the commits of which only the patch can tell.
pub fn find_floating_base(
    graph: &CommitGraph,
    branch_tip: &str,
    history: &Vec<CommitDetails>,
    target: &FloatingTargetContext,
    history_limit: usize,
    patch_id_cache: &NameMap<Option<String>>,
) -> (r: Result<Option<String>, NoTarget>)
    ensures
        r is Err <==> target.candidates@.len() == 0,
        r matches Ok(base) ==> opt_string(base) == floating_base(
            graph@,
            branch_tip@,
            history@,
            *target,
            history_limit as int,
            patch_id_cache@,
        ),
{
    match scan_floating_base(graph, branch_tip, history, target, history_limit) {
        Err(e) => Err(e),
        Ok(FloatingScan::NotFloating) => Ok(None),
        Ok(FloatingScan::Base(id)) => Ok(Some(id)),
        Ok(FloatingScan::NeedPatchIds(ids)) => Ok(
            match_patch_ids(&ids, branch_tip, patch_id_cache, target),
        ),
    }
}

/// A commit of the history that the target has not.
pub open spec fn is_off_target(
    g: Parents,
    history: Seq<CommitDetails>,
    t: Seq<char>,
    id: Seq<char>,
) -> bool {
    ids_of(history).contains(id) && !descends(g, t, id)
}

proof fn lemma_scan_down(
    g: Parents,
    whole: Seq<CommitDetails>,
    from: int,
    target: FloatingTargetContext,
    t: Seq<char>,
    tip: Seq<char>,
    seen: Seq<Seq<char>>,
)
    requires
        0 <= from <= whole.len(),
        forall|i: int| 0 <= i < seen.len() ==> is_off_target(g, whole, t, #[trigger] seen[i]),
    ensures
        match scan_down(g, whole.skip(from), target, t, tip, seen) {
            Ok(id) => id != tip && is_off_target(g, whole, t, id),
            Err(ids) => forall|i: int|
                0 <= i < ids.len() ==> is_off_target(g, whole, t, #[trigger] ids[i]),
        },
    decreases whole.len() - from,
{
    let rest = whole.skip(from);
    if rest.len() > 0 && !descends(g, t, rest[0].id@) {
        assert(rest.drop_first() =~= whole.skip(from + 1));
        assert(ids_of(whole)[from] == rest[0].id@);
        assert(is_off_target(g, whole, t, rest[0].id@));
        let more = seen.push(rest[0].id@);
        assert forall|i: int| 0 <= i < more.len() implies is_off_target(
            g,
            whole,
            t,
            #[trigger] more[i],
        ) by {
            if i < seen.len() {
                assert(more[i] == seen[i]);
            }
        }
        lemma_scan_down(g, whole, from + 1, target, t, tip, seen);
        lemma_scan_down(g, whole, from + 1, target, t, tip, more);
    }
}

proof fn lemma_first_patch_match(
    ids: Seq<Seq<char>>,
    tip: Seq<char>,
    cache: Map<Seq<char>, Option<String>>,
    patch_ids: Seq<Seq<char>>,
)
    ensures
        first_patch_match(ids, tip, cache, patch_ids) matches Some(id) ==> ids.contains(id) && id
            != tip,
    decreases ids.len(),
{
    if ids.len() > 0 {
        let rest = ids.drop_first();
        lemma_first_patch_match(rest, tip, cache, patch_ids);
        match first_patch_match(rest, tip, cache, patch_ids) {
            Some(id) => {
                assert(ids[rest.index_of(id) + 1] == id);
            },
            None => {},
        }
    }
}

/// The base of a floating branch is a commit of the branch other than its tip, and not one that the
/// target has: a restack never mistakes a common ancestor for an old version.
pub proof fn law_floating_base_is_off_the_target(
    g: Parents,
    tip: Seq<char>,
    history: Seq<CommitDetails>,
    target: FloatingTargetContext,
    limit: int,
    cache: Map<Seq<char>, Option<String>>,
)
    requires
        target.candidates@.len() > 0,
    ensures
        floating_base(g, tip, history, target, limit, cache) matches Some(id) ==> id != tip
            && is_off_target(g, limited(history, limit), target.candidates@[0].id@, id),
{
    let part = limited(history, limit);
    let t = target.candidates@[0].id@;
    assert(part.skip(0) =~= part);
    lemma_scan_down(g, part, 0, target, t, tip, Seq::empty());
    match scan_down(g, part, target, t, tip, Seq::empty()) {
        Ok(_) => {},
        Err(ids) => {
            lemma_first_patch_match(ids, tip, cache, strs(target.patch_ids@));
            match first_patch_match(ids, tip, cache, strs(target.patch_ids@)) {
                Some(id) => {
                    let k = ids.index_of(id);
                    assert(is_off_target(g, part, t, ids[k]));
                },
                None => {},
            }
        },
    }
}

/// The ids that the cache does not know.
pub open spec fn unknown_ids(
    ids: Seq<Seq<char>>,
    cache: Map<Seq<char>, Option<String>>,
) -> Seq<Seq<char>>
    decreases ids.len(),
{
    if ids.len() == 0 {
        Seq::empty()
    } else if cache.contains_key(ids.last()) {
        unknown_ids(ids.drop_last(), cache)
    } else {
        unknown_ids(ids.drop_last(), cache).push(ids.last())
    }
}

/// The commits whose patch ids are still to be computed.
pub fn missing_patch_ids(commit_ids: &Vec<String>, patch_id_cache: &NameMap<Option<String>>) -> (r:
    Vec<String>)
    ensures
        strs(r@) == unknown_ids(strs(commit_ids@), patch_id_cache@),
{
    let ghost all = strs(commit_ids@);
    let mut out: Vec<String> = Vec::new();
    let mut i: usize = 0;
    assert(strs(out@) =~= Seq::<Seq<char>>::empty());
    while i < commit_ids.len()
        invariant
            i <= commit_ids@.len(),
            all == strs(commit_ids@),
            strs(out@) == unknown_ids(all.take(i as int), patch_id_cache@),
        decreases commit_ids@.len() - i,
    {
        let id = &commit_ids[i];
        assert(all.take(i + 1).drop_last() =~= all.take(i as int));
        assert(all.take(i + 1).last() == id@);
        let ghost before = out@;
        if !patch_id_cache.contains(id.as_str()) {
            out.push(id.clone());
            assert(strs(out@) =~= strs(before).push(id@));
        }
        i += 1;
    }
    assert(all.take(all.len() as int) =~= all);
    out
}

/// The cache with an entry for each of the ids: its patch id, or that it has none.
pub open spec fn with_patch_ids(
    cache: Map<Seq<char>, Option<String>>,
    ids: Seq<Seq<char>>,
    computed: Map<Seq<char>, String>,
) -> Map<Seq<char>, Option<String>>
    decreases ids.len(),
{
    if ids.len() == 0 {
        cache
    } else {
        let id = ids.last();
        with_patch_ids(cache, ids.drop_last(), computed).insert(
            id,
            if computed.contains_key(id) {
                Some(computed[id])
            } else {
                None
            },
        )
    }
}

/// Takes the patch ids that were computed for the missing commits into the cache.
pub fn remember_patch_ids(
    patch_id_cache: &mut NameMap<Option<String>>,
    missing: &Vec<String>,
    computed: &NameMap<String>,
)
    ensures
        final(patch_id_cache)@ == with_patch_ids(
            old(patch_id_cache)@,
            strs(missing@),
            computed@,
        ),
{
    let ghost all = strs(missing@);
    let ghost start = patch_id_cache@;
    let mut i: usize = 0;
    assert(all.take(0) =~= Seq::<Seq<char>>::empty());
    while i < missing.len()
        invariant
            i <= missing@.len(),
            all == strs(missing@),
            patch_id_cache@ == with_patch_ids(start, all.take(i as int), computed@),
        decreases missing@.len() - i,
    {
        let id = &missing[i];
        assert(all.take(i + 1).drop_last() =~= all.take(i as int));
        assert(all.take(i + 1).last() == id@);
        let value = match computed.get(id.as_str()) {
            Some(p) => Some(p.clone()),
            None => None,
        };
        patch_id_cache.insert(id.clone(), value);
        i += 1;
    }
    assert(all.take(all.len() as int) =~= all);
}

/// Commit and patch id of a line that `git patch-id` prints.
pub open spec fn patch_line(line: Seq<char>) -> Option<(Seq<char>, Seq<char>)> {
    let parts = words_of(line);
    if parts.len() >= 2 && is_oid_text(parts[1]) {
        Some((full_oid(parts[1]), parts[0]))
    } else {
        None
    }
}

pub open spec fn patch_map(
    start: Map<Seq<char>, Seq<char>>,
    lines: Seq<Seq<char>>,
) -> Map<Seq<char>, Seq<char>>
    decreases lines.len(),
{
    if lines.len() == 0 {
        start
    } else {
        let before = patch_map(start, lines.drop_last());
        match patch_line(lines.last()) {
            Some((commit, patch)) => before.insert(commit, patch),
            None => before,
        }
    }
}

/// Reads what `git patch-id` prints: on each line a patch id and a commit.
pub fn parse_patch_ids(stdout: &str, result: &mut NameMap<String>)
    ensures
        crate::names::text_map(final(result)@) == patch_map(
            crate::names::text_map(old(result)@),
            lines_of(stdout@),
        ),
{
    let lines = split_lines(stdout);
    let ghost all = strs(lines@);
    let ghost start = crate::names::text_map(result@);
    let mut i: usize = 0;
    assert(all.take(0) =~= Seq::<Seq<char>>::empty());
    while i < lines.len()
        invariant
            i <= lines@.len(),
            all == strs(lines@),
            crate::names::text_map(result@) == patch_map(start, all.take(i as int)),
        decreases lines@.len() - i,
    {
        let parts = words(lines[i].as_str());
        proof {
            assert(all.take(i + 1).drop_last() =~= all.take(i as int));
            assert(all.take(i + 1).last() == lines@[i as int]@);
            assert(strs(parts@).len() == parts@.len());
        }
        if parts.len() >= 2 {
            assert(strs(parts@)[0] == parts@[0]@ && strs(parts@)[1] == parts@[1]@);
            if let Some(id) = parse_oid(parts[1].as_str()) {
                let patch = parts[0].clone();
                proof {
                    crate::names::lemma_text_map_insert(result@, id@, patch);
                }
                result.insert(id, patch);
            }
        }
        i += 1;
    }
    assert(all.take(all.len() as int) =~= all);
}

} // verus!
