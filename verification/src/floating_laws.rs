//! What is promised of the search for branches that stand on an old version of another.

use crate::floating::{
    first_patch_match, floating_base, is_hit, known_patch_ids, limited, metadata_matches, patch_map,
    reflog_ids_of, reflog_name_of, scan_down, unknown_ids, with_patch_ids, CommitDetails,
    FloatingTargetContext,
};
use crate::graph::{descends, reaches, Parents};
use crate::lists::{chosen, lemma_chosen_next, lemma_chosen_none};
use crate::oid::{full_oid, is_oid_text, is_zero_oid};
use crate::text::{opt_string, strs, trim_of, words_of};
use vstd::prelude::*;

verus! {

/// The commit is an old version of a commit of the target: the same commit, one with the same tree,
/// or one that the target's reflog mentions and that has the same summary, author and parent.
pub open spec fn is_old_version(c: CommitDetails, target: FloatingTargetContext) -> bool {
    exists|k: int| {
        &&& 0 <= k < target.candidates@.len()
        &&& {
            ||| (#[trigger] target.candidates@[k]).id@ == c.id@
            ||| target.candidates@[k].tree_id@ == c.tree_id@
            ||| strs(target.reflog_ids@).contains(c.id@) && trim_of(
                target.candidates@[k].summary@,
            ) == trim_of(c.summary@) && target.candidates@[k].email@ == c.email@ && opt_string(
                target.candidates@[k].parent_id,
            ) == opt_string(c.parent_id)
        }
    }
}

/// A commit is recognised exactly where it is an old version of a commit of the target.
pub proof fn law_old_versions_are_recognised(c: CommitDetails, target: FloatingTargetContext)
    ensures
        is_hit(c, target) <==> is_old_version(c, target),
{
    if is_old_version(c, target) {
        let k = choose|k: int| {
            &&& 0 <= k < target.candidates@.len()
            &&& {
                ||| (#[trigger] target.candidates@[k]).id@ == c.id@
                ||| target.candidates@[k].tree_id@ == c.tree_id@
                ||| strs(target.reflog_ids@).contains(c.id@) && trim_of(
                    target.candidates@[k].summary@,
                ) == trim_of(c.summary@) && target.candidates@[k].email@ == c.email@ && opt_string(
                    target.candidates@[k].parent_id,
                ) == opt_string(c.parent_id)
            }
        };
        assert(crate::floating::ids_of(target.candidates@)[k] == target.candidates@[k].id@);
    }
    if is_hit(c, target) {
        let ids = crate::floating::ids_of(target.candidates@);
        if ids.contains(c.id@) {
            let k = ids.index_of(c.id@);
            assert(target.candidates@[k].id@ == c.id@);
        } else if metadata_matches(c, target) {
            let k = choose|k: int|
                0 <= k < target.candidates@.len() && crate::floating::same_metadata(
                    c,
                    #[trigger] target.candidates@[k],
                );
            assert(target.candidates@[k].email@ == c.email@);
        } else {
            let k = choose|k: int|
                0 <= k < target.candidates@.len() && (#[trigger] target.candidates@[k]).tree_id@
                    == c.tree_id@;
            assert(target.candidates@[k].tree_id@ == c.tree_id@);
        }
    }
}

/// None of the first `n` commits is one that the target has.
pub open spec fn off_target(g: Parents, history: Seq<CommitDetails>, t: Seq<char>, n: int) -> bool {
    forall|i: int| 0 <= i < n ==> !descends(g, t, (#[trigger] history[i]).id@)
}

/// The patch of the commit is one of the target's.
pub open spec fn has_patch_of(
    id: Seq<char>,
    target: FloatingTargetContext,
    cache: Map<Seq<char>, Option<String>>,
) -> bool {
    cache.contains_key(id) && cache[id] is Some && strs(target.patch_ids@).contains(cache[id]->0@)
}

/// The commit, other than the tip, is an old version of one of the target.
pub open spec fn can_be_base(c: CommitDetails, tip: Seq<char>, target: FloatingTargetContext) -> bool {
    c.id@ != tip && is_old_version(c, target)
}

/// The commit, other than the tip, is no old version that can be told from what is known of it, but
/// its patch is one of the target's.
pub open spec fn is_patch_of(
    c: CommitDetails,
    tip: Seq<char>,
    target: FloatingTargetContext,
    cache: Map<Seq<char>, Option<String>>,
) -> bool {
    c.id@ != tip && !is_old_version(c, target) && has_patch_of(c.id@, target, cache)
}

/// What walking down a history finds: the topmost old version above the first commit that the target
/// has, or else the commits above that one that are no old versions.
spec fn is_scan(
    g: Parents,
    whole: Seq<CommitDetails>,
    target: FloatingTargetContext,
    t: Seq<char>,
    tip: Seq<char>,
    r: Result<Seq<char>, Seq<Seq<char>>>,
) -> bool {
    match r {
        Ok(id) => exists|k: int| {
            &&& 0 <= k < whole.len()
            &&& (#[trigger] whole[k]).id@ == id
            &&& can_be_base(whole[k], tip, target)
            &&& off_target(g, whole, t, k + 1)
            &&& forall|i: int| 0 <= i < k ==> !can_be_base(#[trigger] whole[i], tip, target)
        },
        Err(ids) => exists|end: int| #[trigger] ends_at(g, whole, target, t, tip, ids, end),
    }
}

/// The walk ends at place `end`, with the target's first commit or the end of the history.
spec fn ends_at(
    g: Parents,
    whole: Seq<CommitDetails>,
    target: FloatingTargetContext,
    t: Seq<char>,
    tip: Seq<char>,
    ids: Seq<Seq<char>>,
    end: int,
) -> bool {
    &&& 0 <= end <= whole.len()
    &&& end < whole.len() ==> descends(g, t, whole[end].id@)
    &&& off_target(g, whole, t, end)
    &&& is_seen(whole, end, target, ids)
    &&& forall|i: int| 0 <= i < end ==> !can_be_base(#[trigger] whole[i], tip, target)
}

proof fn lemma_scan(
    g: Parents,
    whole: Seq<CommitDetails>,
    from: int,
    target: FloatingTargetContext,
    t: Seq<char>,
    tip: Seq<char>,
    seen: Seq<Seq<char>>,
    cache: Map<Seq<char>, Option<String>>,
)
    requires
        0 <= from <= whole.len(),
        off_target(g, whole, t, from),
        forall|i: int| 0 <= i < from ==> !can_be_base(#[trigger] whole[i], tip, target),
        is_seen(whole, from, target, seen),
    ensures
        is_scan(g, whole, target, t, tip, scan_down(g, whole.skip(from), target, t, tip, seen)),
    decreases whole.len() - from,
{
    let rest = whole.skip(from);
    if rest.len() == 0 || descends(g, t, rest[0].id@) {
        if rest.len() > 0 {
            assert(rest[0] == whole[from]);
        }
        assert(scan_down(g, rest, target, t, tip, seen) == Err::<Seq<char>, _>(seen));
        let end = from;
        assert(end < whole.len() ==> descends(g, t, whole[end].id@));
        assert(ends_at(g, whole, target, t, tip, seen, end));
        match scan_down(g, rest, target, t, tip, seen) {
            Ok(_) => {},
            Err(ids) => {
                assert(ends_at(g, whole, target, t, tip, ids, end));
            },
        }
    } else {
        let c = whole[from];
        assert(rest[0] == c);
        assert(rest.drop_first() =~= whole.skip(from + 1));
        law_old_versions_are_recognised(c, target);
        if is_hit(c, target) && c.id@ != tip {
            assert(scan_down(g, rest, target, t, tip, seen) == Ok::<_, Seq<Seq<char>>>(c.id@));
            assert(off_target(g, whole, t, from + 1));
            assert(can_be_base(whole[from], tip, target));
            assert(is_scan(g, whole, target, t, tip, Ok(c.id@)));
        } else {
            let more = if is_hit(c, target) {
                seen
            } else {
                seen.push(c.id@)
            };
            lemma_seen_next(whole, from, target, seen);
            assert(scan_down(g, rest, target, t, tip, seen) == scan_down(
                g,
                whole.skip(from + 1),
                target,
                t,
                tip,
                more,
            ));
            lemma_scan(g, whole, from + 1, target, t, tip, more, cache);
        }
    }
}

/// The ids of the first `n` commits that are no old versions, in their order.
pub open spec fn is_seen(
    whole: Seq<CommitDetails>,
    n: int,
    target: FloatingTargetContext,
    seen: Seq<Seq<char>>,
) -> bool {
    seen == chosen(n, |k: int| !is_old_version(whole[k], target), |k: int| whole[k].id@)
}

proof fn lemma_seen_next(
    whole: Seq<CommitDetails>,
    n: int,
    target: FloatingTargetContext,
    seen: Seq<Seq<char>>,
)
    requires
        0 <= n < whole.len(),
        is_seen(whole, n, target, seen),
    ensures
        is_seen(
            whole,
            n + 1,
            target,
            if is_old_version(whole[n], target) {
                seen
            } else {
                seen.push(whole[n].id@)
            },
        ),
{
    lemma_chosen_next(
        n,
        |k: int| !is_old_version(whole[k], target),
        |k: int| whole[k].id@,
    );
}

proof fn lemma_patch_match(
    ids: Seq<Seq<char>>,
    tip: Seq<char>,
    cache: Map<Seq<char>, Option<String>>,
    target: FloatingTargetContext,
)
    ensures
        match first_patch_match(ids, tip, cache, strs(target.patch_ids@)) {
            Some(id) => exists|k: int| {
                &&& 0 <= k < ids.len()
                &&& #[trigger] ids[k] == id
                &&& id != tip
                &&& has_patch_of(id, target, cache)
                &&& forall|j: int|
                    0 <= j < k ==> #[trigger] ids[j] == tip || !has_patch_of(ids[j], target, cache)
            },
            None => forall|j: int|
                0 <= j < ids.len() ==> #[trigger] ids[j] == tip || !has_patch_of(
                    ids[j],
                    target,
                    cache,
                ),
        },
    decreases ids.len(),
{
    if ids.len() > 0 {
        if ids[0] != tip && has_patch_of(ids[0], target, cache) {
            assert(ids[0] == ids[0]);
        } else {
            let rest = ids.drop_first();
            lemma_patch_match(rest, tip, cache, target);
            assert forall|j: int| 0 <= j < rest.len() implies #[trigger] rest[j] == ids[j + 1] by {}
            match first_patch_match(rest, tip, cache, strs(target.patch_ids@)) {
                Some(id) => {
                    let k = choose|k: int| {
                        &&& 0 <= k < rest.len()
                        &&& #[trigger] rest[k] == id
                        &&& id != tip
                        &&& has_patch_of(id, target, cache)
                        &&& forall|j: int|
                            0 <= j < k ==> #[trigger] rest[j] == tip || !has_patch_of(
                                rest[j],
                                target,
                                cache,
                            )
                    };
                    assert(ids[k + 1] == id);
                    assert forall|j: int| 0 <= j < k + 1 implies #[trigger] ids[j] == tip
                        || !has_patch_of(ids[j], target, cache) by {
                        if j > 0 {
                            assert(rest[j - 1] == ids[j]);
                        }
                    }
                },
                None => {
                    assert forall|j: int| 0 <= j < ids.len() implies #[trigger] ids[j] == tip
                        || !has_patch_of(ids[j], target, cache) by {
                        if j > 0 {
                            assert(rest[j - 1] == ids[j]);
                        }
                    }
                },
            }
        }
    }
}

/// A branch floats exactly where it is not on the target, not part of it and not merged into it, and
/// one of its commits down to the first that the target has, other than its tip, is an old version of
/// a commit of the target, or has a patch of the target. The base is the topmost such commit; one
/// that is known to be an old version comes before one that only has the patch.
pub proof fn law_floating_base_is_the_topmost_old_version(
    g: Parents,
    tip: Seq<char>,
    history: Seq<CommitDetails>,
    target: FloatingTargetContext,
    limit: int,
    cache: Map<Seq<char>, Option<String>>,
)
    requires
        target.candidates@.len() > 0,
    ensures
        ({
            let t = target.candidates@[0].id@;
            let part = limited(history, limit);
            let on_target = reaches(g, tip, t) || descends(g, t, tip);
            match floating_base(g, tip, history, target, limit, cache) {
                Some(id) => !on_target && exists|k: int| {
                    &&& 0 <= k < part.len()
                    &&& (#[trigger] part[k]).id@ == id
                    &&& off_target(g, part, t, k + 1)
                    &&& (can_be_base(part[k], tip, target) && forall|i: int|
                        0 <= i < k ==> !can_be_base(#[trigger] part[i], tip, target)) || (
                    is_patch_of(part[k], tip, target, cache) && forall|i: int|
                        0 <= i < k ==> !can_be_base(#[trigger] part[i], tip, target)
                            && !is_patch_of(part[i], tip, target, cache))
                },
                None => on_target || forall|k: int|
                    0 <= k < part.len() && off_target(g, part, t, k + 1) ==> !can_be_base(
                        #[trigger] part[k],
                        tip,
                        target,
                    ) && !is_patch_of(part[k], tip, target, cache),
            }
        }),
{
    let t = target.candidates@[0].id@;
    let part = limited(history, limit);
    let on_target = reaches(g, tip, t) || descends(g, t, tip);
    if !on_target {
        assert(part.skip(0) =~= part);
        lemma_chosen_none(
            |k: int| !is_old_version(part[k], target),
            |k: int| part[k].id@,
        );
        assert(is_seen(part, 0, target, Seq::empty()));
        lemma_scan(g, part, 0, target, t, tip, Seq::empty(), cache);
        match scan_down(g, part, target, t, tip, Seq::empty()) {
            Ok(id) => {},
            Err(ids) => {
                let end = choose|end: int| #[trigger] ends_at(g, part, target, t, tip, ids, end);
                let keep = |k: int| !is_old_version(part[k], target);
                let give = |k: int| part[k].id@;
                let places = crate::lists::places_where(end, keep);
                crate::lists::law_places_where(end, keep);
                lemma_patch_match(ids, tip, cache, target);
                match first_patch_match(ids, tip, cache, strs(target.patch_ids@)) {
                    Some(id) => {
                        let m = choose|k: int| {
                            &&& 0 <= k < ids.len()
                            &&& #[trigger] ids[k] == id
                            &&& id != tip
                            &&& has_patch_of(id, target, cache)
                            &&& forall|j: int|
                                0 <= j < k ==> #[trigger] ids[j] == tip || !has_patch_of(
                                    ids[j],
                                    target,
                                    cache,
                                )
                        };
                        let k = places[m];
                        assert(places.contains(k));
                        assert(ids[m] == give(k));
                        assert(part[k].id@ == id);
                        assert forall|i: int| 0 <= i < k implies !can_be_base(
                            #[trigger] part[i],
                            tip,
                            target,
                        ) && !is_patch_of(part[i], tip, target, cache) by {
                            if keep(i) {
                                assert(places.contains(i));
                                let j = places.index_of(i);
                                assert(j < m) by {
                                    if m < j {
                                        assert(places[m] < places[j]);
                                    }
                                }
                                assert(ids[j] == give(i));
                            }
                        }
                        assert(off_target(g, part, t, k + 1));
                    },
                    None => {
                        assert forall|k: int|
                            0 <= k < part.len() && off_target(g, part, t, k + 1) implies !can_be_base(
                            #[trigger] part[k],
                            tip,
                            target,
                        ) && !is_patch_of(part[k], tip, target, cache) by {
                            if k >= end {
                                assert(!descends(g, t, part[end].id@));
                            }
                            if keep(k) {
                                assert(places.contains(k));
                                let j = places.index_of(k);
                                assert(ids[j] == give(k));
                            }
                        }
                    },
                }
            },
        }
    }
}

/// A limit lets through the first commits of a history, as many as it says; a limit of 0 all.
pub proof fn law_limit_takes_the_first<A>(history: Seq<A>, limit: int)
    requires
        limit >= 0,
    ensures
        limited(history, limit).len() == if limit == 0 || history.len() <= limit {
            history.len() as int
        } else {
            limit
        },
        forall|i: int|
            0 <= i < limited(history, limit).len() ==> #[trigger] limited(history, limit)[i]
                == history[i],
{
}

/// The patch ids of the target are those of its commits that have one, in their order.
pub proof fn law_patch_ids_of_the_target(
    ids: Seq<Seq<char>>,
    cache: Map<Seq<char>, Option<String>>,
    n: int,
)
    requires
        0 <= n <= ids.len(),
    ensures
        known_patch_ids(ids.take(n), cache) == chosen(
            n,
            |k: int| cache.contains_key(ids[k]) && cache[ids[k]] is Some,
            |k: int| cache[ids[k]]->0@,
        ),
    decreases n,
{
    let keep = |k: int| cache.contains_key(ids[k]) && cache[ids[k]] is Some;
    let give = |k: int| cache[ids[k]]->0@;
    if n > 0 {
        law_patch_ids_of_the_target(ids, cache, n - 1);
        lemma_chosen_next(n - 1, keep, give);
        assert(ids.take(n).drop_last() =~= ids.take(n - 1));
    } else {
        lemma_chosen_none(keep, give);
    }
}

/// The commits whose patch ids are missing are those that the cache does not know, in their order.
pub proof fn law_missing_patch_ids_are_unknown(
    ids: Seq<Seq<char>>,
    cache: Map<Seq<char>, Option<String>>,
    n: int,
)
    requires
        0 <= n <= ids.len(),
    ensures
        unknown_ids(ids.take(n), cache) == chosen(
            n,
            |k: int| !cache.contains_key(ids[k]),
            |k: int| ids[k],
        ),
    decreases n,
{
    let keep = |k: int| !cache.contains_key(ids[k]);
    let give = |k: int| ids[k];
    if n > 0 {
        law_missing_patch_ids_are_unknown(ids, cache, n - 1);
        lemma_chosen_next(n - 1, keep, give);
        assert(ids.take(n).drop_last() =~= ids.take(n - 1));
    } else {
        lemma_chosen_none(keep, give);
    }
}

/// What was computed is remembered for exactly the commits that were asked for: the patch id, or that
/// there is none. What was known of others stays.
pub proof fn law_patch_ids_are_remembered(
    cache: Map<Seq<char>, Option<String>>,
    ids: Seq<Seq<char>>,
    computed: Map<Seq<char>, String>,
    id: Seq<char>,
)
    ensures
        ({
            let after = with_patch_ids(cache, ids, computed);
            if ids.contains(id) {
                after.contains_key(id) && after[id] == if computed.contains_key(id) {
                    Some(computed[id])
                } else {
                    None
                }
            } else {
                after.contains_key(id) == cache.contains_key(id) && (cache.contains_key(id)
                    ==> after[id] == cache[id])
            }
        }),
    decreases ids.len(),
{
    if ids.len() > 0 {
        let rest = ids.drop_last();
        law_patch_ids_are_remembered(cache, rest, computed, id);
        assert(ids[ids.len() - 1] == ids.last());
        if rest.contains(id) {
            assert(ids[rest.index_of(id)] == id);
        } else if ids.contains(id) {
            let k = ids.index_of(id);
            if k < rest.len() {
                assert(rest[k] == id);
            }
        }
    }
}

/// The line of `git patch-id` is about the commit.
pub open spec fn is_patch_line_of(line: Seq<char>, commit: Seq<char>) -> bool {
    let parts = words_of(line);
    parts.len() >= 2 && is_oid_text(parts[1]) && full_oid(parts[1]) == commit
}

/// The patch id of a commit is the first word of the last line that is about it; without such a line
/// nothing changes.
pub proof fn law_patch_ids_are_read(
    start: Map<Seq<char>, Seq<char>>,
    lines: Seq<Seq<char>>,
    commit: Seq<char>,
)
    ensures
        ({
            let after = patch_map(start, lines);
            ||| (after.contains_key(commit) == start.contains_key(commit) && (start.contains_key(
                commit,
            ) ==> after[commit] == start[commit]) && forall|k: int|
                0 <= k < lines.len() ==> !is_patch_line_of(#[trigger] lines[k], commit))
            ||| exists|k: int| {
                &&& 0 <= k < lines.len()
                &&& is_patch_line_of(#[trigger] lines[k], commit)
                &&& after.contains_key(commit)
                &&& after[commit] == words_of(lines[k])[0]
                &&& forall|j: int|
                    k < j < lines.len() ==> !is_patch_line_of(#[trigger] lines[j], commit)
            }
        }),
    decreases lines.len(),
{
    if lines.len() > 0 {
        let rest = lines.drop_last();
        let n = lines.len() - 1;
        law_patch_ids_are_read(start, rest, commit);
        assert forall|i: int| 0 <= i < n implies #[trigger] rest[i] == lines[i] by {}
        assert(lines[n] == lines.last());
        if !is_patch_line_of(lines[n], commit) {
            let before = patch_map(start, rest);
            let after = patch_map(start, lines);
            assert(after.contains_key(commit) == before.contains_key(commit));
            if exists|k: int| {
                &&& 0 <= k < rest.len()
                &&& is_patch_line_of(#[trigger] rest[k], commit)
                &&& before.contains_key(commit)
                &&& before[commit] == words_of(rest[k])[0]
                &&& forall|j: int|
                    k < j < rest.len() ==> !is_patch_line_of(#[trigger] rest[j], commit)
            } {
                let k = choose|k: int| {
                    &&& 0 <= k < rest.len()
                    &&& is_patch_line_of(#[trigger] rest[k], commit)
                    &&& before.contains_key(commit)
                    &&& before[commit] == words_of(rest[k])[0]
                    &&& forall|j: int|
                        k < j < rest.len() ==> !is_patch_line_of(#[trigger] rest[j], commit)
                };
                assert(is_patch_line_of(lines[k], commit));
                assert forall|j: int| k < j < lines.len() implies !is_patch_line_of(
                    #[trigger] lines[j],
                    commit,
                ) by {
                    if j < n {
                        assert(rest[j] == lines[j]);
                    }
                }
            } else {
                assert forall|j: int| 0 <= j < lines.len() implies !is_patch_line_of(
                    #[trigger] lines[j],
                    commit,
                ) by {
                    if j < n {
                        assert(rest[j] == lines[j]);
                    }
                }
            }
        }
    }
}

/// A reflog mentions exactly the commits that an entry leaves or goes to; the id that no object has is
/// none.
pub proof fn law_reflog_is_read_whole(entries: Seq<(String, String)>, id: Seq<char>)
    ensures
        reflog_ids_of(entries).contains(id) <==> !is_zero_oid(id) && exists|k: int|
            0 <= k < entries.len() && ((#[trigger] entries[k]).0@ == id || entries[k].1@ == id),
    decreases entries.len(),
{
    if entries.len() > 0 {
        let rest = entries.drop_last();
        let n = entries.len() - 1;
        law_reflog_is_read_whole(rest, id);
        let before = reflog_ids_of(rest);
        let all = reflog_ids_of(entries);
        let e = entries[n];
        assert(entries.last() == e);
        assert forall|i: int| 0 <= i < n implies #[trigger] rest[i] == entries[i] by {}
        assert forall|i: int| 0 <= i < n implies #[trigger] entries[i] == rest[i] by {}
        let first = if is_zero_oid(e.0@) {
            before
        } else {
            before.push(e.0@)
        };
        let both = if is_zero_oid(e.1@) {
            first
        } else {
            first.push(e.1@)
        };
        assert(all =~= both);
        if before.contains(id) {
            assert(all[before.index_of(id)] == id);
        }
        if !is_zero_oid(e.0@) {
            assert(all[before.len() as int] == e.0@);
        }
        if !is_zero_oid(e.1@) {
            assert(all[first.len() as int] == e.1@);
        }
        if all.contains(id) {
            let k = all.index_of(id);
            if k < before.len() {
                assert(before[k] == id);
            }
        }
    }
}

/// The reflog of a branch is that of its reference; a full name is taken as it is.
pub proof fn law_reflog_of_a_branch(branch: Seq<char>)
    ensures
        !"refs/"@.is_prefix_of(branch) ==> reflog_name_of(branch) == "refs/heads/"@ + branch,
        "refs/"@.is_prefix_of(branch) ==> reflog_name_of(branch) == branch,
{
}

} // verus!
