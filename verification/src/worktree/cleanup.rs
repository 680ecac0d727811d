//! Temporary worktrees that are no longer needed.

use crate::text::{
    has_text, lemma_text_lt_irreflexive, lemma_text_lt_total, lemma_text_lt_transitive, less, strs,
    text_lt,
};
use crate::worktree::config::WorktreeConfig;
use crate::worktree::git::LiveWorktree;
use crate::worktree::path_resolver::{normalized, TemplateError};
use crate::worktree::roles::{role_for_path, role_of};
use crate::worktree::WorktreeRole;
use vstd::prelude::*;

verus! {

/// A temporary worktree whose branch is merged into the trunk.
#[derive(Debug, Clone)]
pub struct CleanupCandidate {
    pub branch: String,
    pub path: String,
    pub live: LiveWorktree,
}

/// The worktree is a temporary one, it is there on disk, and its branch is merged. A worktree whose
/// directory is gone is left to git.
pub open spec fn is_cleanup_candidate(
    config: WorktreeConfig,
    w: LiveWorktree,
    exists_on_disk: bool,
    merged: Seq<Seq<char>>,
) -> bool {
    &&& role_of(config, normalized(w.path@)) == Some(Some(WorktreeRole::Temp))
    &&& exists_on_disk
    &&& w.branch is Some
    &&& merged.contains(w.branch->0@)
}

/// The candidate for a worktree.
pub open spec fn candidate_of(c: CleanupCandidate, w: LiveWorktree) -> bool {
    c.live == w && c.path == w.path && w.branch == Some(c.branch)
}

/// The list with one more, behind all whose branches do not come after it.
pub open spec fn put_in_order(list: Seq<LiveWorktree>, w: LiveWorktree) -> Seq<LiveWorktree>
    decreases list.len(),
{
    if list.len() == 0 || !text_lt(w.branch->0@, list.last().branch->0@) {
        list.push(w)
    } else {
        put_in_order(list.drop_last(), w).push(list.last())
    }
}

/// The worktrees to clean up among the first `n`, by branch.
pub open spec fn cleanup_list(
    config: WorktreeConfig,
    live: Seq<LiveWorktree>,
    on_disk: Seq<bool>,
    merged: Seq<Seq<char>>,
    n: int,
) -> Seq<LiveWorktree>
    decreases n,
{
    if n <= 0 {
        Seq::empty()
    } else {
        let before = cleanup_list(config, live, on_disk, merged, n - 1);
        if is_cleanup_candidate(config, live[n - 1], on_disk[n - 1], merged) {
            put_in_order(before, live[n - 1])
        } else {
            before
        }
    }
}

/// The worktrees of candidates.
pub open spec fn lives(v: Seq<CleanupCandidate>) -> Seq<LiveWorktree> {
    Seq::new(v.len(), |i: int| v[i].live)
}

/// Every candidate is made from its worktree.
pub open spec fn well_made(v: Seq<CleanupCandidate>) -> bool {
    forall|i: int| 0 <= i < v.len() ==> candidate_of(#[trigger] v[i], v[i].live)
}

fn insert_candidate(list: &mut Vec<CleanupCandidate>, c: CleanupCandidate)
    requires
        well_made(old(list)@),
        candidate_of(c, c.live),
    ensures
        well_made(final(list)@),
        lives(final(list)@) == put_in_order(lives(old(list)@), c.live),
{
    let ghost before = list@;
    let ghost all = lives(before);
    let mut at: usize = list.len();
    assert(all.take(all.len() as int) =~= all);
    assert(put_in_order(all, c.live) + all.skip(all.len() as int) =~= put_in_order(all, c.live));
    while at > 0 && less(c.branch.as_str(), list[at - 1].branch.as_str())
        invariant
            at <= list@.len(),
            list@ == before,
            all == lives(before),
            well_made(before),
            candidate_of(c, c.live),
            put_in_order(all, c.live) == put_in_order(all.take(at as int), c.live) + all.skip(
                at as int,
            ),
        decreases at,
    {
        proof {
            let part = all.take(at as int);
            assert(candidate_of(before[at - 1], before[at - 1].live));
            assert(part.last() == before[at - 1].live);
            assert(part.drop_last() =~= all.take(at - 1));
            assert(all.skip(at - 1) =~= seq![part.last()] + all.skip(at as int));
            assert(put_in_order(all.take(at - 1), c.live).push(part.last()) + all.skip(at as int)
                =~= put_in_order(all.take(at - 1), c.live) + all.skip(at - 1));
        }
        at -= 1;
    }
    proof {
        let part = all.take(at as int);
        if at > 0 {
            assert(candidate_of(before[at - 1], before[at - 1].live));
            assert(part.last() == before[at - 1].live);
        }
        assert(put_in_order(part, c.live) == part.push(c.live));
    }
    list.insert(at, c);
    proof {
        assert(lives(list@) =~= all.take(at as int).push(c.live) + all.skip(at as int));
        assert forall|i: int| 0 <= i < list@.len() implies candidate_of(
            #[trigger] list@[i],
            list@[i].live,
        ) by {
            if i < at {
                assert(list@[i] == before[i]);
            } else if i > at {
                assert(list@[i] == before[i - 1]);
            }
        }
    }
}

/// The temporary worktrees whose branches are merged, by branch. `on_disk` says of each worktree
/// whether its directory is there.
pub fn find_cleanup_candidates(
    config: &WorktreeConfig,
    live: &Vec<LiveWorktree>,
    on_disk: &Vec<bool>,
    merged_branches: &Vec<String>,
) -> (r: Result<Vec<CleanupCandidate>, TemplateError>)
    requires
        on_disk@.len() == live@.len(),
    ensures
        match r {
            Ok(v) => {
                &&& well_made(v@)
                &&& lives(v@) == if config.temp.delete_merged {
                    cleanup_list(
                        *config,
                        live@,
                        on_disk@,
                        strs(merged_branches@),
                        live@.len() as int,
                    )
                } else {
                    Seq::empty()
                }
                &&& config.temp.delete_merged ==> forall|i: int|
                    0 <= i < live@.len() ==> role_of(
                        *config,
                        normalized((#[trigger] live@[i]).path@),
                    ) is Some
            },
            Err(e) => {
                &&& config.temp.delete_merged
                &&& e.0@ == config.temp.path_template@
                &&& exists|i: int|
                    0 <= i < live@.len() && role_of(*config, normalized((#[trigger] live@[i]).path@))
                        is None
            },
        },
{
    let mut out: Vec<CleanupCandidate> = Vec::new();
    assert(lives(out@) =~= Seq::<LiveWorktree>::empty());
    if !config.temp.delete_merged {
        return Ok(out);
    }
    let mut i: usize = 0;
    while i < live.len()
        invariant
            i <= live@.len() == on_disk@.len(),
            config.temp.delete_merged,
            well_made(out@),
            lives(out@) == cleanup_list(
                *config,
                live@,
                on_disk@,
                strs(merged_branches@),
                i as int,
            ),
            forall|k: int|
                0 <= k < i ==> role_of(*config, normalized((#[trigger] live@[k]).path@)) is Some,
        decreases live@.len() - i,
    {
        let w = &live[i];
        let role = match role_for_path(config, w.normalized_path().as_str()) {
            Ok(role) => role,
            Err(e) => return Err(e),
        };
        let is_temp = match role {
            Some(role) => role == WorktreeRole::Temp,
            None => false,
        };
        if is_temp && on_disk[i] {
            if let Some(branch) = &w.branch {
                if has_text(merged_branches, branch.as_str()) {
                    let c = CleanupCandidate {
                        branch: branch.clone(),
                        path: w.path.clone(),
                        live: w.copy(),
                    };
                    insert_candidate(&mut out, c);
                }
            }
        }
        i += 1;
    }
    Ok(out)
}

proof fn lemma_put_in_order(list: Seq<LiveWorktree>, w: LiveWorktree)
    ensures
        put_in_order(list, w).len() == list.len() + 1,
        forall|x: LiveWorktree| #[trigger]
            put_in_order(list, w).contains(x) <==> list.contains(x) || x == w,
    decreases list.len(),
{
    let after = put_in_order(list, w);
    if list.len() == 0 || !text_lt(w.branch->0@, list.last().branch->0@) {
        assert forall|x: LiveWorktree| #[trigger] after.contains(x) <==> list.contains(x) || x == w by {
            if list.contains(x) {
                assert(after[list.index_of(x)] == x);
            }
            assert(after[list.len() as int] == w);
            if after.contains(x) && x != w {
                assert(list[after.index_of(x)] == x);
            }
        }
    } else {
        let fewer = list.drop_last();
        lemma_put_in_order(fewer, w);
        let inner = put_in_order(fewer, w);
        assert forall|x: LiveWorktree| #[trigger] after.contains(x) <==> list.contains(x) || x == w by {
            if list.contains(x) {
                let k = list.index_of(x);
                if k < fewer.len() {
                    assert(fewer[k] == x);
                    assert(inner.contains(x));
                    assert(after[inner.index_of(x)] == x);
                } else {
                    assert(after[inner.len() as int] == x);
                }
            }
            if x == w {
                assert(inner.contains(w));
                assert(after[inner.index_of(w)] == w);
            }
            if after.contains(x) {
                let k = after.index_of(x);
                if k < inner.len() {
                    assert(inner[k] == x);
                    assert(inner.contains(x));
                    if x != w {
                        assert(fewer.contains(x));
                        assert(list[fewer.index_of(x)] == x);
                    }
                } else {
                    assert(list[list.len() - 1] == x);
                }
            }
        }
    }
}

/// Only temporary worktrees are ever cleaned up, never the main or the review worktree, and only
/// such as have a merged branch.
pub proof fn law_cleanup_spares_other_worktrees(
    config: WorktreeConfig,
    live: Seq<LiveWorktree>,
    on_disk: Seq<bool>,
    merged: Seq<Seq<char>>,
    n: int,
    w: LiveWorktree,
)
    requires
        0 <= n <= live.len(),
        cleanup_list(config, live, on_disk, merged, n).contains(w),
    ensures
        role_of(config, normalized(w.path@)) == Some(Some(WorktreeRole::Temp)),
        normalized(w.path@) != normalized(config.main.path@),
        normalized(w.path@) != normalized(config.review.path@),
        w.branch is Some && merged.contains(w.branch->0@),
        live.contains(w),
    decreases n,
{
    if n > 0 {
        let before = cleanup_list(config, live, on_disk, merged, n - 1);
        if is_cleanup_candidate(config, live[n - 1], on_disk[n - 1], merged) {
            lemma_put_in_order(before, live[n - 1]);
            if w == live[n - 1] {
                assert(live[n - 1] == w);
            } else {
                law_cleanup_spares_other_worktrees(config, live, on_disk, merged, n - 1, w);
            }
        } else {
            law_cleanup_spares_other_worktrees(config, live, on_disk, merged, n - 1, w);
        }
    }
}

/// The branches of the list come in order.
pub open spec fn by_branch(list: Seq<LiveWorktree>) -> bool {
    forall|i: int, j: int|
        0 <= i < j < list.len() ==> !text_lt(
            (#[trigger] list[j]).branch->0@,
            (#[trigger] list[i]).branch->0@,
        )
}

proof fn lemma_put_keeps_order(list: Seq<LiveWorktree>, w: LiveWorktree)
    requires
        by_branch(list),
    ensures
        by_branch(put_in_order(list, w)),
    decreases list.len(),
{
    let after = put_in_order(list, w);
    if list.len() == 0 || !text_lt(w.branch->0@, list.last().branch->0@) {
        assert forall|i: int, j: int| 0 <= i < j < after.len() implies !text_lt(
            (#[trigger] after[j]).branch->0@,
            (#[trigger] after[i]).branch->0@,
        ) by {
            assert(after[i] == list[i]);
            if j < list.len() {
                assert(after[j] == list[j]);
            } else {
                let last = list.len() - 1;
                if i < last && text_lt(w.branch->0@, list[i].branch->0@) {
                    assert(!text_lt(list[last].branch->0@, list[i].branch->0@));
                    lemma_text_lt_total(list[last].branch->0@, list[i].branch->0@);
                    if list[last].branch->0@ != list[i].branch->0@ {
                        lemma_text_lt_transitive(
                            w.branch->0@,
                            list[i].branch->0@,
                            list[last].branch->0@,
                        );
                    }
                }
            }
        }
    } else {
        let fewer = list.drop_last();
        assert forall|i: int, j: int| 0 <= i < j < fewer.len() implies !text_lt(
            (#[trigger] fewer[j]).branch->0@,
            (#[trigger] fewer[i]).branch->0@,
        ) by {
            assert(fewer[i] == list[i] && fewer[j] == list[j]);
        }
        lemma_put_keeps_order(fewer, w);
        lemma_put_in_order(fewer, w);
        let inner = put_in_order(fewer, w);
        assert forall|i: int, j: int| 0 <= i < j < after.len() implies !text_lt(
            (#[trigger] after[j]).branch->0@,
            (#[trigger] after[i]).branch->0@,
        ) by {
            assert(after[i] == inner[i]);
            if j < inner.len() {
                assert(after[j] == inner[j]);
            } else {
                assert(inner.contains(inner[i]));
                if inner[i] == w {
                    if text_lt(list.last().branch->0@, w.branch->0@) {
                        lemma_text_lt_transitive(
                            list.last().branch->0@,
                            w.branch->0@,
                            list.last().branch->0@,
                        );
                        lemma_text_lt_irreflexive(list.last().branch->0@);
                    }
                } else {
                    let k = fewer.index_of(inner[i]);
                    assert(list[k] == inner[i]);
                    assert(list[list.len() - 1] == list.last());
                }
            }
        }
    }
}

/// What is cleaned up is listed by branch.
pub proof fn law_cleanup_is_in_order(
    config: WorktreeConfig,
    live: Seq<LiveWorktree>,
    on_disk: Seq<bool>,
    merged: Seq<Seq<char>>,
    n: int,
)
    ensures
        by_branch(cleanup_list(config, live, on_disk, merged, n)),
    decreases n,
{
    if n > 0 {
        law_cleanup_is_in_order(config, live, on_disk, merged, n - 1);
        lemma_put_keeps_order(cleanup_list(config, live, on_disk, merged, n - 1), live[n - 1]);
    }
}

} // verus!
