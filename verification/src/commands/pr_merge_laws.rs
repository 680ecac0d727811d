//! When a pull request is merged, and what follows.

use crate::commands::pr_merge::{
    block_reason, cascade_after, dependents, discontent, is_ready, open_reviews, remote_and_branch,
    summary_lines, upstream_of, CascadeStep, PrMergeAssessment, PrStatusSummary, ReviewerStatus,
    StackPr,
};
use crate::lists::{chosen, law_places_where, lemma_chosen_next, lemma_chosen_none, places_where};
use crate::text::{
    dec, join_of, lemma_index_of_char, lemma_index_of_char_is, lower_text, opt_string, replace_of,
    strs,
};
use vstd::prelude::*;

verus! {

/// The word, in whatever case, lets a pull request be merged.
pub open spec fn lets_merge(status: Seq<char>) -> bool {
    ||| lower_text(status) == lower_text("approved"@)
    ||| lower_text(status) == lower_text("commented"@)
    ||| lower_text(status) == lower_text("comments"@)
}

/// The reviews that are left open are those of everyone who neither approved nor only commented, in
/// order.
pub proof fn law_open_reviews_are_listed(v: Seq<ReviewerStatus>, n: int)
    requires
        0 <= n <= v.len(),
    ensures
        discontent(v.take(n)) == chosen(
            n,
            |k: int| !lets_merge(v[k].status@),
            |k: int| v[k].reviewer@ + ": "@ + v[k].status@,
        ),
    decreases n,
{
    let keep = |k: int| !lets_merge(v[k].status@);
    let give = |k: int| v[k].reviewer@ + ": "@ + v[k].status@;
    if n > 0 {
        law_open_reviews_are_listed(v, n - 1);
        lemma_chosen_next(n - 1, keep, give);
        assert(v.take(n).drop_last() =~= v.take(n - 1));
        assert(v.take(n).last() == v[n - 1]);
    } else {
        lemma_chosen_none(keep, give);
    }
}

/// Nothing is left open by the reviews: everyone approved or only commented, and the decision of
/// all, where there is one, is to approve.
pub open spec fn reviewed(s: PrStatusSummary) -> bool {
    &&& forall|k: int|
        0 <= k < s.reviewer_statuses@.len() ==> lets_merge(
            (#[trigger] s.reviewer_statuses@[k]).status@,
        )
    &&& s.review_decision matches Some(d) ==> lower_text(d@) == lower_text("APPROVED"@)
}

proof fn lemma_reviewed(s: PrStatusSummary)
    ensures
        open_reviews(s).len() == 0 <==> reviewed(s),
{
    let v = s.reviewer_statuses@;
    let n = v.len() as int;
    let keep = |k: int| !lets_merge(v[k].status@);
    law_open_reviews_are_listed(v, n);
    assert(v.take(n) =~= v);
    law_places_where(n, keep);
    let places = places_where(n, keep);
    assert(discontent(v).len() == places.len());
    if places.len() == 0 {
        assert forall|k: int| 0 <= k < n implies lets_merge((#[trigger] v[k]).status@) by {
            if keep(k) {
                assert(places.contains(k));
            }
        }
    } else {
        assert(places.contains(places[0]));
        assert(!lets_merge(v[places[0]].status@));
    }
    match s.review_decision {
        Some(d) => {
            let summary = "overall review decision: "@ + replace_of(
                lower_text(d@),
                "_"@,
                " "@,
            );
            if discontent(v).contains(summary) {
                assert(discontent(v).len() > 0);
            }
        },
        None => {},
    }
}

/// A pull request is merged without a question only where it is no draft, GitHub can merge it and its
/// state is clean or at most unstable, nobody who looked at it objects, no comment is left open, and
/// no check runs or failed. Where only GitHub has nothing against it, the user is asked.
pub proof fn law_only_a_ready_pull_request_is_merged(s: PrStatusSummary, a: PrMergeAssessment)
    requires
        strs(a.outstanding_reviews@) == open_reviews(s),
        a.unresolved_comments == s.unresolved_comments,
        strs(a.running_checks@) == strs(s.running_checks@),
        strs(a.failed_checks@) == strs(s.failed_checks@),
        a.repo_allows_merge <==> block_reason(s) is None,
    ensures
        a.repo_allows_merge <==> !s.is_draft && lower_text(s.mergeable@) == lower_text(
            "MERGEABLE"@,
        ) && (s.merge_state_status@ == "CLEAN"@ || s.merge_state_status@ == "UNSTABLE"@),
        is_ready(a) <==> a.repo_allows_merge && reviewed(s) && s.unresolved_comments == 0
            && s.running_checks@.len() == 0 && s.failed_checks@.len() == 0,
{
    lemma_reviewed(s);
    assert(strs(a.outstanding_reviews@).len() == a.outstanding_reviews@.len());
    assert(strs(a.running_checks@).len() == a.running_checks@.len());
    assert(strs(s.running_checks@).len() == s.running_checks@.len());
    assert(strs(a.failed_checks@).len() == a.failed_checks@.len());
    assert(strs(s.failed_checks@).len() == s.failed_checks@.len());
}

/// Of a pull request that is not ready, all that stands in the way is said.
pub proof fn law_every_obstacle_is_said(branch: Seq<char>, number: u64, a: PrMergeAssessment)
    ensures
        ({
            let lines = summary_lines(branch, number, a);
            &&& lines.len() > 0 && lines[0] == "PR #"@ + dec(number as nat) + " for "@ + branch
                + " is not ready to merge:"@
            &&& a.unresolved_comments > 0 ==> lines.contains(
                "  - Unresolved review comments: "@ + dec(a.unresolved_comments as nat),
            )
            &&& forall|i: int|
                0 <= i < a.outstanding_reviews@.len() ==> lines.contains(
                    "    - "@ + (#[trigger] a.outstanding_reviews@[i])@,
                )
            &&& a.running_checks@.len() > 0 ==> lines.contains(
                "  - Running checks: "@ + join_of(strs(a.running_checks@), ", "@),
            )
            &&& a.failed_checks@.len() > 0 ==> lines.contains(
                "  - Failed checks: "@ + join_of(strs(a.failed_checks@), ", "@),
            )
            &&& opt_string(a.repo_block_reason) matches Some(reason) ==> lines.last()
                == "  - Merge blocked by GitHub: "@ + reason
            &&& opt_string(a.repo_block_reason) is None ==> lines.last()
                == "  - GitHub would still allow merging this PR."@
        }),
{
    let none = Seq::<Seq<char>>::empty();
    let lines = summary_lines(branch, number, a);
    let head = seq!["PR #"@ + dec(number as nat) + " for "@ + branch + " is not ready to merge:"@];
    let comments = if a.unresolved_comments > 0 {
        seq!["  - Unresolved review comments: "@ + dec(a.unresolved_comments as nat)]
    } else {
        none
    };
    let open = Seq::new(
        a.outstanding_reviews@.len(),
        |i: int| "    - "@ + strs(a.outstanding_reviews@)[i],
    );
    let reviews = if a.outstanding_reviews@.len() > 0 {
        seq!["  - Outstanding reviews:"@] + open
    } else {
        none
    };
    let running = if a.running_checks@.len() > 0 {
        seq!["  - Running checks: "@ + join_of(strs(a.running_checks@), ", "@)]
    } else {
        none
    };
    let failed = if a.failed_checks@.len() > 0 {
        seq!["  - Failed checks: "@ + join_of(strs(a.failed_checks@), ", "@)]
    } else {
        none
    };
    let end = seq![
        match opt_string(a.repo_block_reason) {
            Some(reason) => "  - Merge blocked by GitHub: "@ + reason,
            None => "  - GitHub would still allow merging this PR."@,
        },
    ];
    assert(strs(a.outstanding_reviews@).len() == a.outstanding_reviews@.len());
    assert(crate::commands::pr_merge::items(strs(a.outstanding_reviews@)) =~= open);
    assert(lines =~= head + comments + reviews + running + failed + end);
    let c = head.len() as int;
    let r = c + comments.len();
    let u = r + reviews.len();
    let f = u + running.len();
    if a.unresolved_comments > 0 {
        assert(lines[c] == comments[0]);
    }
    assert forall|i: int| 0 <= i < a.outstanding_reviews@.len() implies lines.contains(
        "    - "@ + (#[trigger] a.outstanding_reviews@[i])@,
    ) by {
        assert(reviews[i + 1] == open[i]);
        assert(lines[r + i + 1] == reviews[i + 1]);
    }
    if a.running_checks@.len() > 0 {
        assert(lines[u] == running[0]);
    }
    if a.failed_checks@.len() > 0 {
        assert(lines[f] == failed[0]);
    }
}

/// What follows a merge, step by step: the pull requests on it get another base; then, unless nothing
/// is to follow, the branches are restacked; and then, unless it is to stay, the branch goes on its
/// remote.
pub proof fn law_cascade_is_complete(no_cascade: bool, no_delete: bool)
    ensures
        cascade_after(None, no_cascade, no_delete) == CascadeStep::Retarget,
        no_cascade ==> cascade_after(Some(CascadeStep::Retarget), no_cascade, no_delete)
            == CascadeStep::Done,
        !no_cascade ==> cascade_after(Some(CascadeStep::Retarget), no_cascade, no_delete)
            == CascadeStep::Restack,
        no_delete ==> cascade_after(Some(CascadeStep::Restack), no_cascade, no_delete)
            == CascadeStep::Done,
        !no_delete ==> cascade_after(Some(CascadeStep::Restack), no_cascade, no_delete)
            == CascadeStep::DeleteRemote,
        cascade_after(Some(CascadeStep::DeleteRemote), no_cascade, no_delete) == CascadeStep::Done,
{
}

/// The pull requests that get another base are those whose branch stood on the merged one, in order.
pub proof fn law_pull_requests_on_the_merged_branch(
    prs: Seq<StackPr>,
    bases: Map<Seq<char>, Seq<char>>,
    merged: Seq<char>,
    n: int,
)
    requires
        0 <= n <= prs.len(),
    ensures
        dependents(prs.take(n), bases, merged) == chosen(
            n,
            |k: int|
                bases.contains_key(prs[k].branch_name@) && bases[prs[k].branch_name@] == merged,
            |k: int| (prs[k].number, prs[k].branch_name@),
        ),
    decreases n,
{
    let keep = |k: int|
        bases.contains_key(prs[k].branch_name@) && bases[prs[k].branch_name@] == merged;
    let give = |k: int| (prs[k].number, prs[k].branch_name@);
    if n > 0 {
        law_pull_requests_on_the_merged_branch(prs, bases, merged, n - 1);
        lemma_chosen_next(n - 1, keep, give);
        assert(prs.take(n).drop_last() =~= prs.take(n - 1));
        assert(prs.take(n).last() == prs[n - 1]);
    } else {
        lemma_chosen_none(keep, give);
    }
}

/// An upstream is a remote and a branch of it with a slash between them: the first slash counts, and
/// neither part is empty.
pub proof fn law_upstream_is_a_remote_and_a_branch(
    upstream: Seq<char>,
    remote: Seq<char>,
    branch: Seq<char>,
)
    ensures
        remote_and_branch(upstream) == Some((remote, branch)) <==> upstream == remote + seq!['/']
            + branch && !remote.contains('/') && remote.len() > 0 && branch.len() > 0,
{
    lemma_index_of_char(upstream, '/');
    let at = crate::text::index_of_char(upstream, '/');
    if at < upstream.len() {
        assert(upstream =~= upstream.take(at) + seq!['/'] + upstream.skip(at + 1));
        assert(!upstream.take(at).contains('/')) by {
            if upstream.take(at).contains('/') {
                let i = upstream.take(at).index_of('/');
                assert(upstream[i] == '/');
            }
        }
    }
    if upstream == remote + seq!['/'] + branch && !remote.contains('/') {
        assert forall|i: int| 0 <= i < remote.len() implies upstream[i] != '/' by {
            assert(remote.contains(remote[i]));
        }
        lemma_index_of_char_is(upstream, '/', remote.len() as int);
        assert(upstream.take(remote.len() as int) =~= remote);
        assert(upstream.skip(remote.len() as int + 1) =~= branch);
    }
}

/// The upstream of a branch is that of the first one of that name; there is none only where no branch
/// of that name is listed.
pub proof fn law_upstream_of_the_branch(v: Seq<(String, String)>, name: Seq<char>) -> (i: int)
    ensures
        0 <= i <= v.len(),
        forall|j: int| 0 <= j < i ==> (#[trigger] v[j]).0@ != name,
        i < v.len() ==> v[i].0@ == name && upstream_of(v, name) == Some(v[i].1@),
        i == v.len() <==> upstream_of(v, name) is None,
    decreases v.len(),
{
    if v.len() == 0 || v[0].0@ == name {
        0
    } else {
        let rest = v.drop_first();
        let k = law_upstream_of_the_branch(rest, name);
        assert forall|j: int| 0 <= j < k + 1 implies (#[trigger] v[j]).0@ != name by {
            if j > 0 {
                assert(rest[j - 1] == v[j]);
            }
        }
        k + 1
    }
}

} // verus!
