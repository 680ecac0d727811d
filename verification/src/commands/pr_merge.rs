//! `kin pr merge`: whether a pull request may be merged, and what follows when it has been.

use crate::commands::push::{foreign_base_target, is_foreign_base};
use crate::commands::settings::{base_short_name, short_base};
use crate::graph::CommitGraph;
use crate::names::text_map;
use crate::stack::{base_map, compute_base_map, first_views, StackBranch};
use crate::text::{
    cat2, cat3, cat4, cat5, dec, decimal, has_text, join, join_of, lower_text, opt_string, opt_text,
    push_text, replace, replace_of, same, split_once, split_once_spec, strs, to_lower,
};
use vstd::prelude::*;

verus! {

/// How GitHub merges.
#[derive(Debug, Clone, Copy, PartialEq, Eq, Structural)]
pub enum MergeMethod {
    Squash,
    Rebase,
    Merge,
}

impl MergeMethod {
    /// The flag of `gh pr merge`.
    pub fn gh_flag(self) -> (r: &'static str)
        ensures
            r@ == match self {
                MergeMethod::Squash => "--squash"@,
                MergeMethod::Rebase => "--rebase"@,
                MergeMethod::Merge => "--merge"@,
            },
    {
        match self {
            MergeMethod::Squash => "--squash",
            MergeMethod::Rebase => "--rebase",
            MergeMethod::Merge => "--merge",
        }
    }
}

/// The options of `kin pr merge`.
#[derive(Debug)]
pub struct PrMergeArgs {
    pub method: Option<MergeMethod>,
    /// Leave the local branches as they are.
    pub no_cascade: bool,
    /// Keep the merged branch.
    pub no_delete: bool,
}

/// What one person who looked at it says.
#[derive(Debug)]
pub struct ReviewerStatus {
    pub reviewer: String,
    pub status: String,
}

/// What GitHub says of a pull request.
#[derive(Debug)]
pub struct PrStatusSummary {
    pub is_draft: bool,
    pub mergeable: String,
    pub merge_state_status: String,
    pub review_decision: Option<String>,
    pub reviewer_statuses: Vec<ReviewerStatus>,
    pub unresolved_comments: usize,
    pub running_checks: Vec<String>,
    pub failed_checks: Vec<String>,
    pub head_ref_oid: Option<String>,
}

/// What stands between a pull request and its merge.
#[derive(Debug)]
pub struct PrMergeAssessment {
    pub outstanding_reviews: Vec<String>,
    pub unresolved_comments: usize,
    pub running_checks: Vec<String>,
    pub failed_checks: Vec<String>,
    pub repo_allows_merge: bool,
    pub repo_block_reason: Option<String>,
}

/// The texts are the same but for the case of ASCII letters.
pub open spec fn same_word(a: Seq<char>, b: Seq<char>) -> bool {
    lower_text(a) == lower_text(b)
}

/// Whether two texts are the same but for the case of ASCII letters.
pub fn is_same_word(a: &str, b: &str) -> (r: bool)
    ensures
        r == same_word(a@, b@),
{
    let x = to_lower(a);
    let y = to_lower(b);
    same(x.as_str(), y.as_str())
}

/// The person has nothing against the merge.
pub open spec fn is_content(status: Seq<char>) -> bool {
    same_word(status, "approved"@) || same_word(status, "commented"@) || same_word(
        status,
        "comments"@,
    )
}

/// What the people who are not content say.
pub open spec fn discontent(v: Seq<ReviewerStatus>) -> Seq<Seq<char>>
    decreases v.len(),
{
    if v.len() == 0 {
        Seq::empty()
    } else if is_content(v.last().status@) {
        discontent(v.drop_last())
    } else {
        discontent(v.drop_last()).push(v.last().reviewer@ + ": "@ + v.last().status@)
    }
}

/// What the reviews leave open.
pub open spec fn open_reviews(s: PrStatusSummary) -> Seq<Seq<char>> {
    let reviews = discontent(s.reviewer_statuses@);
    match s.review_decision {
        Some(d) => {
            let summary = "overall review decision: "@ + replace_of(
                lower_text(d@),
                "_"@,
                " "@,
            );
            if same_word(d@, "APPROVED"@) || reviews.contains(summary) {
                reviews
            } else {
                reviews.push(summary)
            }
        },
        None => reviews,
    }
}

/// GitHub's own state lets the pull request be merged.
pub open spec fn is_clean(state: Seq<char>) -> bool {
    state == "CLEAN"@ || state == "UNSTABLE"@
}

/// Why GitHub does not let the pull request be merged.
pub open spec fn block_reason(s: PrStatusSummary) -> Option<Seq<char>> {
    if s.is_draft {
        Some("PR is still marked as draft"@)
    } else if !same_word(s.mergeable@, "MERGEABLE"@) {
        Some("GitHub mergeability is "@ + s.mergeable@)
    } else if !is_clean(s.merge_state_status@) {
        Some("GitHub merge state is "@ + s.merge_state_status@)
    } else {
        None
    }
}

/// Works out what stands between a pull request and its merge.
pub fn assess_pr_mergeability(status: &PrStatusSummary) -> (r: PrMergeAssessment)
    ensures
        strs(r.outstanding_reviews@) == open_reviews(*status),
        r.unresolved_comments == status.unresolved_comments,
        strs(r.running_checks@) == strs(status.running_checks@),
        strs(r.failed_checks@) == strs(status.failed_checks@),
        r.repo_allows_merge <==> block_reason(*status) is None,
        opt_string(r.repo_block_reason) == block_reason(*status),
{
    let ghost all = status.reviewer_statuses@;
    let mut reviews: Vec<String> = Vec::new();
    let mut i: usize = 0;
    assert(strs(reviews@) =~= Seq::<Seq<char>>::empty());
    while i < status.reviewer_statuses.len()
        invariant
            i <= status.reviewer_statuses@.len(),
            all == status.reviewer_statuses@,
            strs(reviews@) == discontent(all.take(i as int)),
        decreases status.reviewer_statuses@.len() - i,
    {
        let reviewer = &status.reviewer_statuses[i];
        assert(all.take(i + 1).drop_last() =~= all.take(i as int));
        let word = reviewer.status.as_str();
        if !is_same_word(word, "approved") && !is_same_word(word, "commented") && !is_same_word(
            word,
            "comments",
        ) {
            let text = cat3(reviewer.reviewer.as_str(), ": ", word);
            let ghost before = reviews@;
            reviews.push(text);
            assert(strs(reviews@) =~= strs(before).push(text@));
        }
        i += 1;
    }
    assert(all.take(all.len() as int) =~= all);
    match &status.review_decision {
        Some(d) => {
            if !is_same_word(d.as_str(), "APPROVED") {
                let low = to_lower(d.as_str());
                proof {
                    reveal_strlit("_");
                }
                let plain = replace(low.as_str(), "_", " ");
                let summary = cat2("overall review decision: ", plain.as_str());
                if !has_text(&reviews, summary.as_str()) {
                    let ghost before = reviews@;
                    reviews.push(summary);
                    assert(strs(reviews@) =~= strs(before).push(summary@));
                }
            }
        },
        None => {},
    }
    let mergeable = is_same_word(status.mergeable.as_str(), "MERGEABLE");
    let state = status.merge_state_status.as_str();
    let clean = same(state, "CLEAN") || same(state, "UNSTABLE");
    let reason = if status.is_draft {
        Some("PR is still marked as draft".to_owned())
    } else if !mergeable {
        Some(cat2("GitHub mergeability is ", status.mergeable.as_str()))
    } else if !clean {
        Some(cat2("GitHub merge state is ", state))
    } else {
        None
    };
    PrMergeAssessment {
        outstanding_reviews: reviews,
        unresolved_comments: status.unresolved_comments,
        running_checks: crate::text::copy_texts(&status.running_checks),
        failed_checks: crate::text::copy_texts(&status.failed_checks),
        repo_allows_merge: !status.is_draft && mergeable && clean,
        repo_block_reason: reason,
    }
}

/// Each text as an item of a list.
pub open spec fn items(v: Seq<Seq<char>>) -> Seq<Seq<char>> {
    Seq::new(v.len(), |i: int| "    - "@ + v[i])
}

/// What is said of a pull request that is not ready.
pub open spec fn summary_lines(
    branch: Seq<char>,
    number: u64,
    a: PrMergeAssessment,
) -> Seq<Seq<char>> {
    let none = Seq::<Seq<char>>::empty();
    seq!["PR #"@ + dec(number as nat) + " for "@ + branch + " is not ready to merge:"@] + (
    if a.unresolved_comments > 0 {
        seq!["  - Unresolved review comments: "@ + dec(a.unresolved_comments as nat)]
    } else {
        none
    }) + (if a.outstanding_reviews@.len() > 0 {
        seq!["  - Outstanding reviews:"@] + items(strs(a.outstanding_reviews@))
    } else {
        none
    }) + (if a.running_checks@.len() > 0 {
        seq!["  - Running checks: "@ + join_of(strs(a.running_checks@), ", "@)]
    } else {
        none
    }) + (if a.failed_checks@.len() > 0 {
        seq!["  - Failed checks: "@ + join_of(strs(a.failed_checks@), ", "@)]
    } else {
        none
    }) + seq![
        match opt_string(a.repo_block_reason) {
            Some(reason) => "  - Merge blocked by GitHub: "@ + reason,
            None => "  - GitHub would still allow merging this PR."@,
        },
    ]
}

/// What is said of a pull request that is not ready.
pub fn render_pr_merge_summary(branch_name: &str, number: u64, assessment: &PrMergeAssessment) -> (r:
    String)
    ensures
        r@ == join_of(summary_lines(branch_name@, number, *assessment), "\n"@),
{
    let a = assessment;
    let mut lines: Vec<String> = Vec::new();
    let n = decimal(number);
    push_text(
        &mut lines,
        cat5("PR #", n.as_str(), " for ", branch_name, " is not ready to merge:"),
    );
    if a.unresolved_comments > 0 {
        let count = decimal(a.unresolved_comments as u64);
        push_text(&mut lines, cat2("  - Unresolved review comments: ", count.as_str()));
    }
    if a.outstanding_reviews.len() > 0 {
        push_text(&mut lines, "  - Outstanding reviews:".to_owned());
        let ghost head = strs(lines@);
        let ghost all = items(strs(a.outstanding_reviews@));
        let mut i: usize = 0;
        assert(head =~= head + all.take(0));
        while i < a.outstanding_reviews.len()
            invariant
                i <= a.outstanding_reviews@.len(),
                all == items(strs(a.outstanding_reviews@)),
                strs(lines@) == head + all.take(i as int),
            decreases a.outstanding_reviews@.len() - i,
        {
            push_text(&mut lines, cat2("    - ", a.outstanding_reviews[i].as_str()));
            assert(strs(lines@) =~= head + all.take(i + 1));
            i += 1;
        }
        assert(all.take(all.len() as int) =~= all);
    }
    if a.running_checks.len() > 0 {
        let names = join(&a.running_checks, ", ");
        push_text(&mut lines, cat2("  - Running checks: ", names.as_str()));
    }
    if a.failed_checks.len() > 0 {
        let names = join(&a.failed_checks, ", ");
        push_text(&mut lines, cat2("  - Failed checks: ", names.as_str()));
    }
    match &a.repo_block_reason {
        Some(reason) => push_text(&mut lines, cat2("  - Merge blocked by GitHub: ", reason.as_str())),
        None => push_text(&mut lines, "  - GitHub would still allow merging this PR.".to_owned()),
    }
    assert(strs(lines@) =~= summary_lines(branch_name@, number, *assessment));
    join(&lines, "\n")
}

/// Nothing stands between the pull request and its merge.
pub open spec fn is_ready(a: PrMergeAssessment) -> bool {
    &&& a.unresolved_comments == 0
    &&& a.outstanding_reviews@.len() == 0
    &&& a.running_checks@.len() == 0
    &&& a.failed_checks@.len() == 0
    &&& a.repo_allows_merge
}

/// What is done with a pull request.
#[derive(Debug)]
pub enum MergeDecision {
    /// It is merged.
    Merge,
    /// The user is asked whether to merge it as it is.
    Ask,
    /// GitHub does not let it be merged, for that reason.
    Prevented(String),
}

/// Decides what is done with a pull request.
pub fn decide_merge(assessment: &PrMergeAssessment) -> (r: MergeDecision)
    ensures
        match r {
            MergeDecision::Merge => is_ready(*assessment),
            MergeDecision::Ask => !is_ready(*assessment) && assessment.repo_allows_merge,
            MergeDecision::Prevented(reason) => !assessment.repo_allows_merge && reason@
                == match opt_string(assessment.repo_block_reason) {
                Some(t) => t,
                None => "repository rules or GitHub merge state block merging"@,
            },
        },
{
    let a = assessment;
    if a.unresolved_comments == 0 && a.outstanding_reviews.len() == 0 && a.running_checks.len() == 0
        && a.failed_checks.len() == 0 && a.repo_allows_merge {
        MergeDecision::Merge
    } else if a.repo_allows_merge {
        MergeDecision::Ask
    } else {
        match &a.repo_block_reason {
            Some(t) => MergeDecision::Prevented(t.clone()),
            None => MergeDecision::Prevented(
                "repository rules or GitHub merge state block merging".to_owned(),
            ),
        }
    }
}

/// A draft, and a pull request that GitHub cannot merge, is never merged, not even on request.
pub proof fn law_blocked_pr_is_never_merged(s: PrStatusSummary, a: PrMergeAssessment)
    requires
        a.repo_allows_merge <==> block_reason(s) is None,
        s.is_draft || !same_word(s.mergeable@, "MERGEABLE"@) || !is_clean(s.merge_state_status@),
    ensures
        !is_ready(a) && !a.repo_allows_merge,
{
}

/// What is said where the user does not merge, or cannot.
pub fn merge_refused(number: u64, prevented: Option<&str>) -> (r: String)
    ensures
        r@ == match opt_text(prevented) {
            Some(reason) => "Merge prevented for PR #"@ + dec(number as nat) + ": "@ + reason,
            None => "Merge cancelled: outstanding reviews or checks remain for PR #"@ + dec(
                number as nat,
            ),
        },
{
    let n = decimal(number);
    match prevented {
        Some(reason) => cat4("Merge prevented for PR #", n.as_str(), ": ", reason),
        None => cat2("Merge cancelled: outstanding reviews or checks remain for PR #", n.as_str()),
    }
}

/// What came of a merge.
#[derive(Debug)]
pub enum MergeOutcome {
    Merged,
    /// GitHub has it in that state.
    Pending(String),
}

/// Reads the state of a pull request after the request to merge it.
pub fn merge_outcome(pr_state: &str) -> (r: MergeOutcome)
    ensures
        match r {
            MergeOutcome::Merged => same_word(pr_state@, "MERGED"@),
            MergeOutcome::Pending(s) => !same_word(pr_state@, "MERGED"@) && s@ == pr_state@,
        },
{
    if is_same_word(pr_state, "MERGED") {
        MergeOutcome::Merged
    } else {
        MergeOutcome::Pending(pr_state.to_owned())
    }
}

/// What follows a merge.
#[derive(Debug, Clone, Copy, PartialEq, Eq, Structural)]
pub enum CascadeStep {
    /// The pull requests on the merged branch get its base.
    Retarget,
    /// The branches on the merged branch are restacked.
    Restack,
    /// The merged branch is deleted on its remote.
    DeleteRemote,
    /// The result of the restack, where there was one, is that of the command.
    Done,
}

/// The step behind one that has been tried, whatever came of it.
pub open spec fn cascade_after(
    done: Option<CascadeStep>,
    no_cascade: bool,
    no_delete: bool,
) -> CascadeStep {
    match done {
        None => CascadeStep::Retarget,
        Some(CascadeStep::Retarget) => if no_cascade {
            CascadeStep::Done
        } else {
            CascadeStep::Restack
        },
        Some(CascadeStep::Restack) => if no_delete {
            CascadeStep::Done
        } else {
            CascadeStep::DeleteRemote
        },
        Some(_) => CascadeStep::Done,
    }
}

/// The step behind one that has been tried, whatever came of it.
pub fn next_cascade_step(done: Option<CascadeStep>, args: &PrMergeArgs) -> (r: CascadeStep)
    ensures
        r == cascade_after(done, args.no_cascade, args.no_delete),
{
    match done {
        None => CascadeStep::Retarget,
        Some(CascadeStep::Retarget) => if args.no_cascade {
            CascadeStep::Done
        } else {
            CascadeStep::Restack
        },
        Some(CascadeStep::Restack) => if args.no_delete {
            CascadeStep::Done
        } else {
            CascadeStep::DeleteRemote
        },
        Some(_) => CascadeStep::Done,
    }
}

/// Dependent pull requests are retargeted before anything else; the branch on the remote goes only
/// after the restack has been tried, and stays where nothing is to cascade or be deleted.
pub proof fn law_remote_branch_goes_last(done: Option<CascadeStep>, no_cascade: bool, no_delete: bool)
    ensures
        cascade_after(None, no_cascade, no_delete) == CascadeStep::Retarget,
        cascade_after(done, no_cascade, no_delete) == CascadeStep::DeleteRemote ==> done == Some(
            CascadeStep::Restack,
        ) && !no_delete,
        cascade_after(done, no_cascade, no_delete) == CascadeStep::Restack ==> done == Some(
            CascadeStep::Retarget,
        ) && !no_cascade,
{
}

/// A pull request of the stack.
#[derive(Debug)]
pub struct StackPr {
    pub branch_name: String,
    pub number: u64,
}

/// The pull requests on the merged branch.
pub open spec fn dependents(
    prs: Seq<StackPr>,
    bases: Map<Seq<char>, Seq<char>>,
    merged: Seq<char>,
) -> Seq<(u64, Seq<char>)>
    decreases prs.len(),
{
    if prs.len() == 0 {
        Seq::empty()
    } else {
        let rest = dependents(prs.drop_last(), bases, merged);
        let p = prs.last();
        if bases.contains_key(p.branch_name@) && bases[p.branch_name@] == merged {
            rest.push((p.number, p.branch_name@))
        } else {
            rest
        }
    }
}

pub open spec fn numbered(v: Seq<(u64, String)>) -> Seq<(u64, Seq<char>)> {
    Seq::new(v.len(), |i: int| (v[i].0, v[i].1@))
}

/// The pull requests that stood on the merged branch, and the base that they get: that of the merged
/// branch, without a remote in front of it. `upstream_id` is the upstream's tip.
pub fn retarget_child_pr_bases(
    graph: &CommitGraph,
    upstream_id: &str,
    upstream_name: &str,
    branches_with_upstream: &Vec<(StackBranch, String)>,
    all_stack_prs: &Vec<StackPr>,
    merged_branch_name: &str,
    remotes: &Vec<String>,
) -> (r: (String, Vec<(u64, String)>))
    ensures
        ({
            let bases = base_map(
                graph@,
                first_views(branches_with_upstream@),
                upstream_id@,
                upstream_name@,
                branches_with_upstream@.len() as int,
            );
            &&& r.0@ == short_base(
                if bases.contains_key(merged_branch_name@) {
                    bases[merged_branch_name@]
                } else {
                    upstream_name@
                },
                strs(remotes@),
            )
            &&& numbered(r.1@) == dependents(all_stack_prs@, bases, merged_branch_name@)
        }),
{
    let base_of = compute_base_map(graph, branches_with_upstream, upstream_id, upstream_name);
    let ghost bases = text_map(base_of@);
    assert(bases.contains_key(merged_branch_name@) == base_of@.contains_key(merged_branch_name@));
    let new_base = match base_of.get(merged_branch_name) {
        Some(b) => base_short_name(b.as_str(), remotes),
        None => base_short_name(upstream_name, remotes),
    };
    let mut out: Vec<(u64, String)> = Vec::new();
    let mut i: usize = 0;
    assert(numbered(out@) =~= Seq::<(u64, Seq<char>)>::empty());
    while i < all_stack_prs.len()
        invariant
            i <= all_stack_prs@.len(),
            bases == text_map(base_of@),
            numbered(out@) == dependents(
                all_stack_prs@.take(i as int),
                bases,
                merged_branch_name@,
            ),
        decreases all_stack_prs@.len() - i,
    {
        let p = &all_stack_prs[i];
        proof {
            assert(all_stack_prs@.take(i + 1).drop_last() =~= all_stack_prs@.take(i as int));
            assert(bases.contains_key(p.branch_name@) == base_of@.contains_key(p.branch_name@));
        }
        let on_it = match base_of.get(p.branch_name.as_str()) {
            Some(b) => same(b.as_str(), merged_branch_name),
            None => false,
        };
        if on_it {
            let ghost before = out@;
            out.push((p.number, p.branch_name.clone()));
            assert(numbered(out@) =~= numbered(before).push((p.number, p.branch_name@)));
        }
        i += 1;
    }
    assert(all_stack_prs@.take(all_stack_prs@.len() as int) =~= all_stack_prs@);
    (new_base, out)
}

/// The remote and the branch of an upstream such as `origin/team/feature`.
pub open spec fn remote_and_branch(upstream: Seq<char>) -> Option<(Seq<char>, Seq<char>)> {
    match split_once_spec(upstream, '/') {
        Some((remote, branch)) => if remote.len() > 0 && branch.len() > 0 {
            Some((remote, branch))
        } else {
            None
        },
        None => None,
    }
}

/// Splits an upstream such as `origin/team/feature` behind the remote.
pub fn parse_remote_and_branch(upstream: &str) -> (r: Option<(String, String)>)
    ensures
        remote_and_branch(upstream@) == match r {
            Some((remote, branch)) => Some((remote@, branch@)),
            None => None,
        },
{
    match split_once(upstream, '/') {
        Some((remote, branch)) => if !remote.as_str().is_empty() && !branch.as_str().is_empty() {
            Some((remote, branch))
        } else {
            None
        },
        None => None,
    }
}

/// What becomes of the merged branch on its remote.
#[derive(Debug)]
pub enum RemoteDeletion {
    /// The branch tracks nothing.
    NoUpstream,
    /// What it tracks names no remote.
    Unreadable(String),
    /// The base branches are not known, for that reason; the branch stays.
    BasesUnknown(String, String, String),
    /// It tracks a base branch, which stays.
    IsBase(String, String),
    /// The branch of that remote is deleted.
    Delete(String, String),
}

/// The upstream of the first branch of that name.
pub open spec fn upstream_of(v: Seq<(String, String)>, name: Seq<char>) -> Option<Seq<char>>
    decreases v.len(),
{
    if v.len() == 0 {
        None
    } else if v[0].0@ == name {
        Some(v[0].1@)
    } else {
        upstream_of(v.drop_first(), name)
    }
}

fn find_upstream_of(v: &Vec<(String, String)>, name: &str) -> (r: Option<String>)
    ensures
        opt_string(r) == upstream_of(v@, name@),
{
    let mut i: usize = 0;
    assert(v@.skip(0) =~= v@);
    while i < v.len()
        invariant
            i <= v@.len(),
            upstream_of(v@, name@) == upstream_of(v@.skip(i as int), name@),
        decreases v@.len() - i,
    {
        assert(v@.skip(i as int)[0] == v@[i as int]);
        assert(v@.skip(i as int).drop_first() =~= v@.skip(i + 1));
        if same(v[i].0.as_str(), name) {
            return Some(v[i].1.clone());
        }
        i += 1;
    }
    None
}

/// Decides whether the merged branch is deleted on its remote: only where it tracks a branch of its
/// own. `protected` are the base branches, or why they are not known.
pub fn delete_merged_remote_branch(
    branches_with_upstream: &Vec<(String, String)>,
    merged_branch_name: &str,
    protected: &Result<Vec<String>, String>,
) -> (r: RemoteDeletion)
    ensures
        match upstream_of(branches_with_upstream@, merged_branch_name@) {
            None => r is NoUpstream,
            Some(upstream) => match remote_and_branch(upstream) {
                None => r matches RemoteDeletion::Unreadable(u) && u@ == upstream,
                Some((remote, branch)) => match *protected {
                    Err(why) => r matches RemoteDeletion::BasesUnknown(a, b, c) && a@ == remote
                        && b@ == branch && c@ == why@,
                    Ok(bases) => if is_foreign_base(merged_branch_name@, branch, strs(bases@)) {
                        r matches RemoteDeletion::IsBase(a, b) && a@ == remote && b@ == branch
                    } else {
                        r matches RemoteDeletion::Delete(a, b) && a@ == remote && b@ == branch
                    },
                },
            },
        },
{
    let upstream = match find_upstream_of(branches_with_upstream, merged_branch_name) {
        Some(u) => u,
        None => return RemoteDeletion::NoUpstream,
    };
    let (remote, branch) = match parse_remote_and_branch(upstream.as_str()) {
        Some(p) => p,
        None => return RemoteDeletion::Unreadable(upstream),
    };
    match protected {
        Err(why) => RemoteDeletion::BasesUnknown(remote, branch, why.clone()),
        Ok(bases) => match foreign_base_target(merged_branch_name, branch.as_str(), bases) {
            Some(base) => RemoteDeletion::IsBase(remote, base),
            None => RemoteDeletion::Delete(remote, branch),
        },
    }
}

/// What is said where the merged branch stays on its remote.
pub fn deletion_warning(deletion: &RemoteDeletion, merged_branch_name: &str) -> (r: Option<String>)
    ensures
        opt_string(r) == match *deletion {
            RemoteDeletion::Unreadable(u) => Some(
                "Warning: could not parse remote from upstream '"@ + u@
                    + "'; skipping remote branch delete."@,
            ),
            RemoteDeletion::BasesUnknown(remote, branch, why) => Some(
                "Warning: not deleting remote branch '"@ + (remote@ + "/"@ + branch@)
                    + "': could not determine the repository's base branches ("@ + why@ + ")."@,
            ),
            RemoteDeletion::IsBase(remote, base) => Some(
                "Warning: not deleting remote branch '"@ + (remote@ + "/"@ + base@) + "': branch '"@
                    + merged_branch_name@ + ("' tracks the base branch '"@ + base@
                    + "', so this would delete it on the remote. Repoint it with 'git branch --unset-upstream "@
                    + merged_branch_name@ + "'."@),
            ),
            _ => None,
        },
{
    match deletion {
        RemoteDeletion::Unreadable(u) => Some(
            cat3(
                "Warning: could not parse remote from upstream '",
                u.as_str(),
                "'; skipping remote branch delete.",
            ),
        ),
        RemoteDeletion::BasesUnknown(remote, branch, why) => {
            let place = cat3(remote.as_str(), "/", branch.as_str());
            Some(
                cat5(
                    "Warning: not deleting remote branch '",
                    place.as_str(),
                    "': could not determine the repository's base branches (",
                    why.as_str(),
                    ").",
                ),
            )
        },
        RemoteDeletion::IsBase(remote, base) => {
            let place = cat3(remote.as_str(), "/", base.as_str());
            let end = cat5(
                "' tracks the base branch '",
                base.as_str(),
                "', so this would delete it on the remote. Repoint it with 'git branch --unset-upstream ",
                merged_branch_name,
                "'.",
            );
            Some(
                cat5(
                    "Warning: not deleting remote branch '",
                    place.as_str(),
                    "': branch '",
                    merged_branch_name,
                    end.as_str(),
                ),
            )
        },
        _ => None,
    }
}

} // verus!
