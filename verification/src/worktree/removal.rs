//! Removing worktrees, one or all that are no longer needed, and the branches with them.

use crate::text::{
    cat2, cat3, cat4, cat5, copy_opt, dec, decimal, is_text, join, join_of, opt_string, opt_text,
    pad, padded, push_text, same, strs, to_chars,
};
use crate::worktree::cleanup::CleanupCandidate;
use crate::worktree::config::WorktreeConfig;
use crate::worktree::git::LiveWorktree;
use crate::worktree::path_resolver::{normalize_path, normalized, TemplateError};
use crate::worktree::roles::{role_for_path, role_of, ResolvedTarget};
use crate::worktree::WorktreeRole;
use vstd::prelude::*;

verus! {

/// A worktree that was removed.
#[derive(Debug, Clone, PartialEq, Eq)]
pub struct RemoveResult {
    /// The name of its role, or a word for none.
    pub role: String,
    pub branch: String,
    pub path: String,
    pub branch_deleted: bool,
    /// The commit of the branch that was deleted with it.
    pub deleted_branch_tip: Option<String>,
}

/// What a cleanup did.
#[derive(Debug)]
pub struct CleanupSummary {
    pub candidates: usize,
    pub removed: Vec<RemoveResult>,
    pub skipped: usize,
}

impl Default for CleanupSummary {
    fn default() -> (r: CleanupSummary)
        ensures
            r.candidates == 0,
            r.removed@.len() == 0,
            r.skipped == 0,
    {
        CleanupSummary { candidates: 0, removed: Vec::new(), skipped: 0 }
    }
}

/// Why a worktree is not removed.
#[derive(Debug)]
pub enum RemoveError {
    Template(TemplateError),
    /// There are changes in it.
    Dirty(String, String, String),
    /// Its branch is the trunk.
    Trunk(String),
    /// Its branch is checked out elsewhere.
    CheckedOutElsewhere(String, String),
}

impl RemoveError {
    pub open spec fn text(self) -> Seq<char> {
        match self {
            RemoveError::Template(e) => "Temp worktree path template '"@ + e.0@
                + "' must include '{branch}'."@,
            RemoveError::Dirty(path, label, branch) => ("Worktree '"@ + path@ + "' for "@) + (label@
                + " '"@ + branch@)
                + "' has uncommitted changes. Re-run with --force to remove it."@,
            RemoveError::Trunk(branch) => "Refusing to delete the trunk branch '"@ + branch@ + "'."@,
            RemoveError::CheckedOutElsewhere(branch, path) => "Branch '"@ + branch@
                + "' is checked out in another worktree at '"@ + path@
                + "'. Remove or switch that worktree before deleting the branch."@,
        }
    }

    pub fn message(&self) -> (r: String)
        ensures
            r@ == self.text(),
    {
        match self {
            RemoveError::Template(e) => e.message(),
            RemoveError::Dirty(path, label, branch) => {
                let a = cat3("Worktree '", path.as_str(), "' for ");
                let b = cat3(label.as_str(), " '", branch.as_str());
                cat3(
                    a.as_str(),
                    b.as_str(),
                    "' has uncommitted changes. Re-run with --force to remove it.",
                )
            },
            RemoveError::Trunk(branch) => cat3(
                "Refusing to delete the trunk branch '",
                branch.as_str(),
                "'.",
            ),
            RemoveError::CheckedOutElsewhere(branch, path) => cat5(
                "Branch '",
                branch.as_str(),
                "' is checked out in another worktree at '",
                path.as_str(),
                "'. Remove or switch that worktree before deleting the branch.",
            ),
        }
    }
}

/// The name of a role, or a word for none.
pub open spec fn label_of(role: Option<WorktreeRole>) -> Seq<char> {
    match role {
        Some(x) => x.text(),
        None => "plain"@,
    }
}

/// The name of the role of a path.
pub fn role_label_for_path(config: &WorktreeConfig, path: &str) -> (r: Result<String, TemplateError>)
    ensures
        match role_of(*config, normalized(path@)) {
            Some(role) => r matches Ok(s) && s@ == label_of(role),
            None => r matches Err(e) && e.0@ == config.temp.path_template@,
        },
{
    match role_for_path(config, normalize_path(path).as_str()) {
        Ok(Some(role)) => Ok(role.as_str().to_owned()),
        Ok(None) => Ok("plain".to_owned()),
        Err(e) => Err(e),
    }
}

/// The worktree is on the branch and on another path.
pub open spec fn is_other_on(w: LiveWorktree, branch: Seq<char>, path: Seq<char>) -> bool {
    opt_string(w.branch) == Some(branch) && normalized(w.path@) != normalized(path)
}

/// The first worktree on the branch on another path, or the number of worktrees.
pub open spec fn index_other(live: Seq<LiveWorktree>, branch: Seq<char>, path: Seq<char>) -> int
    decreases live.len(),
{
    if live.len() == 0 || is_other_on(live[0], branch, path) {
        0
    } else {
        1 + index_other(live.drop_first(), branch, path)
    }
}

/// Finds a worktree on the branch other than the one on the path.
pub fn other_worktree_with_branch(
    live: &Vec<LiveWorktree>,
    branch: &str,
    excluding_path: &str,
) -> (r: Option<usize>)
    ensures
        match r {
            Some(i) => i == index_other(live@, branch@, excluding_path@) && i < live@.len(),
            None => index_other(live@, branch@, excluding_path@) == live@.len(),
        },
{
    let excluded = normalize_path(excluding_path);
    let mut i: usize = 0;
    assert(live@.skip(0) =~= live@);
    while i < live.len()
        invariant
            i <= live@.len(),
            excluded@ == normalized(excluding_path@),
            index_other(live@, branch@, excluding_path@) == i + index_other(
                live@.skip(i as int),
                branch@,
                excluding_path@,
            ),
        decreases live@.len() - i,
    {
        assert(live@.skip(i as int)[0] == live@[i as int]);
        assert(live@.skip(i as int).drop_first() =~= live@.skip(i + 1));
        if is_text(&live[i].branch, branch) && !same(
            live[i].normalized_path().as_str(),
            excluded.as_str(),
        ) {
            return Some(i);
        }
        i += 1;
    }
    None
}

/// What is done about a branch that goes with its worktree.
#[derive(Debug, Clone, PartialEq, Eq)]
pub enum CrossWorktreeBranchDeleteAction {
    Proceed,
    /// It is checked out elsewhere and stays.
    Skip { other_path: String },
    /// It is checked out elsewhere, and its deletion was asked for.
    Refuse { other_path: String },
}

/// What is done about a branch that goes with its worktree: one that is checked out elsewhere is
/// not deleted.
pub fn resolve_cross_worktree_branch_delete(
    live: &Vec<LiveWorktree>,
    branch: &str,
    path: &str,
    explicit_branch_delete: bool,
) -> (r: CrossWorktreeBranchDeleteAction)
    ensures
        ({
            let at = index_other(live@, branch@, path@);
            match r {
                CrossWorktreeBranchDeleteAction::Proceed => at == live@.len(),
                CrossWorktreeBranchDeleteAction::Skip { other_path } => at < live@.len()
                    && !explicit_branch_delete && other_path@ == live@[at].path@,
                CrossWorktreeBranchDeleteAction::Refuse { other_path } => at < live@.len()
                    && explicit_branch_delete && other_path@ == live@[at].path@,
            }
        }),
{
    match other_worktree_with_branch(live, branch, path) {
        None => CrossWorktreeBranchDeleteAction::Proceed,
        Some(i) => {
            let other_path = live[i].path.clone();
            if explicit_branch_delete {
                CrossWorktreeBranchDeleteAction::Refuse { other_path }
            } else {
                CrossWorktreeBranchDeleteAction::Skip { other_path }
            }
        },
    }
}

/// The main and the review worktree are there to stay.
pub fn is_persistent_worktree_role(role: Option<WorktreeRole>) -> (r: bool)
    ensures
        r == (role == Some(WorktreeRole::Main) || role == Some(WorktreeRole::Review)),
{
    match role {
        Some(WorktreeRole::Main) => true,
        Some(WorktreeRole::Review) => true,
        _ => false,
    }
}

/// A merged branch goes with its worktree without being asked for: not the trunk, and not from the
/// main or the review worktree.
pub open spec fn auto_deletes(
    config: WorktreeConfig,
    branch: Seq<char>,
    role: Option<WorktreeRole>,
) -> bool {
    &&& config.temp.delete_merged
    &&& branch != config.trunk@
    &&& role != Some(WorktreeRole::Main)
    &&& role != Some(WorktreeRole::Review)
}

/// Whether a merged branch would go with its worktree.
pub fn auto_delete_allowed(config: &WorktreeConfig, branch: &str, path: &str) -> (r: Result<
    bool,
    TemplateError,
>)
    ensures
        match role_of(*config, normalized(path@)) {
            Some(role) => r matches Ok(yes) && yes == auto_deletes(*config, branch@, role),
            None => r matches Err(e) && e.0@ == config.temp.path_template@,
        },
{
    match role_for_path(config, normalize_path(path).as_str()) {
        Ok(role) => Ok(
            config.temp.delete_merged && !same(branch, config.trunk.as_str())
                && !is_persistent_worktree_role(role),
        ),
        Err(e) => Err(e),
    }
}

/// What removing a worktree involves.
#[derive(Debug)]
pub struct RemovalPlan {
    /// The name of its role.
    pub label: String,
    /// Its branch is deleted with it.
    pub delete_branch: bool,
    /// The worktree because of which a branch that would be deleted stays.
    pub blocked_by: Option<String>,
}

/// Whether the branch is to be deleted, before other worktrees are looked at.
pub open spec fn wants_branch_gone(
    config: WorktreeConfig,
    branch: Seq<char>,
    role: Option<WorktreeRole>,
    keep_branch: bool,
    with_branch: bool,
    merged: bool,
) -> bool {
    !keep_branch && (with_branch || (auto_deletes(config, branch, role) && merged))
}

/// Settles what removing a worktree involves. `merged` says whether its branch is merged into the
/// trunk, and counts only where a merged branch would go with it.
pub fn remove_target(
    config: &WorktreeConfig,
    live: &Vec<LiveWorktree>,
    resolved: &ResolvedTarget,
    dirty: bool,
    force: bool,
    keep_branch: bool,
    with_branch: bool,
    merged: bool,
) -> (r: Result<RemovalPlan, RemoveError>)
    ensures
        ({
            let branch = resolved.branch@;
            let path = resolved.path@;
            let at = index_other(live@, branch, path);
            match role_of(*config, normalized(path)) {
                None => r matches Err(RemoveError::Template(e)) && e.0@
                    == config.temp.path_template@,
                Some(role) => {
                    let wanted = wants_branch_gone(
                        *config,
                        branch,
                        role,
                        keep_branch,
                        with_branch,
                        merged,
                    );
                    if dirty && !force {
                        r matches Err(RemoveError::Dirty(p, l, b)) && p@ == path && l@ == label_of(
                            role,
                        ) && b@ == branch
                    } else if !keep_branch && with_branch && branch == config.trunk@ {
                        r matches Err(RemoveError::Trunk(b)) && b@ == branch
                    } else if wanted && with_branch && at < live@.len() {
                        r matches Err(RemoveError::CheckedOutElsewhere(b, p)) && b@ == branch && p@
                            == live@[at].path@
                    } else {
                        r matches Ok(plan) && plan.label@ == label_of(role) && plan.delete_branch
                            == (wanted && at == live@.len()) && opt_string(plan.blocked_by) == if wanted
                            && at < live@.len() {
                            Some(live@[at].path@)
                        } else {
                            None
                        }
                    }
                },
            }
        }),
{
    let branch = resolved.branch.as_str();
    let path = resolved.path.as_str();
    let label = match role_label_for_path(config, path) {
        Ok(l) => l,
        Err(e) => return Err(RemoveError::Template(e)),
    };
    if dirty && !force {
        return Err(
            RemoveError::Dirty(resolved.path.clone(), label, resolved.branch.clone()),
        );
    }
    if !keep_branch && with_branch && same(branch, config.trunk.as_str()) {
        return Err(RemoveError::Trunk(resolved.branch.clone()));
    }
    let wanted = if keep_branch {
        false
    } else if with_branch {
        true
    } else {
        match auto_delete_allowed(config, branch, path) {
            Ok(allowed) => allowed && merged,
            Err(e) => return Err(RemoveError::Template(e)),
        }
    };
    proof {
        lemma_index_other(live@, branch@, path@);
    }
    if !wanted {
        return Ok(RemovalPlan { label, delete_branch: false, blocked_by: None });
    }
    match resolve_cross_worktree_branch_delete(live, branch, path, with_branch) {
        CrossWorktreeBranchDeleteAction::Proceed => Ok(
            RemovalPlan { label, delete_branch: true, blocked_by: None },
        ),
        CrossWorktreeBranchDeleteAction::Refuse { other_path } => Err(
            RemoveError::CheckedOutElsewhere(resolved.branch.clone(), other_path),
        ),
        CrossWorktreeBranchDeleteAction::Skip { other_path } => Ok(
            RemovalPlan { label, delete_branch: false, blocked_by: Some(other_path) },
        ),
    }
}

proof fn lemma_index_other(live: Seq<LiveWorktree>, branch: Seq<char>, path: Seq<char>)
    ensures
        0 <= index_other(live, branch, path) <= live.len(),
    decreases live.len(),
{
    if live.len() > 0 && !is_other_on(live[0], branch, path) {
        lemma_index_other(live.drop_first(), branch, path);
    }
}

/// The branch of the trunk never goes with a worktree, and neither does the branch of the main or
/// the review worktree unless that is asked for.
pub proof fn law_removal_spares_branches(
    config: WorktreeConfig,
    branch: Seq<char>,
    role: Option<WorktreeRole>,
    keep_branch: bool,
    merged: bool,
)
    requires
        branch == config.trunk@ || role == Some(WorktreeRole::Main) || role == Some(
            WorktreeRole::Review,
        ) || keep_branch || !merged,
    ensures
        !wants_branch_gone(config, branch, role, keep_branch, false, merged),
{
}

/// What is told of a branch that stays because it is checked out elsewhere.
pub fn skipped_branch_note(branch: &str, other_path: &str) -> (r: String)
    ensures
        r@ == "Skipping branch delete for '"@ + branch@
            + "' (checked out in another worktree at '"@ + other_path@ + "')."@,
{
    cat5(
        "Skipping branch delete for '",
        branch,
        "' (checked out in another worktree at '",
        other_path,
        "').",
    )
}

/// The worktree in a question.
pub open spec fn worktree_words(label: Seq<char>, branch: Seq<char>, path: Seq<char>) -> Seq<char> {
    (label + " worktree '"@ + branch) + ("' at '"@ + path + "'"@)
}

/// The question before a worktree is removed.
pub fn removal_question(
    label: &str,
    branch: &str,
    path: &str,
    dirty: bool,
    deletes_branch: bool,
) -> (r: String)
    ensures
        ({
            let what = worktree_words(label@, branch@, path@);
            r@ == if deletes_branch && dirty {
                what + " has uncommitted changes. Remove the worktree and delete branch '"@ + branch@
                    + "' anyway?"@
            } else if deletes_branch {
                "Remove "@ + what + " and delete branch '"@ + branch@ + "'?"@
            } else if dirty {
                what + " has uncommitted changes. Remove it anyway?"@
            } else {
                "Remove "@ + what + "?"@
            }
        }),
{
    let a = cat3(label, " worktree '", branch);
    let b = cat3("' at '", path, "'");
    let what = cat2(a.as_str(), b.as_str());
    if deletes_branch {
        if dirty {
            cat4(
                what.as_str(),
                " has uncommitted changes. Remove the worktree and delete branch '",
                branch,
                "' anyway?",
            )
        } else {
            cat5("Remove ", what.as_str(), " and delete branch '", branch, "'?")
        }
    } else if dirty {
        cat2(what.as_str(), " has uncommitted changes. Remove it anyway?")
    } else {
        cat3("Remove ", what.as_str(), "?")
    }
}

/// How the deletion of a branch went.
#[derive(Debug, Clone, Copy, PartialEq, Eq, Structural)]
pub enum DeleteOutcome {
    Deleted,
    /// The branch moved or went before it could be deleted.
    Moved,
    Failed,
}

/// What follows the deletion of a branch.
#[derive(Debug, Clone, Copy, PartialEq, Eq, Structural)]
pub enum AfterDelete {
    /// The branch is gone.
    Gone,
    /// It is deleted whatever its commit is.
    ForceIt,
    /// It stays, and the user is told why.
    Stays,
}

/// What follows the deletion of a branch: one that moved is deleted only where that is forced.
pub fn delete_branch_after_removal(outcome: DeleteOutcome, force: bool) -> (r: AfterDelete)
    ensures
        r == match outcome {
            DeleteOutcome::Deleted => AfterDelete::Gone,
            DeleteOutcome::Moved => if force {
                AfterDelete::ForceIt
            } else {
                AfterDelete::Stays
            },
            DeleteOutcome::Failed => AfterDelete::Stays,
        },
{
    match outcome {
        DeleteOutcome::Deleted => AfterDelete::Gone,
        DeleteOutcome::Moved => if force {
            AfterDelete::ForceIt
        } else {
            AfterDelete::Stays
        },
        DeleteOutcome::Failed => AfterDelete::Stays,
    }
}

/// The record of a worktree that was removed. `tip` is the commit that its branch had, where the
/// branch was to be deleted.
pub fn remove_result(
    label: &str,
    branch: &str,
    path: &str,
    branch_deleted: bool,
    tip: &Option<String>,
) -> (r: RemoveResult)
    ensures
        r.role@ == label@,
        r.branch@ == branch@,
        r.path@ == path@,
        r.branch_deleted == (branch_deleted && *tip is Some),
        opt_string(r.deleted_branch_tip) == if branch_deleted {
            opt_string(*tip)
        } else {
            None
        },
{
    RemoveResult {
        role: label.to_owned(),
        branch: branch.to_owned(),
        path: path.to_owned(),
        branch_deleted: branch_deleted && tip.is_some(),
        deleted_branch_tip: if branch_deleted {
            copy_opt(tip)
        } else {
            None
        },
    }
}

/// The first twelve characters.
pub open spec fn first_twelve(s: Seq<char>) -> Seq<char> {
    if s.len() < 12 {
        s
    } else {
        s.take(12)
    }
}

/// What is told of a worktree that was removed.
pub fn removed_message(result: &RemoveResult) -> (r: String)
    ensures
        r@ == ("Removed "@ + result.role@ + " worktree '"@ + result.branch@ + "' ("@) + (
        result.path@ + ")"@) + (if result.branch_deleted {
            match result.deleted_branch_tip {
                Some(tip) => " and deleted branch (was "@ + first_twelve(tip@) + ")"@,
                None => " and deleted branch"@,
            }
        } else {
            ""@
        }),
{
    let a = cat5("Removed ", result.role.as_str(), " worktree '", result.branch.as_str(), "' (");
    let b = cat2(result.path.as_str(), ")");
    let c = if result.branch_deleted {
        match &result.deleted_branch_tip {
            Some(tip) => {
                let v = to_chars(tip.as_str());
                let n: usize = if v.len() < 12 {
                    v.len()
                } else {
                    12
                };
                let short = crate::text::from_range(&v, 0, n);
                assert(short@ =~= first_twelve(tip@));
                cat3(" and deleted branch (was ", short.as_str(), ")")
            },
            None => " and deleted branch".to_owned(),
        }
    } else {
        "".to_owned()
    };
    cat3(a.as_str(), b.as_str(), c.as_str())
}

/// The candidates whose branch is checked out in another worktree, among the first `n`.
pub open spec fn conflicts(
    live: Seq<LiveWorktree>,
    candidates: Seq<(CleanupCandidate, bool)>,
    n: int,
) -> nat
    decreases n,
{
    if n <= 0 {
        0
    } else {
        let c = candidates[n - 1].0;
        conflicts(live, candidates, n - 1) + if index_other(live, c.branch@, c.path@) < live.len() {
            1nat
        } else {
            0nat
        }
    }
}

/// Counts the candidates whose branch is checked out in another worktree.
pub fn count_cross_worktree_branch_conflicts(
    live: &Vec<LiveWorktree>,
    candidates: &Vec<(CleanupCandidate, bool)>,
) -> (r: usize)
    ensures
        r == conflicts(live@, candidates@, candidates@.len() as int),
        r <= candidates@.len(),
{
    let mut count: usize = 0;
    let mut i: usize = 0;
    while i < candidates.len()
        invariant
            i <= candidates@.len(),
            count <= i,
            count == conflicts(live@, candidates@, i as int),
        decreases candidates@.len() - i,
    {
        let c = &candidates[i].0;
        proof {
            lemma_index_other(live@, c.branch@, c.path@);
        }
        if other_worktree_with_branch(live, c.branch.as_str(), c.path.as_str()).is_some() {
            count += 1;
        }
        i += 1;
    }
    count
}

/// The candidates with changes, among the first `n`.
pub open spec fn dirty_ones(candidates: Seq<(CleanupCandidate, bool)>, n: int) -> nat
    decreases n,
{
    if n <= 0 {
        0
    } else {
        dirty_ones(candidates, n - 1) + if candidates[n - 1].1 {
            1nat
        } else {
            0nat
        }
    }
}

/// Counts the candidates with changes.
pub fn count_dirty(candidates: &Vec<(CleanupCandidate, bool)>) -> (r: usize)
    ensures
        r == dirty_ones(candidates@, candidates@.len() as int),
        r <= candidates@.len(),
{
    let mut count: usize = 0;
    let mut i: usize = 0;
    while i < candidates.len()
        invariant
            i <= candidates@.len(),
            count <= i,
            count == dirty_ones(candidates@, i as int),
        decreases candidates@.len() - i,
    {
        if candidates[i].1 {
            count += 1;
        }
        i += 1;
    }
    count
}

/// What a cleanup is about to do.
pub open spec fn cleanup_words(total: nat, elsewhere: nat, keep_branch: bool) -> Seq<char> {
    if keep_branch {
        "Remove "@ + dec(total) + " temp worktree candidate(s)"@
    } else if elsewhere > 0 {
        "Remove "@ + dec(total)
            + " temp worktree candidate(s) and delete branches where possible ("@ + dec(elsewhere)
            + " checked out elsewhere)"@
    } else {
        "Remove "@ + dec(total) + " temp worktree candidate(s) and delete their branches"@
    }
}

/// The question before a cleanup.
pub fn cleanup_question(
    live: &Vec<LiveWorktree>,
    candidates: &Vec<(CleanupCandidate, bool)>,
    force: bool,
    keep_branch: bool,
) -> (r: String)
    ensures
        r@ == cleanup_asks(live@, candidates@, force, keep_branch),
{
    let total = decimal(candidates.len() as u64);
    let elsewhere = count_cross_worktree_branch_conflicts(live, candidates);
    let words = if keep_branch {
        cat3("Remove ", total.as_str(), " temp worktree candidate(s)")
    } else if elsewhere > 0 {
        cat5(
            "Remove ",
            total.as_str(),
            " temp worktree candidate(s) and delete branches where possible (",
            decimal(elsewhere as u64).as_str(),
            " checked out elsewhere)",
        )
    } else {
        cat3("Remove ", total.as_str(), " temp worktree candidate(s) and delete their branches")
    };
    let dirty = count_dirty(candidates);
    if dirty == 0 {
        cat2(words.as_str(), "?")
    } else if force {
        cat4(
            words.as_str(),
            "? ",
            decimal(dirty as u64).as_str(),
            " dirty candidate(s) will be removed.",
        )
    } else {
        cat4(
            words.as_str(),
            "? ",
            decimal(dirty as u64).as_str(),
            " dirty candidate(s) will be skipped without --force.",
        )
    }
}

/// What a cleanup does about one candidate.
#[derive(Debug, Clone, PartialEq, Eq)]
pub enum CleanupStep {
    /// It has changes and stays.
    SkipDirty,
    /// It goes, with its branch or without it; the last is the worktree because of which a branch
    /// stays.
    Remove(bool, Option<String>),
}

/// What a cleanup does about one candidate.
pub fn cleanup_temp_worktree(
    live: &Vec<LiveWorktree>,
    candidate: &CleanupCandidate,
    dirty: bool,
    force: bool,
    keep_branch: bool,
) -> (r: CleanupStep)
    ensures
        is_cleanup_step(r, live@, *candidate, dirty, force, keep_branch),
{
    if dirty && !force {
        return CleanupStep::SkipDirty;
    }
    if keep_branch {
        return CleanupStep::Remove(false, None);
    }
    proof {
        lemma_index_other(live@, candidate.branch@, candidate.path@);
    }
    match other_worktree_with_branch(live, candidate.branch.as_str(), candidate.path.as_str()) {
        None => CleanupStep::Remove(true, None),
        Some(i) => CleanupStep::Remove(false, Some(live[i].path.clone())),
    }
}

/// The step that is taken about a candidate.
pub open spec fn is_cleanup_step(
    step: CleanupStep,
    live: Seq<LiveWorktree>,
    candidate: CleanupCandidate,
    dirty: bool,
    force: bool,
    keep_branch: bool,
) -> bool {
    let at = index_other(live, candidate.branch@, candidate.path@);
    match step {
        CleanupStep::SkipDirty => dirty && !force,
        CleanupStep::Remove(delete_branch, blocked_by) => {
            &&& !dirty || force
            &&& delete_branch == (!keep_branch && at == live.len())
            &&& opt_string(blocked_by) == if !keep_branch && at < live.len() {
                Some(live[at].path@)
            } else {
                None
            }
        },
    }
}

/// What is told of a candidate before the question.
pub open spec fn candidate_line(branch: Seq<char>, path: Seq<char>, dirty: bool) -> Seq<char> {
    ("  temp "@ + padded(branch, 20) + " "@) + (padded("merged"@, 14) + " "@) + path + (if dirty {
        " [dirty]"@
    } else {
        ""@
    })
}

/// What a cleanup tells, asks and does.
#[derive(Debug)]
pub struct CleanupPlan {
    /// What is told first.
    pub lines: Vec<String>,
    pub question: String,
    /// What is done about each candidate once the question is answered with yes.
    pub steps: Vec<CleanupStep>,
}

/// The words of the question before a cleanup.
pub open spec fn cleanup_asks(
    live: Seq<LiveWorktree>,
    candidates: Seq<(CleanupCandidate, bool)>,
    force: bool,
    keep_branch: bool,
) -> Seq<char> {
    let n = candidates.len() as int;
    let words = cleanup_words(n as nat, conflicts(live, candidates, n), keep_branch);
    let dirty = dirty_ones(candidates, n);
    if dirty == 0 {
        words + "?"@
    } else if force {
        words + "? "@ + dec(dirty) + " dirty candidate(s) will be removed."@
    } else {
        words + "? "@ + dec(dirty) + " dirty candidate(s) will be skipped without --force."@
    }
}

/// Settles a cleanup: each candidate comes with whether there are changes in it. Nothing is told,
/// asked or done where there is no candidate.
pub fn cleanup_temp_worktrees(
    live: &Vec<LiveWorktree>,
    candidates: &Vec<(CleanupCandidate, bool)>,
    force: bool,
    keep_branch: bool,
) -> (r: Option<CleanupPlan>)
    ensures
        match r {
            None => candidates@.len() == 0,
            Some(plan) => {
                let n = candidates@.len();
                &&& n > 0
                &&& plan.question@ == cleanup_asks(live@, candidates@, force, keep_branch)
                &&& plan.lines@.len() == n + 1
                &&& plan.lines@[0]@ == "Cleanup candidates:"@
                &&& plan.steps@.len() == n
                &&& forall|i: int|
                    0 <= i < n ==> (#[trigger] plan.lines@[i + 1])@ == candidate_line(
                        candidates@[i].0.branch@,
                        candidates@[i].0.path@,
                        candidates@[i].1,
                    )
                &&& forall|i: int|
                    0 <= i < n ==> is_cleanup_step(
                        #[trigger] plan.steps@[i],
                        live@,
                        candidates@[i].0,
                        candidates@[i].1,
                        force,
                        keep_branch,
                    )
            },
        },
{
    if candidates.len() == 0 {
        return None;
    }
    let mut lines: Vec<String> = Vec::new();
    let mut steps: Vec<CleanupStep> = Vec::new();
    lines.push("Cleanup candidates:".to_owned());
    let mut i: usize = 0;
    while i < candidates.len()
        invariant
            i <= candidates@.len(),
            lines@.len() == i + 1,
            steps@.len() == i,
            lines@[0]@ == "Cleanup candidates:"@,
            forall|k: int|
                0 <= k < i ==> (#[trigger] lines@[k + 1])@ == candidate_line(
                    candidates@[k].0.branch@,
                    candidates@[k].0.path@,
                    candidates@[k].1,
                ),
            forall|k: int|
                0 <= k < i ==> is_cleanup_step(
                    #[trigger] steps@[k],
                    live@,
                    candidates@[k].0,
                    candidates@[k].1,
                    force,
                    keep_branch,
                ),
        decreases candidates@.len() - i,
    {
        let c = &candidates[i].0;
        let dirty = candidates[i].1;
        let a = cat3("  temp ", pad(c.branch.as_str(), 20).as_str(), " ");
        let b = cat2(pad("merged", 14).as_str(), " ");
        let end = if dirty {
            " [dirty]"
        } else {
            ""
        };
        lines.push(cat4(a.as_str(), b.as_str(), c.path.as_str(), end));
        steps.push(cleanup_temp_worktree(live, c, dirty, force, keep_branch));
        i += 1;
    }
    Some(
        CleanupPlan {
            lines,
            question: cleanup_question(live, candidates, force, keep_branch),
            steps,
        },
    )
}

/// A cleanup takes no worktree with changes unless it is forced to, and deletes no branch that it
/// was told to keep or that another worktree is on.
pub proof fn law_cleanup_takes_care(
    step: CleanupStep,
    live: Seq<LiveWorktree>,
    candidate: CleanupCandidate,
    dirty: bool,
    force: bool,
    keep_branch: bool,
    other: LiveWorktree,
)
    requires
        is_cleanup_step(step, live, candidate, dirty, force, keep_branch),
    ensures
        dirty && !force ==> step is SkipDirty,
        keep_branch ==> !(step matches CleanupStep::Remove(true, _)),
        live.contains(other) && is_other_on(other, candidate.branch@, candidate.path@) ==> !(
        step matches CleanupStep::Remove(true, _)),
{
    if live.contains(other) && is_other_on(other, candidate.branch@, candidate.path@) {
        lemma_other_is_found(live, candidate.branch@, candidate.path@, live.index_of(other));
    }
}

proof fn lemma_other_is_found(
    live: Seq<LiveWorktree>,
    branch: Seq<char>,
    path: Seq<char>,
    i: int,
)
    requires
        0 <= i < live.len(),
        is_other_on(live[i], branch, path),
    ensures
        index_other(live, branch, path) < live.len(),
    decreases live.len(),
{
    if !is_other_on(live[0], branch, path) {
        assert(live.drop_first()[i - 1] == live[i]);
        lemma_other_is_found(live.drop_first(), branch, path, i - 1);
    }
}

/// What is told of a candidate that stays.
pub fn skipped_dirty_note(branch: &str, path: &str) -> (r: String)
    ensures
        r@ == "Skipping dirty temp worktree '"@ + branch@ + "' at '"@ + path@
            + "'. Re-run with --force to remove it."@,
{
    cat5(
        "Skipping dirty temp worktree '",
        branch,
        "' at '",
        path,
        "'. Re-run with --force to remove it.",
    )
}

/// What a cleanup did.
pub fn cleanup_summary(removed: Vec<RemoveResult>, skipped: usize) -> (r: CleanupSummary)
    requires
        removed@.len() + skipped <= usize::MAX,
    ensures
        r.candidates == removed@.len() + skipped,
        r.removed == removed,
        r.skipped == skipped,
{
    CleanupSummary { candidates: removed.len() + skipped, removed, skipped }
}

/// The worktrees that were removed with their branches, among the first `n`.
pub open spec fn branches_gone(removed: Seq<RemoveResult>, n: int) -> nat
    decreases n,
{
    if n <= 0 {
        0
    } else {
        branches_gone(removed, n - 1) + if removed[n - 1].branch_deleted {
            1nat
        } else {
            0nat
        }
    }
}

/// What is told of a cleanup.
pub fn cleanup_message(summary: &CleanupSummary) -> (r: String)
    ensures
        ({
            let gone = branches_gone(summary.removed@, summary.removed@.len() as int);
            r@ == if summary.candidates == 0 {
                "No temp worktrees are eligible for cleanup."@
            } else {
                ("Cleanup complete: found "@ + dec(summary.candidates as nat)
                    + " temp worktree candidate(s), removed "@ + dec(summary.removed@.len())
                    + ", skipped "@) + (dec(summary.skipped as nat) + "."@) + (if gone > 0 {
                    " Deleted "@ + dec(gone) + " branch(es)."@
                } else {
                    ""@
                })
            }
        }),
{
    if summary.candidates == 0 {
        return "No temp worktrees are eligible for cleanup.".to_owned();
    }
    let mut gone: usize = 0;
    let mut i: usize = 0;
    while i < summary.removed.len()
        invariant
            i <= summary.removed@.len(),
            gone <= i,
            gone == branches_gone(summary.removed@, i as int),
        decreases summary.removed@.len() - i,
    {
        if summary.removed[i].branch_deleted {
            gone += 1;
        }
        i += 1;
    }
    let a = cat5(
        "Cleanup complete: found ",
        decimal(summary.candidates as u64).as_str(),
        " temp worktree candidate(s), removed ",
        decimal(summary.removed.len() as u64).as_str(),
        ", skipped ",
    );
    let b = cat2(decimal(summary.skipped as u64).as_str(), ".");
    let c = if gone > 0 {
        cat3(" Deleted ", decimal(gone as u64).as_str(), " branch(es).")
    } else {
        "".to_owned()
    };
    cat3(a.as_str(), b.as_str(), c.as_str())
}

/// What is told where not everything that was made could be taken back.
fn rollback_error(original: &str, problems: &Vec<String>) -> (r: String)
    ensures
        r@ == if problems@.len() == 0 {
            original@
        } else {
            original@ + "\nAdditionally:\n"@ + join_of(strs(problems@), "\n"@)
        },
{
    if problems.len() == 0 {
        original.to_owned()
    } else {
        cat3(original, "\nAdditionally:\n", join(problems, "\n").as_str())
    }
}

/// How the deletion of a branch that was just made went.
#[derive(Debug)]
pub enum BranchRollback {
    Deleted,
    /// It was not deleted. The branch is none where there is no such branch; it may be without a
    /// commit of its own.
    Kept(Option<Option<String>>),
    /// It was not deleted, and could not be looked at, with that error.
    Unseen(String),
    /// The deletion failed, with that error.
    Failed(String),
}

/// What is told of a branch that could not be taken back.
pub open spec fn branch_problem(branch: Seq<char>, made_at: Seq<char>, outcome: BranchRollback) -> Option<
    Seq<char>,
> {
    match outcome {
        BranchRollback::Deleted => None,
        BranchRollback::Kept(None) => None,
        BranchRollback::Kept(Some(Some(tip))) => Some(
            ("Left branch '"@ + branch
                + "' in place for manual cleanup because its tip moved from "@) + (made_at + " to "@
                + tip@ + "."@),
        ),
        BranchRollback::Kept(Some(None)) => Some(
            ("Left branch '"@ + branch
                + "' in place for manual cleanup because its current tip could not be resolved after it was created at "@)
                + (made_at + "."@),
        ),
        BranchRollback::Unseen(e) => Some(
            "Failed to inspect branch '"@ + branch + "' during rollback: "@ + e@,
        ),
        BranchRollback::Failed(e) => Some(
            ("Failed to roll back branch '"@ + branch + "' at "@) + (made_at + ": "@ + e@),
        ),
    }
}

fn find_branch_problem(branch: &str, made_at: &str, outcome: &BranchRollback) -> (r: Option<String>)
    ensures
        opt_string(r) == branch_problem(branch@, made_at@, *outcome),
{
    match outcome {
        BranchRollback::Deleted => None,
        BranchRollback::Kept(None) => None,
        BranchRollback::Kept(Some(Some(tip))) => {
            let a = cat3(
                "Left branch '",
                branch,
                "' in place for manual cleanup because its tip moved from ",
            );
            let b = cat4(made_at, " to ", tip.as_str(), ".");
            Some(cat2(a.as_str(), b.as_str()))
        },
        BranchRollback::Kept(Some(None)) => {
            let a = cat3(
                "Left branch '",
                branch,
                "' in place for manual cleanup because its current tip could not be resolved after it was created at ",
            );
            let b = cat2(made_at, ".");
            Some(cat2(a.as_str(), b.as_str()))
        },
        BranchRollback::Unseen(e) => Some(
            cat4("Failed to inspect branch '", branch, "' during rollback: ", e.as_str()),
        ),
        BranchRollback::Failed(e) => {
            let a = cat3("Failed to roll back branch '", branch, "' at ");
            let b = cat3(made_at, ": ", e.as_str());
            Some(cat2(a.as_str(), b.as_str()))
        },
    }
}

/// What could not be taken back of a worktree that was just made with its branch: the worktree
/// first, then the branch.
pub open spec fn rollback_problems(
    path: Seq<char>,
    branch: Seq<char>,
    made_at: Seq<char>,
    removal: Option<Seq<char>>,
    outcome: BranchRollback,
) -> Seq<Seq<char>> {
    (match removal {
        Some(e) => seq!["Failed to roll back worktree '"@ + path + "': "@ + e],
        None => Seq::empty(),
    }) + (match branch_problem(branch, made_at, outcome) {
        Some(p) => seq![p],
        None => Seq::empty(),
    })
}

/// The error of a worktree that could not be made with its branch, after both were taken back.
/// `removal` is the error of taking back the worktree, where there was one to take back and that
/// failed; `made_at` is the commit at which the branch was made.
pub fn rollback_created_temp_branch(
    path: &str,
    branch: &str,
    made_at: &str,
    removal: Option<&str>,
    outcome: &BranchRollback,
    original_err: &str,
) -> (r: String)
    ensures
        ({
            let problems = rollback_problems(
                path@,
                branch@,
                made_at@,
                opt_text(removal),
                *outcome,
            );
            r@ == if problems.len() == 0 {
                original_err@
            } else {
                original_err@ + "\nAdditionally:\n"@ + join_of(problems, "\n"@)
            }
        }),
{
    let mut problems: Vec<String> = Vec::new();
    if let Some(e) = removal {
        push_text(&mut problems, cat4("Failed to roll back worktree '", path, "': ", e));
    }
    if let Some(p) = find_branch_problem(branch, made_at, outcome) {
        push_text(&mut problems, p);
    }
    assert(strs(problems@) =~= rollback_problems(
        path@,
        branch@,
        made_at@,
        opt_text(removal),
        *outcome,
    ));
    rollback_error(original_err, &problems)
}

/// The error of hooks that failed in a worktree that was just made, after it was taken back.
pub fn rollback_created_worktree(path: &str, hook_err: &str, remove_err: Option<&str>) -> (r: String)
    ensures
        r@ == match remove_err {
            None => hook_err@,
            Some(e) => hook_err@ + "\nAdditionally failed to roll back worktree '"@ + path@ + "': "@
                + e@,
        },
{
    match remove_err {
        None => hook_err.to_owned(),
        Some(e) => cat5(
            hook_err,
            "\nAdditionally failed to roll back worktree '",
            path,
            "': ",
            e,
        ),
    }
}

/// What is told of a branch that moved and so was not deleted.
pub fn kept_branch_note(branch: &str) -> (r: String)
    ensures
        r@ == "Note: did not delete branch '"@ + branch@
            + "' (tip no longer matches the captured value; use --force to override)."@,
{
    cat3(
        "Note: did not delete branch '",
        branch,
        "' (tip no longer matches the captured value; use --force to override).",
    )
}

} // verus!
