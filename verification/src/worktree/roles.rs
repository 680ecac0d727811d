//! Which worktree plays which role, and how each role's worktree is had.

use crate::text::{
    cat2, cat3, cat4, cat5, copy_opt, is_text, opt_string, opt_text, same, split_once_text_of,
    strs,
};
use crate::worktree::config::WorktreeConfig;
use crate::worktree::git::{
    by_path, checkout_worktree_branch, checkout_worktree_detached, live_worktree_map, switch_args,
    LiveWorktree,
};
use crate::worktree::path_resolver::{
    expand_path_template, join_path, joined, normalize_path, normalized, parse_target,
    path_is_inside, sanitized, temp_template_root, within, TemplateError, WorktreeTarget,
};
use crate::worktree::WorktreeRole;
use vstd::prelude::*;

verus! {

/// The role of a path: the main or review worktree's own path, or anything under the root of
/// temporary worktrees. The outer option is none where the template has no place for a branch.
pub open spec fn role_of(config: WorktreeConfig, path: Seq<char>) -> Option<Option<WorktreeRole>> {
    if path == normalized(config.main.path@) {
        Some(Some(WorktreeRole::Main))
    } else if path == normalized(config.review.path@) {
        Some(Some(WorktreeRole::Review))
    } else if config.temp.enabled {
        match split_once_text_of(config.temp.path_template@, "{branch}"@) {
            Some((prefix, _)) => if within(normalized(prefix), path) {
                Some(Some(WorktreeRole::Temp))
            } else {
                Some(None)
            },
            None => None,
        }
    } else {
        Some(None)
    }
}

/// Finds the role of a path in its plainest form. The main and review worktrees come before the
/// root of temporary ones, which is not looked at where temporary worktrees are switched off.
pub fn role_for_path(config: &WorktreeConfig, path: &str) -> (r: Result<
    Option<WorktreeRole>,
    TemplateError,
>)
    ensures
        match r {
            Ok(role) => role_of(*config, path@) == Some(role),
            Err(e) => role_of(*config, path@) is None && e.0@ == config.temp.path_template@,
        },
{
    if same(path, normalize_path(config.main.path.as_str()).as_str()) {
        return Ok(Some(WorktreeRole::Main));
    }
    if same(path, normalize_path(config.review.path.as_str()).as_str()) {
        return Ok(Some(WorktreeRole::Review));
    }
    if config.temp.enabled {
        let temp_root = match temp_template_root(config.temp.path_template.as_str()) {
            Ok(root) => root,
            Err(e) => return Err(e),
        };
        if path_is_inside(temp_root.as_str(), path) {
            return Ok(Some(WorktreeRole::Temp));
        }
    }
    Ok(None)
}

/// A worktree as it was found or made.
#[derive(Debug, Clone, PartialEq, Eq)]
pub struct EnsureResult {
    pub path: String,
    pub created: bool,
    pub switched: bool,
}

/// Why a worktree cannot be had.
#[derive(Debug)]
pub enum RoleError {
    /// Worktrees of the role are switched off.
    Disabled(WorktreeRole),
    ReviewWithoutReuse,
    /// The main worktree is on another branch.
    Pinned(String, Option<String>, String),
    /// The path is there but is no worktree.
    NotWorktree(WorktreeRole, String),
    /// There is no current branch, and none was named.
    NeedBranch,
    /// There is no current branch, and no start point was named.
    NeedStartPoint,
    BranchExists(String),
    /// The branch came into being at the same time.
    BranchRace(String, bool),
    Template(TemplateError),
    /// Another worktree is on the path; the role is the one that the path belongs to.
    Occupied(String, Option<WorktreeRole>, Option<String>),
    InUse(String, Option<String>),
    PathExists(String),
    NoMain,
    NoReview,
    NoWorktree(String),
}

/// A branch, or a word for none.
pub open spec fn branch_or_detached(branch: Option<Seq<char>>) -> Seq<char> {
    match branch {
        Some(b) => b,
        None => "<detached>"@,
    }
}

fn show_branch(branch: &Option<String>) -> (r: String)
    ensures
        r@ == branch_or_detached(opt_string(*branch)),
{
    match branch {
        Some(b) => b.clone(),
        None => "<detached>".to_owned(),
    }
}

/// The name of a role at the beginning of a sentence.
pub open spec fn role_title(role: WorktreeRole) -> Seq<char> {
    match role {
        WorktreeRole::Main => "Main"@,
        WorktreeRole::Review => "Review"@,
        WorktreeRole::Temp => "Temp"@,
    }
}

impl RoleError {
    pub open spec fn text(self) -> Seq<char> {
        match self {
            RoleError::Disabled(role) => role_title(role)
                + " worktrees are disabled in .git/kindra.toml."@,
            RoleError::ReviewWithoutReuse =>
                "worktrees.review.reuse = false is not supported by the current MVP."@,
            RoleError::Pinned(path, on, branch) => ("Managed main worktree at '"@ + path@
                + "' is on '"@) + branch_or_detached(opt_string(on)) + (
            "' but should stay pinned to '"@ + branch@ + "'."@),
            RoleError::NotWorktree(role, path) => "Configured "@ + role.text()
                + " worktree path '"@ + path@ + "' exists but is not a valid git worktree."@,
            RoleError::NeedBranch =>
                "Current HEAD is detached; please specify a branch explicitly."@,
            RoleError::NeedStartPoint =>
                "Current HEAD is detached; please specify a start point explicitly."@,
            RoleError::BranchExists(b) => "A local branch named '"@ + b@ + "' already exists."@,
            RoleError::BranchRace(b, temp) => "A local branch named '"@ + b@
                + "' appeared while creating the "@ + (if temp {
                "temp worktree"@
            } else {
                "worktree"@
            }) + ". Resolve the race and retry."@,
            RoleError::Template(e) => "Temp worktree path template '"@ + e.0@
                + "' must include '{branch}'."@,
            RoleError::Occupied(path, role, occupant) => ("Temp worktree path '"@ + path@) + (
            match role {
                Some(x) => "' is already reserved for "@ + x.text() + " '"@,
                None => "' is already in use by branch '"@,
            }) + (branch_or_detached(opt_string(occupant)) + "'."@),
            RoleError::InUse(path, occupant) => ("Worktree path '"@ + path@
                + "' is already in use by branch '"@) + branch_or_detached(opt_string(occupant))
                + "'."@,
            RoleError::PathExists(path) => "Path '"@ + path@
                + "' already exists but is not a git worktree."@,
            RoleError::NoMain => "No managed main worktree exists."@,
            RoleError::NoReview => "No managed review worktree exists."@,
            RoleError::NoWorktree(b) => "No worktree found for branch '"@ + b@ + "'."@,
        }
    }

    pub fn message(&self) -> (r: String)
        ensures
            r@ == self.text(),
    {
        match self {
            RoleError::Disabled(role) => {
                let title = match role {
                    WorktreeRole::Main => "Main",
                    WorktreeRole::Review => "Review",
                    WorktreeRole::Temp => "Temp",
                };
                cat2(title, " worktrees are disabled in .git/kindra.toml.")
            },
            RoleError::ReviewWithoutReuse =>
                "worktrees.review.reuse = false is not supported by the current MVP.".to_owned(),
            RoleError::Pinned(path, on, branch) => {
                let a = cat3("Managed main worktree at '", path.as_str(), "' is on '");
                let c = cat3("' but should stay pinned to '", branch.as_str(), "'.");
                cat3(a.as_str(), show_branch(on).as_str(), c.as_str())
            },
            RoleError::NotWorktree(role, path) => cat5(
                "Configured ",
                role.as_str(),
                " worktree path '",
                path.as_str(),
                "' exists but is not a valid git worktree.",
            ),
            RoleError::NeedBranch =>
                "Current HEAD is detached; please specify a branch explicitly.".to_owned(),
            RoleError::NeedStartPoint =>
                "Current HEAD is detached; please specify a start point explicitly.".to_owned(),
            RoleError::BranchExists(b) => cat3(
                "A local branch named '",
                b.as_str(),
                "' already exists.",
            ),
            RoleError::BranchRace(b, temp) => {
                let what = if *temp {
                    "temp worktree"
                } else {
                    "worktree"
                };
                cat5(
                    "A local branch named '",
                    b.as_str(),
                    "' appeared while creating the ",
                    what,
                    ". Resolve the race and retry.",
                )
            },
            RoleError::Template(e) => e.message(),
            RoleError::Occupied(path, role, occupant) => {
                let a = cat2("Temp worktree path '", path.as_str());
                let b = match role {
                    Some(x) => cat3("' is already reserved for ", x.as_str(), " '"),
                    None => "' is already in use by branch '".to_owned(),
                };
                let c = cat2(show_branch(occupant).as_str(), "'.");
                cat3(a.as_str(), b.as_str(), c.as_str())
            },
            RoleError::InUse(path, occupant) => {
                let a = cat3(
                    "Worktree path '",
                    path.as_str(),
                    "' is already in use by branch '",
                );
                cat3(a.as_str(), show_branch(occupant).as_str(), "'.")
            },
            RoleError::PathExists(path) => cat3(
                "Path '",
                path.as_str(),
                "' already exists but is not a git worktree.",
            ),
            RoleError::NoMain => "No managed main worktree exists.".to_owned(),
            RoleError::NoReview => "No managed review worktree exists.".to_owned(),
            RoleError::NoWorktree(b) => cat3("No worktree found for branch '", b.as_str(), "'."),
        }
    }
}

/// How a worktree is had.
#[derive(Debug)]
pub enum EnsurePlan {
    /// It is there.
    Reuse(EnsureResult),
    /// It is there and switches to the branch; the last is the branch that it is on.
    Switch(String, String, Option<String>),
    /// It is made on the path for the branch.
    Create(String, String),
}

/// The worktree is there on that path, and nothing is done about it.
pub open spec fn is_reuse(plan: EnsurePlan, path: Seq<char>) -> bool {
    match plan {
        EnsurePlan::Reuse(e) => e.path@ == path && !e.created && !e.switched,
        _ => false,
    }
}

/// The worktree is made on that path for that branch.
pub open spec fn is_create(plan: EnsurePlan, path: Seq<char>, branch: Seq<char>) -> bool {
    match plan {
        EnsurePlan::Create(p, b) => p@ == path && b@ == branch,
        _ => false,
    }
}

fn reuse(path: &str) -> (r: EnsurePlan)
    ensures
        is_reuse(r, path@),
{
    EnsurePlan::Reuse(EnsureResult { path: path.to_owned(), created: false, switched: false })
}

/// The result of a worktree that was made.
pub fn created_result(path: &str) -> (r: EnsureResult)
    ensures
        r.path@ == path@,
        r.created,
        !r.switched,
{
    EnsureResult { path: path.to_owned(), created: true, switched: false }
}

/// The result of a worktree that was switched.
pub fn switched_result(path: &str) -> (r: EnsureResult)
    ensures
        r.path@ == path@,
        !r.created,
        r.switched,
{
    EnsureResult { path: path.to_owned(), created: false, switched: true }
}

/// How the main worktree is had: it stays on its branch. `path_exists` says whether something is on
/// its path.
pub fn ensure_main(config: &WorktreeConfig, live: &Vec<LiveWorktree>, path_exists: bool) -> (r:
    Result<EnsurePlan, RoleError>)
    ensures
        ({
            let path = config.main.path@;
            let at = by_path(live@);
            let key = normalized(path);
            if !config.main.enabled {
                r matches Err(RoleError::Disabled(role)) && role == WorktreeRole::Main
            } else if at.contains_key(key) {
                if opt_string(at[key].branch) == Some(config.main.branch@) {
                    r matches Ok(plan) && is_reuse(plan, path)
                } else {
                    r matches Err(RoleError::Pinned(p, on, b)) && p@ == path && opt_string(on)
                        == opt_string(at[key].branch) && b@ == config.main.branch@
                }
            } else if path_exists {
                r matches Err(RoleError::NotWorktree(role, p)) && role == WorktreeRole::Main && p@
                    == path
            } else {
                r matches Ok(plan) && is_create(plan, path, config.main.branch@)
            }
        }),
{
    if !config.main.enabled {
        return Err(RoleError::Disabled(WorktreeRole::Main));
    }
    let path = config.main.path.as_str();
    let map = live_worktree_map(live);
    if let Some(found) = map.get(normalize_path(path).as_str()) {
        if !is_text(&found.branch, config.main.branch.as_str()) {
            return Err(
                RoleError::Pinned(
                    path.to_owned(),
                    copy_opt(&found.branch),
                    config.main.branch.clone(),
                ),
            );
        }
        return Ok(reuse(path));
    }
    if path_exists {
        return Err(RoleError::NotWorktree(WorktreeRole::Main, path.to_owned()));
    }
    Ok(EnsurePlan::Create(path.to_owned(), config.main.branch.clone()))
}

/// The branch that is asked for: the one that is named, or the current one.
pub open spec fn requested(
    name: Option<Seq<char>>,
    current: Option<Seq<char>>,
) -> Option<Seq<char>> {
    match name {
        Some(b) => Some(b),
        None => current,
    }
}

pub fn resolve_requested_branch(name: Option<&str>, current_branch: &Option<String>) -> (r: Result<
    String,
    RoleError,
>)
    ensures
        match requested(opt_text(name), opt_string(*current_branch)) {
            Some(b) => r matches Ok(s) && s@ == b,
            None => r matches Err(e) && e is NeedBranch,
        },
{
    match name {
        Some(b) => Ok(b.to_owned()),
        None => match current_branch {
            Some(b) => Ok(b.clone()),
            None => Err(RoleError::NeedBranch),
        },
    }
}

pub fn resolve_requested_start_point(name: Option<&str>, current_branch: &Option<String>) -> (r:
    Result<String, RoleError>)
    ensures
        match requested(opt_text(name), opt_string(*current_branch)) {
            Some(b) => r matches Ok(s) && s@ == b,
            None => r matches Err(e) && e is NeedStartPoint,
        },
{
    match name {
        Some(b) => Ok(b.to_owned()),
        None => match current_branch {
            Some(b) => Ok(b.clone()),
            None => Err(RoleError::NeedStartPoint),
        },
    }
}

/// How the review worktree is had for a branch: it is switched to the branch where it is on
/// another.
pub fn ensure_review(
    config: &WorktreeConfig,
    branch: &str,
    live: &Vec<LiveWorktree>,
    path_exists: bool,
) -> (r: Result<EnsurePlan, RoleError>)
    ensures
        ({
            let path = config.review.path@;
            let at = by_path(live@);
            let key = normalized(path);
            if !config.review.enabled {
                r matches Err(RoleError::Disabled(role)) && role == WorktreeRole::Review
            } else if !config.review.reuse {
                r matches Err(e) && e is ReviewWithoutReuse
            } else if at.contains_key(key) {
                if opt_string(at[key].branch) == Some(branch@) {
                    r matches Ok(plan) && is_reuse(plan, path)
                } else {
                    r matches Ok(EnsurePlan::Switch(p, b, on)) && p@ == path && b@ == branch@
                        && opt_string(on) == opt_string(at[key].branch)
                }
            } else if path_exists {
                r matches Err(RoleError::NotWorktree(role, p)) && role == WorktreeRole::Review && p@
                    == path
            } else {
                r matches Ok(plan) && is_create(plan, path, branch@)
            }
        }),
{
    if !config.review.enabled {
        return Err(RoleError::Disabled(WorktreeRole::Review));
    }
    if !config.review.reuse {
        return Err(RoleError::ReviewWithoutReuse);
    }
    let path = config.review.path.as_str();
    let map = live_worktree_map(live);
    if let Some(found) = map.get(normalize_path(path).as_str()) {
        if is_text(&found.branch, branch) {
            return Ok(reuse(path));
        }
        return Ok(EnsurePlan::Switch(path.to_owned(), branch.to_owned(), copy_opt(&found.branch)));
    }
    if path_exists {
        return Err(RoleError::NotWorktree(WorktreeRole::Review, path.to_owned()));
    }
    Ok(EnsurePlan::Create(path.to_owned(), branch.to_owned()))
}

/// How the review worktree is switched.
#[derive(Debug, Clone, Copy, PartialEq, Eq, Structural)]
pub struct ReviewSwitch {
    /// Changes in the worktree are thrown away.
    pub discard: bool,
    /// The user is asked before that.
    pub ask: bool,
}

/// How the review worktree is switched: changes are thrown away where that is forced, or where the
/// settings say so and the user agrees.
pub fn review_switch(dirty: bool, force: bool, clean_before_switch: bool) -> (r: ReviewSwitch)
    ensures
        r.discard == (force || (dirty && clean_before_switch)),
        r.ask == (dirty && !force && clean_before_switch),
{
    ReviewSwitch {
        discard: force || (dirty && clean_before_switch),
        ask: dirty && !force && clean_before_switch,
    }
}

/// Changes are never thrown away unless that is forced or the user was asked.
pub proof fn law_review_changes_are_safe(dirty: bool, force: bool, clean: bool, s: ReviewSwitch)
    requires
        s.discard == (force || (dirty && clean)),
        s.ask == (dirty && !force && clean),
        dirty,
        s.discard,
    ensures
        force || s.ask,
{
}

/// The question before changes in the review worktree are thrown away.
pub fn review_question(path: &str, branch: &str) -> (r: String)
    ensures
        r@ == "Review worktree '"@ + path@
            + "' has uncommitted changes. Discard them and switch to '"@ + branch@ + "'?"@,
{
    cat5(
        "Review worktree '",
        path,
        "' has uncommitted changes. Discard them and switch to '",
        branch,
        "'?",
    )
}

/// Where a worktree goes back to.
#[derive(Debug, Clone, PartialEq, Eq)]
pub enum RollbackTarget {
    Branch(String),
    /// A commit, without a branch.
    Detached(String),
}

/// Where a worktree goes back to: the branch that it was on, or else the commit.
pub fn rollback_target(branch: &Option<String>, head: &str) -> (r: RollbackTarget)
    ensures
        match r {
            RollbackTarget::Branch(b) => opt_string(*branch) == Some(b@),
            RollbackTarget::Detached(id) => *branch is None && id@ == head@,
        },
{
    match branch {
        Some(b) => RollbackTarget::Branch(b.clone()),
        None => RollbackTarget::Detached(head.to_owned()),
    }
}

/// The arguments of git with which the review worktree goes back where its hooks failed. The way
/// back is forced only where nothing can be lost.
pub fn rollback_review_checkout(
    target: &RollbackTarget,
    was_dirty: bool,
    discard_local_changes: bool,
) -> (r: Vec<String>)
    ensures
        ({
            let forced = discard_local_changes || !was_dirty;
            strs(r@) == match *target {
                RollbackTarget::Branch(b) => switch_args(b@, forced, false),
                RollbackTarget::Detached(id) => switch_args(id@, forced, true),
            }
        }),
{
    let forced = discard_local_changes || !was_dirty;
    match target {
        RollbackTarget::Branch(b) => checkout_worktree_branch(b.as_str(), forced),
        RollbackTarget::Detached(id) => checkout_worktree_detached(id.as_str(), forced),
    }
}

/// What is told where the hooks failed and the worktree could not go back either.
pub fn review_not_restored(hook_err: &str, path: &str, rollback_err: &str) -> (r: String)
    ensures
        r@ == hook_err@ + "\nAdditionally failed to restore worktree '"@ + path@ + "': "@
            + rollback_err@,
{
    cat5(
        hook_err,
        "\nAdditionally failed to restore worktree '",
        path,
        "': ",
        rollback_err,
    )
}

/// The worktree is on that branch and is a temporary one.
pub open spec fn is_temp_on(config: WorktreeConfig, w: LiveWorktree, branch: Seq<char>) -> bool {
    opt_string(w.branch) == Some(branch) && role_of(config, normalized(w.path@)) == Some(
        Some(WorktreeRole::Temp),
    )
}

/// The first temporary worktree on a branch, or the number of worktrees.
pub open spec fn index_temp_on(
    config: WorktreeConfig,
    live: Seq<LiveWorktree>,
    branch: Seq<char>,
) -> int
    decreases live.len(),
{
    if live.len() == 0 || is_temp_on(config, live[0], branch) {
        0
    } else {
        1 + index_temp_on(config, live.drop_first(), branch)
    }
}

fn find_temp_on(config: &WorktreeConfig, live: &Vec<LiveWorktree>, branch: &str) -> (r: Option<
    usize,
>)
    ensures
        match r {
            Some(i) => i == index_temp_on(*config, live@, branch@) && i < live@.len(),
            None => index_temp_on(*config, live@, branch@) == live@.len(),
        },
{
    let mut i: usize = 0;
    assert(live@.skip(0) =~= live@);
    while i < live.len()
        invariant
            i <= live@.len(),
            index_temp_on(*config, live@, branch@) == i + index_temp_on(
                *config,
                live@.skip(i as int),
                branch@,
            ),
        decreases live@.len() - i,
    {
        assert(live@.skip(i as int)[0] == live@[i as int]);
        assert(live@.skip(i as int).drop_first() =~= live@.skip(i + 1));
        if is_text(&live[i].branch, branch) {
            if let Ok(Some(role)) = role_for_path(config, live[i].normalized_path().as_str()) {
                if role == WorktreeRole::Temp {
                    return Some(i);
                }
            }
        }
        i += 1;
    }
    None
}

/// The path of a temporary worktree for a branch.
pub open spec fn temp_path_of(config: WorktreeConfig, branch: Seq<char>) -> Option<Seq<char>> {
    template_path(config.temp.path_template@, branch)
}

/// The path that a template gives for a branch.
pub open spec fn template_path(template: Seq<char>, branch: Seq<char>) -> Option<Seq<char>> {
    if crate::text::find_text_of(template, "{branch}"@) is Some {
        Some(
            normalized(crate::text::replace_of(template, "{branch}"@, sanitized(branch))),
        )
    } else {
        None
    }
}

/// Whether a temporary worktree for a branch may be on a path. Names of branches can become the
/// same path, and a template can overlap the path of another role.
pub open spec fn temp_path_free(
    config: WorktreeConfig,
    live: Seq<LiveWorktree>,
    branch: Seq<char>,
    path: Seq<char>,
) -> bool {
    let at = by_path(live);
    let key = normalized(path);
    !at.contains_key(key) || (role_of(config, key) == Some(Some(WorktreeRole::Temp)) && opt_string(
        at[key].branch,
    ) == Some(branch))
}

/// The error of a path that is not free: another worktree is on it.
pub open spec fn is_occupied(
    config: WorktreeConfig,
    live: Seq<LiveWorktree>,
    path: Seq<char>,
    e: RoleError,
) -> bool {
    let at = by_path(live);
    let key = normalized(path);
    match role_of(config, key) {
        None => e matches RoleError::Template(t) && t.0@ == config.temp.path_template@,
        Some(role) => e matches RoleError::Occupied(p, other, on) && p@ == path && other == role
            && opt_string(on) == opt_string(at[key].branch),
    }
}

/// Refuses the path of a temporary worktree where another worktree is on it.
pub fn ensure_temp_path_available(
    config: &WorktreeConfig,
    live: &Vec<LiveWorktree>,
    branch: &str,
    path: &str,
) -> (r: Result<(), RoleError>)
    ensures
        match r {
            Ok(_) => temp_path_free(*config, live@, branch@, path@),
            Err(e) => !temp_path_free(*config, live@, branch@, path@) && is_occupied(
                *config,
                live@,
                path@,
                e,
            ),
        },
{
    let key = normalize_path(path);
    let map = live_worktree_map(live);
    let other = match map.get(key.as_str()) {
        Some(w) => w,
        None => return Ok(()),
    };
    let role = match role_for_path(config, key.as_str()) {
        Ok(x) => x,
        Err(e) => return Err(RoleError::Template(e)),
    };
    let is_temp = match role {
        Some(x) => x == WorktreeRole::Temp,
        None => false,
    };
    if is_temp && is_text(&other.branch, branch) {
        return Ok(());
    }
    Err(RoleError::Occupied(path.to_owned(), role, copy_opt(&other.branch)))
}

/// How the temporary worktree of a branch is had: one that is on the branch already, wherever it
/// is, or one on the path that the template gives. `path_exists` says whether something is on that
/// path.
pub fn ensure_temp(
    config: &WorktreeConfig,
    branch: &str,
    live: &Vec<LiveWorktree>,
    path_exists: bool,
) -> (r: Result<EnsurePlan, RoleError>)
    ensures
        ({
            let found = index_temp_on(*config, live@, branch@);
            let path = temp_path_of(*config, branch@);
            let at = by_path(live@);
            if !config.temp.enabled {
                r matches Err(RoleError::Disabled(role)) && role == WorktreeRole::Temp
            } else if found < live@.len() {
                r matches Ok(plan) && is_reuse(plan, live@[found].path@)
            } else if path is None {
                r matches Err(RoleError::Template(e)) && e.0@ == config.temp.path_template@
            } else if !temp_path_free(*config, live@, branch@, path->0) {
                r matches Err(e) && is_occupied(*config, live@, path->0, e)
            } else if at.contains_key(normalized(path->0)) {
                r matches Ok(plan) && is_reuse(plan, path->0)
            } else if path_exists {
                r matches Err(RoleError::NotWorktree(role, p)) && role == WorktreeRole::Temp && p@
                    == path->0
            } else {
                r matches Ok(plan) && is_create(plan, path->0, branch@)
            }
        }),
{
    if !config.temp.enabled {
        return Err(RoleError::Disabled(WorktreeRole::Temp));
    }
    if let Some(i) = find_temp_on(config, live, branch) {
        return Ok(reuse(live[i].path.as_str()));
    }
    let path = match expand_path_template(config.temp.path_template.as_str(), branch) {
        Ok(p) => p,
        Err(e) => return Err(RoleError::Template(e)),
    };
    if let Err(e) = ensure_temp_path_available(config, live, branch, path.as_str()) {
        return Err(e);
    }
    let map = live_worktree_map(live);
    if map.contains(normalize_path(path.as_str()).as_str()) {
        return Ok(reuse(path.as_str()));
    }
    if path_exists {
        return Err(RoleError::NotWorktree(WorktreeRole::Temp, path));
    }
    Ok(EnsurePlan::Create(path, branch.to_owned()))
}

/// A branch that is to be made must not be there.
pub fn ensure_local_branch_is_new(branch: &str, branch_exists: bool) -> (r: Result<(), RoleError>)
    ensures
        match r {
            Ok(_) => !branch_exists,
            Err(RoleError::BranchExists(b)) => branch_exists && b@ == branch@,
            Err(_) => false,
        },
{
    if branch_exists {
        return Err(RoleError::BranchExists(branch.to_owned()));
    }
    Ok(())
}

/// Where the temporary worktree of a new branch is made. `branch_exists` says whether there is such
/// a local branch, `path_exists` whether something is on the path that the template gives.
pub fn ensure_temp_new_branch(
    config: &WorktreeConfig,
    branch: &str,
    branch_exists: bool,
    live: &Vec<LiveWorktree>,
    path_exists: bool,
) -> (r: Result<String, RoleError>)
    ensures
        ({
            let path = temp_path_of(*config, branch@);
            if !config.temp.enabled {
                r matches Err(RoleError::Disabled(role)) && role == WorktreeRole::Temp
            } else if branch_exists {
                r matches Err(RoleError::BranchExists(b)) && b@ == branch@
            } else if path is None {
                r matches Err(RoleError::Template(e)) && e.0@ == config.temp.path_template@
            } else if !temp_path_free(*config, live@, branch@, path->0) {
                r matches Err(e) && is_occupied(*config, live@, path->0, e)
            } else if path_exists {
                r matches Err(RoleError::NotWorktree(role, p)) && role == WorktreeRole::Temp && p@
                    == path->0
            } else {
                r matches Ok(p) && p@ == path->0
            }
        }),
{
    if !config.temp.enabled {
        return Err(RoleError::Disabled(WorktreeRole::Temp));
    }
    if let Err(e) = ensure_local_branch_is_new(branch, branch_exists) {
        return Err(e);
    }
    let path = match expand_path_template(config.temp.path_template.as_str(), branch) {
        Ok(p) => p,
        Err(e) => return Err(RoleError::Template(e)),
    };
    if let Err(e) = ensure_temp_path_available(config, live, branch, path.as_str()) {
        return Err(e);
    }
    if path_exists {
        return Err(RoleError::NotWorktree(WorktreeRole::Temp, path));
    }
    Ok(path)
}

/// The first worktree on a branch, or the number of worktrees.
pub open spec fn index_live_on(live: Seq<LiveWorktree>, branch: Seq<char>) -> int
    decreases live.len(),
{
    if live.len() == 0 || opt_string(live[0].branch) == Some(branch) {
        0
    } else {
        1 + index_live_on(live.drop_first(), branch)
    }
}

pub fn find_live_on(live: &Vec<LiveWorktree>, branch: &str) -> (r: Option<usize>)
    ensures
        match r {
            Some(i) => i == index_live_on(live@, branch@) && i < live@.len(),
            None => index_live_on(live@, branch@) == live@.len(),
        },
{
    let mut i: usize = 0;
    assert(live@.skip(0) =~= live@);
    while i < live.len()
        invariant
            i <= live@.len(),
            index_live_on(live@, branch@) == i + index_live_on(live@.skip(i as int), branch@),
        decreases live@.len() - i,
    {
        assert(live@.skip(i as int)[0] == live@[i as int]);
        assert(live@.skip(i as int).drop_first() =~= live@.skip(i + 1));
        if is_text(&live[i].branch, branch) {
            return Some(i);
        }
        i += 1;
    }
    None
}

/// What a plain worktree is asked for: a new branch, or one that is there.
#[derive(Debug)]
pub struct AddPlan {
    pub plan: EnsurePlan,
    /// The path that was given but is not used, because the branch has a worktree elsewhere.
    pub ignored_path: Option<String>,
}

/// The path that is given, seen from the repository.
pub open spec fn given_path(root: Seq<char>, path: Option<Seq<char>>) -> Option<Seq<char>> {
    match path {
        Some(p) => Some(normalized(joined(root, p))),
        None => None,
    }
}

pub fn resolve_given_path(root: &str, path: Option<&str>) -> (r: Option<String>)
    ensures
        opt_string(r) == given_path(root@, opt_text(path)),
{
    match path {
        Some(p) => Some(normalize_path(join_path(root, p).as_str())),
        None => None,
    }
}

/// Where plain worktrees go: next to the repository, or under it where it has no parent directory.
pub fn default_add_template(root: &str, parent: Option<&str>) -> (r: String)
    ensures
        r@ == match parent {
            Some(p) => joined(p@, "{branch}"@),
            None => joined(root@, "worktrees/{branch}"@),
        },
{
    match parent {
        Some(p) => join_path(p, "{branch}"),
        None => join_path(root, "worktrees/{branch}"),
    }
}

/// The path of a plain worktree: the one that is given, or what the template gives for the branch.
pub open spec fn add_path(
    given: Option<Seq<char>>,
    template: Seq<char>,
    branch: Seq<char>,
) -> Option<Seq<char>> {
    match given {
        Some(p) => Some(p),
        None => template_path(template, branch),
    }
}

pub fn plain_worktree_path(given: &Option<String>, template: &str, branch: &str) -> (r: Result<
    String,
    TemplateError,
>)
    ensures
        match add_path(opt_string(*given), template@, branch@) {
            Some(p) => r matches Ok(s) && s@ == p,
            None => r matches Err(e) && e.0@ == template@,
        },
{
    match given {
        Some(p) => Ok(p.clone()),
        None => expand_path_template(template, branch),
    }
}

/// How a plain worktree for a branch is had. A branch that is there and has a worktree keeps it; a
/// path that is taken is refused. `is_new` says that the branch is to be made, `given` is the path
/// that was asked for, and `path_exists` whether something is on the path of the worktree.
pub fn ensure_added(
    branch: &str,
    is_new: bool,
    given: &Option<String>,
    template: &str,
    live: &Vec<LiveWorktree>,
    path_exists: bool,
) -> (r: Result<AddPlan, RoleError>)
    ensures
        ({
            let found = index_live_on(live@, branch@);
            let path = add_path(opt_string(*given), template@, branch@);
            let at = by_path(live@);
            if !is_new && found < live@.len() {
                r matches Ok(plan) && is_reuse(plan.plan, live@[found].path@) && opt_string(
                    plan.ignored_path,
                ) == if *given is Some && given->0@ != normalized(live@[found].path@) {
                    Some(given->0@)
                } else {
                    None
                }
            } else if path is None {
                r matches Err(RoleError::Template(e)) && e.0@ == template@
            } else if at.contains_key(path->0) {
                r matches Err(RoleError::InUse(p, on)) && p@ == path->0 && opt_string(on)
                    == opt_string(at[path->0].branch)
            } else if path_exists {
                r matches Err(RoleError::PathExists(p)) && p@ == path->0
            } else {
                r matches Ok(plan) && is_create(plan.plan, path->0, branch@)
                    && plan.ignored_path is None
            }
        }),
{
    if !is_new {
        if let Some(i) = find_live_on(live, branch) {
            let ignored = match given {
                Some(p) => if same(p.as_str(), live[i].normalized_path().as_str()) {
                    None
                } else {
                    Some(p.clone())
                },
                None => None,
            };
            return Ok(AddPlan { plan: reuse(live[i].path.as_str()), ignored_path: ignored });
        }
    }
    let path = match plain_worktree_path(given, template, branch) {
        Ok(p) => p,
        Err(e) => return Err(RoleError::Template(e)),
    };
    let map = live_worktree_map(live);
    if let Some(other) = map.get(path.as_str()) {
        return Err(RoleError::InUse(path, copy_opt(&other.branch)));
    }
    if path_exists {
        return Err(RoleError::PathExists(path));
    }
    Ok(AddPlan { plan: EnsurePlan::Create(path, branch.to_owned()), ignored_path: None })
}

/// Asking for the worktree of a branch that has one is harmless: it is handed back as it is.
pub proof fn law_added_worktree_is_reused(live: Seq<LiveWorktree>, branch: Seq<char>, w: LiveWorktree)
    requires
        live.contains(w),
        opt_string(w.branch) == Some(branch),
    ensures
        0 <= index_live_on(live, branch) < live.len(),
        opt_string(live[index_live_on(live, branch)].branch) == Some(branch),
    decreases live.len(),
{
    if live.len() > 0 && opt_string(live[0].branch) != Some(branch) {
        let i = live.index_of(w);
        assert(live.drop_first()[i - 1] == w);
        law_added_worktree_is_reused(live.drop_first(), branch, w);
    }
}

/// What is told of a path that is not used.
pub fn ignored_path_warning(path: &str, branch: &str, existing: &str) -> (r: String)
    ensures
        r@ == ("Warning: ignoring --path '"@ + path@ + "' because branch '"@) + (branch@
            + "' is already checked out at '"@ + existing@ + "'."@),
{
    let a = cat3("Warning: ignoring --path '", path, "' because branch '");
    let b = cat4(branch, "' is already checked out at '", existing, "'.");
    cat2(a.as_str(), b.as_str())
}

/// A worktree that a target names.
#[derive(Debug)]
pub struct ResolvedTarget {
    pub branch: String,
    pub path: String,
    pub live: LiveWorktree,
}

/// The worktree of a branch: the one on the path of its temporary worktree, or else the first one
/// that is on the branch.
pub open spec fn live_of_branch(
    config: WorktreeConfig,
    live: Seq<LiveWorktree>,
    branch: Seq<char>,
) -> Option<LiveWorktree> {
    let at = by_path(live);
    let temp = temp_path_of(config, branch);
    if config.temp.enabled && temp is Some && at.contains_key(normalized(temp->0)) {
        Some(at[normalized(temp->0)])
    } else if index_live_on(live, branch) < live.len() {
        Some(live[index_live_on(live, branch)])
    } else {
        None
    }
}

/// The branch that a target names; none for a role.
pub open spec fn target_branch(target: Seq<char>) -> Option<Seq<char>> {
    if "branch:"@.is_prefix_of(target) {
        Some(target.skip("branch:"@.len() as int))
    } else if target == "main"@ || target == "review"@ {
        None
    } else {
        Some(target)
    }
}

/// Finds the worktree that a target names.
pub fn resolve_target(config: &WorktreeConfig, live: &Vec<LiveWorktree>, target: &str) -> (r: Result<
    ResolvedTarget,
    RoleError,
>)
    ensures
        ({
            let at = by_path(live@);
            match target_branch(target@) {
                Some(b) => if config.temp.enabled && temp_path_of(*config, b) is None {
                    r matches Err(RoleError::Template(e)) && e.0@ == config.temp.path_template@
                } else {
                    match live_of_branch(*config, live@, b) {
                        Some(w) => r matches Ok(t) && t.branch@ == b && t.path@ == w.path@ && t.live
                            == w,
                        None => r matches Err(RoleError::NoWorktree(n)) && n@ == b,
                    }
                },
                None => if target@ == "main"@ {
                    let key = normalized(config.main.path@);
                    if at.contains_key(key) {
                        r matches Ok(t) && t.path@ == config.main.path@ && t.live == at[key]
                            && t.branch@ == match opt_string(at[key].branch) {
                            Some(b) => b,
                            None => config.main.branch@,
                        }
                    } else {
                        r matches Err(e) && e is NoMain
                    }
                } else {
                    let key = normalized(config.review.path@);
                    if at.contains_key(key) {
                        r matches Ok(t) && t.path@ == config.review.path@ && t.live == at[key]
                            && t.branch@ == match opt_string(at[key].branch) {
                            Some(b) => b,
                            None => "review"@,
                        }
                    } else {
                        r matches Err(e) && e is NoReview
                    }
                },
            }
        }),
{
    let map = live_worktree_map(live);
    match parse_target(target) {
        WorktreeTarget::Role(WorktreeRole::Main) => {
            match map.get(normalize_path(config.main.path.as_str()).as_str()) {
                Some(w) => {
                    let branch = match &w.branch {
                        Some(b) => b.clone(),
                        None => config.main.branch.clone(),
                    };
                    Ok(ResolvedTarget { branch, path: config.main.path.clone(), live: w.copy() })
                },
                None => Err(RoleError::NoMain),
            }
        },
        WorktreeTarget::Role(_) => {
            match map.get(normalize_path(config.review.path.as_str()).as_str()) {
                Some(w) => {
                    let branch = match &w.branch {
                        Some(b) => b.clone(),
                        None => "review".to_owned(),
                    };
                    Ok(ResolvedTarget { branch, path: config.review.path.clone(), live: w.copy() })
                },
                None => Err(RoleError::NoReview),
            }
        },
        WorktreeTarget::TempBranch(branch) => {
            if config.temp.enabled {
                let temp_path = match expand_path_template(
                    config.temp.path_template.as_str(),
                    branch.as_str(),
                ) {
                    Ok(p) => p,
                    Err(e) => return Err(RoleError::Template(e)),
                };
                if let Some(w) = map.get(normalize_path(temp_path.as_str()).as_str()) {
                    return Ok(ResolvedTarget { branch, path: w.path.clone(), live: w.copy() });
                }
            }
            match find_live_on(live, branch.as_str()) {
                Some(i) => Ok(
                    ResolvedTarget { branch, path: live[i].path.clone(), live: live[i].copy() },
                ),
                None => Err(RoleError::NoWorktree(branch)),
            }
        },
    }
}

/// The path that a target names.
pub fn resolve_existing_path(config: &WorktreeConfig, live: &Vec<LiveWorktree>, target: &str) -> (r:
    Result<String, RoleError>)
    ensures
        r matches Ok(p) ==> match target_branch(target@) {
            Some(b) => live_of_branch(*config, live@, b) matches Some(w) && p@ == w.path@,
            None => p@ == if target@ == "main"@ {
                config.main.path@
            } else {
                config.review.path@
            },
        },
        r matches Err(e) ==> match target_branch(target@) {
            Some(b) => if config.temp.enabled && temp_path_of(*config, b) is None {
                e matches RoleError::Template(t) && t.0@ == config.temp.path_template@
            } else {
                e matches RoleError::NoWorktree(n) && n@ == b
            },
            None => if target@ == "main"@ {
                e is NoMain
            } else {
                e is NoReview
            },
        },
        r is Ok <==> match target_branch(target@) {
            Some(b) => !(config.temp.enabled && temp_path_of(*config, b) is None)
                && live_of_branch(*config, live@, b) is Some,
            None => by_path(live@).contains_key(
                normalized(
                    if target@ == "main"@ {
                        config.main.path@
                    } else {
                        config.review.path@
                    },
                ),
            ),
        },
{
    match resolve_target(config, live, target) {
        Ok(t) => Ok(t.path),
        Err(e) => Err(e),
    }
}

} // verus!
