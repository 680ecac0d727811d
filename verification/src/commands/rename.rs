//! `kin rename`: when a branch may get another name.

use crate::commands::settings::{base_short_name, short_base};
use crate::text::{cat2, cat3, cat5, list, opt_string, opt_text, same, strs, trim, trim_of};
use vstd::prelude::*;

verus! {

/// The options of `kin rename`.
#[derive(Debug)]
pub struct RenameArgs {
    /// The new name of the current branch, or the branch to rename where `second` is there.
    pub first: String,
    pub second: Option<String>,
}

/// Why a branch is not renamed.
#[derive(Debug)]
pub enum RenameError {
    DetachedHead,
    InProgress,
    NotFound(String),
    IsUpstream(String),
    /// The new name, and the base that it would stand in front of.
    ShadowsBase(String, String),
    PinnedToMain(String),
    Exists(String),
}

impl RenameError {
    pub open spec fn text(self) -> Seq<char> {
        match self {
            RenameError::DetachedHead =>
                "You are not on a branch (detached HEAD). Specify the branch to rename: kin rename <old> <new>"@,
            RenameError::InProgress =>
                "A Kindra operation is already in progress. Use 'kin continue' or 'kin abort'."@,
            RenameError::NotFound(b) => "Branch '"@ + b@ + "' not found."@,
            RenameError::IsUpstream(b) => "Branch '"@ + b@
                + "' is the upstream branch and cannot be renamed with 'kin rename'."@,
            RenameError::ShadowsBase(n, u) => "Renaming to '"@ + n@
                + "' would shadow the stack base '"@ + u@ + "'. Choose a different name."@,
            RenameError::PinnedToMain(b) => "Branch '"@ + b@
                + "' is pinned as the managed main worktree branch in .git/kindra.toml. Update `worktrees.main.branch` there instead of renaming."@,
            RenameError::Exists(n) => "A branch named '"@ + n@ + "' already exists."@,
        }
    }

    pub fn message(&self) -> (r: String)
        ensures
            r@ == self.text(),
    {
        match self {
            RenameError::DetachedHead =>
                "You are not on a branch (detached HEAD). Specify the branch to rename: kin rename <old> <new>".to_owned(),
            RenameError::InProgress =>
                "A Kindra operation is already in progress. Use 'kin continue' or 'kin abort'.".to_owned(),
            RenameError::NotFound(b) => cat3("Branch '", b.as_str(), "' not found."),
            RenameError::IsUpstream(b) => cat3(
                "Branch '",
                b.as_str(),
                "' is the upstream branch and cannot be renamed with 'kin rename'.",
            ),
            RenameError::ShadowsBase(n, u) => cat5(
                "Renaming to '",
                n.as_str(),
                "' would shadow the stack base '",
                u.as_str(),
                "'. Choose a different name.",
            ),
            RenameError::PinnedToMain(b) => cat3(
                "Branch '",
                b.as_str(),
                "' is pinned as the managed main worktree branch in .git/kindra.toml. Update `worktrees.main.branch` there instead of renaming.",
            ),
            RenameError::Exists(n) => cat3("A branch named '", n.as_str(), "' already exists."),
        }
    }
}

/// The branch to rename and its new name: with one name the current branch gets it.
pub fn rename_names(args: &RenameArgs, current: Option<&str>) -> (r: Result<
    (String, String),
    RenameError,
>)
    ensures
        match (args.second, opt_text(current)) {
            (Some(new), _) => r matches Ok(p) && p.0@ == args.first@ && p.1@ == new@,
            (None, Some(c)) => r matches Ok(p) && p.0@ == c && p.1@ == args.first@,
            (None, None) => r == Err::<(String, String), _>(RenameError::DetachedHead),
        },
{
    match &args.second {
        Some(new) => Ok((args.first.clone(), new.clone())),
        None => match current {
            Some(c) => Ok((c.to_owned(), args.first.clone())),
            None => Err(RenameError::DetachedHead),
        },
    }
}

/// What the repository says of the two names.
#[derive(Debug)]
pub struct RenameFacts {
    pub in_progress: bool,
    pub old_exists: bool,
    pub new_exists: bool,
    pub upstream: Option<String>,
    pub remotes: Vec<String>,
    /// The branch of the managed main worktree, where there is one.
    pub main_branch: Option<String>,
}

/// What a rename comes to.
#[derive(Debug, Clone, Copy, PartialEq, Eq, Structural)]
pub enum RenamePlan {
    /// The branch has that name.
    Same,
    Rename,
}

/// The new name would stand in front of the base.
pub open spec fn shadows(new_name: Seq<char>, upstream: Seq<char>, remotes: Seq<Seq<char>>) -> bool {
    new_name == upstream || new_name == short_base(upstream, remotes)
}

/// Why the branch cannot get the new name.
pub open spec fn rename_problem(
    old_name: Seq<char>,
    new_name: Seq<char>,
    f: RenameFacts,
) -> Option<Seq<char>> {
    let upstream = opt_string(f.upstream);
    if f.in_progress {
        Some("A Kindra operation is already in progress. Use 'kin continue' or 'kin abort'."@)
    } else if !f.old_exists {
        Some("Branch '"@ + old_name + "' not found."@)
    } else if old_name == new_name {
        None
    } else if upstream == Some(old_name) {
        Some(
            "Branch '"@ + old_name
                + "' is the upstream branch and cannot be renamed with 'kin rename'."@,
        )
    } else if upstream is Some && shadows(new_name, upstream->0, strs(f.remotes@)) {
        Some(
            "Renaming to '"@ + new_name + "' would shadow the stack base '"@ + upstream->0
                + "'. Choose a different name."@,
        )
    } else if opt_string(f.main_branch) == Some(old_name) {
        Some(
            "Branch '"@ + old_name
                + "' is pinned as the managed main worktree branch in .git/kindra.toml. Update `worktrees.main.branch` there instead of renaming."@,
        )
    } else if f.new_exists {
        Some("A branch named '"@ + new_name + "' already exists."@)
    } else {
        None
    }
}

/// Decides whether a branch may get the new name.
pub fn rename_branch(old_name: &str, new_name: &str, facts: &RenameFacts) -> (r: Result<
    RenamePlan,
    RenameError,
>)
    ensures
        match rename_problem(old_name@, new_name@, *facts) {
            Some(text) => r matches Err(e) && e.text() == text,
            None => r == Ok::<_, RenameError>(
                if old_name@ == new_name@ {
                    RenamePlan::Same
                } else {
                    RenamePlan::Rename
                },
            ),
        },
{
    if facts.in_progress {
        return Err(RenameError::InProgress);
    }
    if !facts.old_exists {
        return Err(RenameError::NotFound(old_name.to_owned()));
    }
    if same(old_name, new_name) {
        return Ok(RenamePlan::Same);
    }
    match &facts.upstream {
        Some(upstream) => {
            if same(old_name, upstream.as_str()) {
                return Err(RenameError::IsUpstream(old_name.to_owned()));
            }
            let base = base_short_name(upstream.as_str(), &facts.remotes);
            if same(new_name, upstream.as_str()) || same(new_name, base.as_str()) {
                return Err(RenameError::ShadowsBase(new_name.to_owned(), upstream.clone()));
            }
        },
        None => {},
    }
    match &facts.main_branch {
        Some(b) => {
            if same(old_name, b.as_str()) {
                return Err(RenameError::PinnedToMain(old_name.to_owned()));
            }
        },
        None => {},
    }
    if facts.new_exists {
        return Err(RenameError::Exists(new_name.to_owned()));
    }
    Ok(RenamePlan::Rename)
}

/// The branch that stacks stand on is never renamed, and no branch is renamed in front of it or over
/// another one.
pub proof fn law_rename_keeps_the_base(old_name: Seq<char>, new_name: Seq<char>, f: RenameFacts)
    requires
        rename_problem(old_name, new_name, f) is None,
        old_name != new_name,
    ensures
        f.old_exists && !f.new_exists && !f.in_progress,
        opt_string(f.upstream) != Some(old_name),
        f.upstream is Some ==> !shadows(new_name, opt_string(f.upstream)->0, strs(f.remotes@)),
        opt_string(f.main_branch) != Some(old_name),
{
}

/// How git is called to rename a branch.
pub fn rename_args(old_name: &str, new_name: &str) -> (r: Vec<String>)
    ensures
        strs(r@) == seq!["branch"@, "-m"@, old_name@, new_name@],
{
    let r = list(&["branch", "-m", old_name, new_name]);
    assert(strs(r@) =~= seq!["branch"@, "-m"@, old_name@, new_name@]);
    r
}

/// What is said where git refuses.
pub fn rename_failed(old_name: &str, new_name: &str, stderr: &str) -> (r: String)
    ensures
        r@ == "Failed to rename '"@ + old_name@ + "' to '"@ + new_name@ + ("': "@ + trim_of(stderr@)),
{
    let end = cat2("': ", trim(stderr).as_str());
    cat5("Failed to rename '", old_name, "' to '", new_name, end.as_str())
}

/// What is said where the record of worktrees could not be written, and the branch has its old name
/// back or not.
pub fn record_failed(old_name: &str, new_name: &str, rolled_back: bool) -> (r: String)
    ensures
        r@ == if rolled_back {
            "Failed to update worktree metadata; rolled the rename of '"@ + old_name@ + "' back"@
        } else {
            "Failed to update worktree metadata AND failed to roll back the rename. Branch is now '"@
                + new_name@ + "' but its worktree record still says '"@ + old_name@
                + "'; rename it back manually or fix the metadata."@
        },
{
    if rolled_back {
        cat3("Failed to update worktree metadata; rolled the rename of '", old_name, "' back")
    } else {
        cat5(
            "Failed to update worktree metadata AND failed to roll back the rename. Branch is now '",
            new_name,
            "' but its worktree record still says '",
            old_name,
            "'; rename it back manually or fix the metadata.",
        )
    }
}

/// A branch gets another name exactly where no operation is under way, it is there, it is not the base
/// of stacks, the new name neither is that of the base nor stands in front of it, the main worktree is
/// not bound to it, and no branch has that name. The same name is always fine.
pub proof fn law_when_a_branch_is_renamed(old_name: Seq<char>, new_name: Seq<char>, f: RenameFacts)
    ensures
        rename_problem(old_name, new_name, f) is None <==> !f.in_progress && f.old_exists && (
        old_name == new_name || (!f.new_exists && opt_string(f.main_branch) != Some(old_name) && (
        f.upstream matches Some(u) ==> u@ != old_name && u@ != new_name && short_base(
            u@,
            strs(f.remotes@),
        ) != new_name))),
{
}

} // verus!
