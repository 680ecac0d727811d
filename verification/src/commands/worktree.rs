//! The subcommands of `kin wt`.

use crate::text::opt_string;
use vstd::prelude::*;

verus! {

#[derive(Debug)]
pub enum WorktreeSubcommand {
    List,
    Main,
    Review(ReviewArgs),
    Temp(TempArgs),
    Add(AddArgs),
    Path(PathArgs),
    Cd(PathArgs),
    Remove(RemoveArgs),
    Cleanup(CleanupArgs),
}

#[derive(Debug)]
pub struct ReviewArgs {
    /// The branch, or none for the current one.
    pub branch: Option<String>,
    pub force: bool,
}

/// A branch, or a new branch and where it starts.
#[derive(Debug)]
pub struct NewBranchOrTargetArgs {
    pub new_branch: Option<String>,
    pub target: Option<String>,
}

#[derive(Debug)]
pub struct TempArgs {
    pub branch: NewBranchOrTargetArgs,
}

#[derive(Debug)]
pub struct AddArgs {
    pub branch: NewBranchOrTargetArgs,
    pub path: Option<String>,
}

#[derive(Debug)]
pub struct PathArgs {
    /// `main`, `review`, or the branch of a temporary worktree.
    pub target: String,
}

#[derive(Debug)]
pub struct RemoveArgs {
    pub target: String,
    pub force: bool,
    pub with_branch: bool,
    pub keep_branch: bool,
}

#[derive(Debug)]
pub struct CleanupArgs {
    pub force: bool,
    pub keep_branch: bool,
}

/// What `kin wt` does; without a subcommand it lists.
#[derive(Debug, Clone, Copy, PartialEq, Eq, Structural)]
pub enum WorktreeAction {
    List,
    EnsureMain,
    EnsureReview,
    /// A temporary worktree for a branch that is there.
    EnsureTemp,
    /// A temporary worktree for a new branch.
    EnsureTempNewBranch,
    EnsureAdded,
    PrintPath,
    /// The path is printed, and a terminal is told that this alone changes no directory.
    PrintPathForCd,
    Remove,
    Cleanup,
}

/// What `kin wt` does.
pub fn worktree(subcommand: &Option<WorktreeSubcommand>) -> (r: WorktreeAction)
    ensures
        r == match *subcommand {
            None => WorktreeAction::List,
            Some(WorktreeSubcommand::List) => WorktreeAction::List,
            Some(WorktreeSubcommand::Main) => WorktreeAction::EnsureMain,
            Some(WorktreeSubcommand::Review(_)) => WorktreeAction::EnsureReview,
            Some(WorktreeSubcommand::Temp(args)) => if args.branch.new_branch is Some {
                WorktreeAction::EnsureTempNewBranch
            } else {
                WorktreeAction::EnsureTemp
            },
            Some(WorktreeSubcommand::Add(_)) => WorktreeAction::EnsureAdded,
            Some(WorktreeSubcommand::Path(_)) => WorktreeAction::PrintPath,
            Some(WorktreeSubcommand::Cd(_)) => WorktreeAction::PrintPathForCd,
            Some(WorktreeSubcommand::Remove(_)) => WorktreeAction::Remove,
            Some(WorktreeSubcommand::Cleanup(_)) => WorktreeAction::Cleanup,
        },
{
    match subcommand {
        None => WorktreeAction::List,
        Some(WorktreeSubcommand::List) => WorktreeAction::List,
        Some(WorktreeSubcommand::Main) => WorktreeAction::EnsureMain,
        Some(WorktreeSubcommand::Review(_)) => WorktreeAction::EnsureReview,
        Some(WorktreeSubcommand::Temp(args)) => if args.branch.new_branch.is_some() {
            WorktreeAction::EnsureTempNewBranch
        } else {
            WorktreeAction::EnsureTemp
        },
        Some(WorktreeSubcommand::Add(_)) => WorktreeAction::EnsureAdded,
        Some(WorktreeSubcommand::Path(_)) => WorktreeAction::PrintPath,
        Some(WorktreeSubcommand::Cd(_)) => WorktreeAction::PrintPathForCd,
        Some(WorktreeSubcommand::Remove(_)) => WorktreeAction::Remove,
        Some(WorktreeSubcommand::Cleanup(_)) => WorktreeAction::Cleanup,
    }
}

/// What is said to a terminal behind the path of `kin wt cd`.
pub fn cd_note(stdout_is_terminal: bool) -> (r: Option<String>)
    ensures
        opt_string(r) == if stdout_is_terminal {
            Some(
                "note: 'kin wt cd' only changes directory with shell integration active. Enable it by adding `eval \"$(kin shell-init <shell>)\"` (bash/zsh) or `kin shell-init fish | source` to your shell config."@,
            )
        } else {
            None
        },
{
    if stdout_is_terminal {
        Some(
            "note: 'kin wt cd' only changes directory with shell integration active. Enable it by adding `eval \"$(kin shell-init <shell>)\"` (bash/zsh) or `kin shell-init fish | source` to your shell config.".to_owned(),
        )
    } else {
        None
    }
}

} // verus!
