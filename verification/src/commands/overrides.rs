//! The subcommands of `kin overrides`.

use vstd::prelude::*;

verus! {

#[derive(Debug, Clone, Copy, PartialEq, Eq, Structural)]
pub enum OverridesSubcommand {
    /// Puts overrides in place, or tries again after a failure.
    Apply,
    /// Restores the files of the repository and disables overrides in this worktree.
    Remove,
    /// Shows the files compared with the last commit.
    Diff,
}

} // verus!
