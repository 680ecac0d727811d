pub mod cleanup;
pub mod config;
pub mod config_laws;
pub mod git;
pub mod hooks;
pub mod laws;
pub mod listing;
pub mod metadata;
pub mod path_resolver;
pub mod removal;
pub mod roles;
pub mod steps;
pub mod ui;

use vstd::prelude::*;

verus! {

/// What a managed worktree is for.
#[derive(Debug, Clone, Copy, PartialEq, Eq, Hash, Structural)]
pub enum WorktreeRole {
    Main,
    Review,
    Temp,
}

impl WorktreeRole {
    pub open spec fn text(self) -> Seq<char> {
        match self {
            WorktreeRole::Main => "main"@,
            WorktreeRole::Review => "review"@,
            WorktreeRole::Temp => "temp"@,
        }
    }

    pub fn as_str(self) -> (r: &'static str)
        ensures
            r@ == self.text(),
    {
        match self {
            WorktreeRole::Main => "main",
            WorktreeRole::Review => "review",
            WorktreeRole::Temp => "temp",
        }
    }
}

} // verus!
