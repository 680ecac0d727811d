mod clock;
pub mod commands;
pub mod boundary;
pub mod boundary_laws;
pub mod component;
pub mod editor;
pub mod floating;
pub mod floating_laws;
pub mod git_version;
pub mod graph;
pub mod head;
pub mod lists;
pub mod names;
pub mod oplog;
pub mod oplog_laws;
pub mod oplog_restore;
pub mod oid;
pub mod stack;
pub mod stack_laws;
pub mod text;
pub mod text_laws;
pub mod rebase_utils;
pub mod runtime;
pub mod overrides;
pub mod overrides_flow;
pub mod overrides_laws;
pub mod rebase_laws;
pub mod rebase_loop;
pub mod interaction;
pub mod worktree;
