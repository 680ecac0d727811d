pub mod abort_cmd;
pub mod absorb;
pub mod checkout;
pub mod checkout_laws;
pub mod commit;
pub mod commit_args;
pub mod commit_args_laws;
pub mod commit_laws;
pub mod commit_plan;
pub mod continue_cmd;
pub mod guard;
pub mod overrides;
pub mod pr_merge;
pub mod pr_merge_laws;
pub mod prompt;
pub mod push;
pub mod push_laws;
pub mod push_send;
pub mod rename;
pub mod reorder;
pub mod reorder_laws;
pub mod restack;
pub mod run;
pub mod settings;
pub mod settings_laws;
pub mod shell_init;
pub mod split;
pub mod split_apply;
pub mod split_changes;
pub mod split_laws;
pub mod status_cmd;
pub mod tree;
pub mod tree_laws;
pub mod tree_shape;
pub mod worktree;
