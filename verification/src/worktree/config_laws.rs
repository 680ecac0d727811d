//! What the settings of worktrees say, and what is run for them.

use crate::text::{lemma_index_of_char_is, split_once_text_of, trim_of};
use crate::worktree::config::{
    config_problem, configured, trunk_branch, RawWorktreeConfig, WorktreeConfig, DEFAULT_ROOT,
};
use crate::worktree::hooks::{hooks_in, role_hooks, shown_output, worktree_env, HookEvent};
use crate::worktree::config::HookListConfig;
use crate::worktree::metadata::{is_for, last_for, ManagedWorktreeRecord};
use crate::worktree::path_resolver::{joined, normalized, within};
use crate::worktree::ui::{column_widths, WorktreeListRow};
use crate::worktree::WorktreeRole;
use vstd::prelude::*;
use vstd::utf8::encode_utf8;

verus! {

/// The branch of the trunk. A local reference and a local branch are that branch; a remote reference
/// and a branch of a remote are the branch behind the remote; a blank setting is `main`.
pub proof fn law_trunk_is_a_branch(
    branch: Seq<char>,
    remote: Seq<char>,
    locals: Seq<Seq<char>>,
    remotes: Seq<Seq<char>>,
)
    requires
        !remote.contains('/'),
    ensures
        ({
            let local = "refs/heads/"@ + branch;
            let far = "refs/remotes/"@ + remote + seq!['/'] + branch;
            let short = remote + seq!['/'] + branch;
            &&& trim_of(local) == local ==> trunk_branch(local, locals, remotes) == branch
            &&& trim_of(branch) == branch && branch.len() > 0 && locals.contains(branch)
                && !"refs/heads/"@.is_prefix_of(branch) ==> trunk_branch(branch, locals, remotes)
                == branch
            &&& trim_of(far) == far && !locals.contains(far) ==> trunk_branch(far, locals, remotes)
                == branch
            &&& trim_of(short) == short && !locals.contains(short) && remotes.contains(short)
                && remote != "refs"@ ==> trunk_branch(short, locals, remotes) == branch
        }),
        forall|blank: Seq<char>|
            trim_of(blank).len() == 0 ==> #[trigger] trunk_branch(blank, locals, remotes)
                == "main"@,
{
    reveal_strlit("refs/heads/");
    reveal_strlit("refs/remotes/");
    reveal_strlit("refs");
    let local = "refs/heads/"@ + branch;
    assert("refs/heads/"@.is_prefix_of(local));
    assert(local.skip("refs/heads/"@.len() as int) =~= branch);
    let short = remote + seq!['/'] + branch;
    let far = "refs/remotes/"@ + remote + seq!['/'] + branch;
    assert(far =~= "refs/remotes/"@ + short);
    assert("refs/remotes/"@.is_prefix_of(far));
    assert(far.skip("refs/remotes/"@.len() as int) =~= short);
    assert(!"refs/heads/"@.is_prefix_of(far)) by {
        assert(far[5] == 'r');
        assert("refs/heads/"@[5] == 'h');
    }
    assert forall|i: int| 0 <= i < remote.len() implies short[i] != '/' by {
        assert(remote.contains(remote[i]));
    }
    lemma_index_of_char_is(short, '/', remote.len() as int);
    assert(short.take(remote.len() as int) =~= remote);
    assert(short.skip(remote.len() as int + 1) =~= branch);
    if "refs/heads/"@.is_prefix_of(short) || "refs/remotes/"@.is_prefix_of(short) {
        assert(short[4] == '/') by {
            if "refs/heads/"@.is_prefix_of(short) {
                assert("refs/heads/"@[4] == short[4]);
            } else {
                assert("refs/remotes/"@[4] == short[4]);
            }
        }
        assert(forall|i: int| 0 <= i < 4 ==> short[i] != '/') by {
            if "refs/heads/"@.is_prefix_of(short) {
                assert(short[0] == "refs/heads/"@[0] && short[1] == "refs/heads/"@[1] && short[2]
                    == "refs/heads/"@[2] && short[3] == "refs/heads/"@[3]);
            } else {
                assert(short[0] == "refs/remotes/"@[0] && short[1] == "refs/remotes/"@[1]
                    && short[2] == "refs/remotes/"@[2] && short[3] == "refs/remotes/"@[3]);
            }
        }
        lemma_index_of_char_is(short, '/', 4);
        assert(remote =~= "refs"@) by {
            assert(remote.len() == 4);
            assert(remote[0] == short[0] && remote[1] == short[1] && remote[2] == short[2]
                && remote[3] == short[3]);
            if "refs/heads/"@.is_prefix_of(short) {
                assert(short[0] == "refs/heads/"@[0] && short[1] == "refs/heads/"@[1] && short[2]
                    == "refs/heads/"@[2] && short[3] == "refs/heads/"@[3]);
            } else {
                assert(short[0] == "refs/remotes/"@[0] && short[1] == "refs/remotes/"@[1]
                    && short[2] == "refs/remotes/"@[2] && short[3] == "refs/remotes/"@[3]);
            }
        }
    }
}

/// Where the file says nothing, everything is on but switching the branch of the main worktree, the
/// worktrees lie under the default root, and the trunk is the upstream.
pub proof fn law_settings_by_default(
    c: WorktreeConfig,
    base: Seq<char>,
    raw: RawWorktreeConfig,
    upstream: Option<Seq<char>>,
    locals: Seq<Seq<char>>,
    remotes: Seq<Seq<char>>,
)
    requires
        configured(c, base, raw, upstream, locals, remotes),
    ensures
        raw.main.enabled is None ==> c.main.enabled,
        raw.review.enabled is None ==> c.review.enabled,
        raw.temp.enabled is None ==> c.temp.enabled,
        raw.main.allow_branch_switch is None ==> !c.main.allow_branch_switch,
        raw.review.reuse is None ==> c.review.reuse,
        raw.review.clean_before_switch is None ==> c.review.clean_before_switch,
        raw.temp.delete_merged is None ==> c.temp.delete_merged,
        raw.root is None ==> c.root@ == normalized(normalized(joined(base, DEFAULT_ROOT@))),
        raw.root is None && raw.main.path is None ==> c.main.path@ == normalized(
            joined(normalized(joined(base, DEFAULT_ROOT@)), "main"@),
        ),
        raw.root is None && raw.review.path is None ==> c.review.path@ == normalized(
            joined(normalized(joined(base, DEFAULT_ROOT@)), "review"@),
        ),
        raw.root is None && raw.temp.path_template is None ==> c.temp.path_template@ == normalized(
            joined(normalized(joined(base, DEFAULT_ROOT@)), "temp/{branch}"@),
        ),
        raw.trunk is None && raw.upstream_branch is None ==> c.trunk@ == match upstream {
            Some(u) => u,
            None => "main"@,
        },
{
}

/// What the file says is taken at its word: a switch that is set is as it is set, a path that is set is
/// seen from the repository, and a branch that is set is that branch without the space around it.
pub proof fn law_settings_as_written(
    c: WorktreeConfig,
    base: Seq<char>,
    raw: RawWorktreeConfig,
    upstream: Option<Seq<char>>,
    locals: Seq<Seq<char>>,
    remotes: Seq<Seq<char>>,
)
    requires
        configured(c, base, raw, upstream, locals, remotes),
    ensures
        raw.main.enabled matches Some(b) ==> c.main.enabled == b,
        raw.review.enabled matches Some(b) ==> c.review.enabled == b,
        raw.temp.enabled matches Some(b) ==> c.temp.enabled == b,
        raw.main.allow_branch_switch matches Some(b) ==> c.main.allow_branch_switch == b,
        raw.review.reuse matches Some(b) ==> c.review.reuse == b,
        raw.review.clean_before_switch matches Some(b) ==> c.review.clean_before_switch == b,
        raw.temp.delete_merged matches Some(b) ==> c.temp.delete_merged == b,
        raw.main.path matches Some(p) ==> c.main.path@ == normalized(joined(base, p@)),
        raw.review.path matches Some(p) ==> c.review.path@ == normalized(joined(base, p@)),
        raw.temp.path_template matches Some(p) ==> c.temp.path_template@ == normalized(
            joined(base, p@),
        ),
        raw.trunk matches Some(t) ==> trim_of(t@).len() > 0 ==> c.trunk@ == trim_of(t@),
        raw.trunk is None ==> (raw.upstream_branch matches Some(t) ==> trim_of(t@).len() > 0
            ==> c.trunk@ == trim_of(t@)),
        raw.main.branch matches Some(b) ==> trim_of(b@).len() > 0 ==> c.main.branch@ == trim_of(b@),
        raw.main.branch is None ==> c.main.branch@ == trunk_branch(c.trunk@, locals, remotes),
        c.main.hooks.on_create@ == raw.main.hooks.on_create@,
        c.main.hooks.on_checkout@ == raw.main.hooks.on_checkout@,
        c.main.hooks.on_remove@ == raw.main.hooks.on_remove@,
        c.review.hooks.on_create@ == raw.review.hooks.on_create@,
        c.review.hooks.on_checkout@ == raw.review.hooks.on_checkout@,
        c.review.hooks.on_remove@ == raw.review.hooks.on_remove@,
        c.temp.hooks.on_create@ == raw.temp.hooks.on_create@,
        c.temp.hooks.on_checkout@ == raw.temp.hooks.on_checkout@,
        c.temp.hooks.on_remove@ == raw.temp.hooks.on_remove@,
        c.hooks.on_create@ == raw.hooks.on_create@,
        c.hooks.on_checkout@ == raw.hooks.on_checkout@,
        c.hooks.on_remove@ == raw.hooks.on_remove@,
{
}

/// Settings are accepted exactly where, of what is switched on, the main worktree has a branch and stays
/// on it, main and review worktree are apart, the template has a place for the branch, and everything
/// lies under the root.
pub proof fn law_which_settings_are_accepted(c: WorktreeConfig)
    ensures
        ({
            let start = split_once_text_of(c.temp.path_template@, "{branch}"@);
            config_problem(c) is None <==> {
                &&& c.main.enabled ==> trim_of(c.main.branch@).len() > 0
                    && !c.main.allow_branch_switch && within(c.root@, c.main.path@)
                &&& c.review.enabled ==> within(c.root@, c.review.path@)
                &&& c.main.enabled && c.review.enabled ==> c.main.path@ != c.review.path@
                &&& c.temp.enabled ==> start is Some && within(
                    c.root@,
                    normalized((start->0).0),
                )
            }
        }),
{
}

/// Every role and every event has commands of its own.
pub proof fn law_commands_of_a_role(config: WorktreeConfig, list: HookListConfig)
    ensures
        hooks_in(list, HookEvent::Create) == list.on_create@,
        hooks_in(list, HookEvent::Checkout) == list.on_checkout@,
        hooks_in(list, HookEvent::Remove) == list.on_remove@,
        role_hooks(config, WorktreeRole::Main, HookEvent::Create) == config.main.hooks.on_create@,
        role_hooks(config, WorktreeRole::Main, HookEvent::Checkout)
            == config.main.hooks.on_checkout@,
        role_hooks(config, WorktreeRole::Main, HookEvent::Remove) == config.main.hooks.on_remove@,
        role_hooks(config, WorktreeRole::Review, HookEvent::Create)
            == config.review.hooks.on_create@,
        role_hooks(config, WorktreeRole::Review, HookEvent::Checkout)
            == config.review.hooks.on_checkout@,
        role_hooks(config, WorktreeRole::Review, HookEvent::Remove)
            == config.review.hooks.on_remove@,
        role_hooks(config, WorktreeRole::Temp, HookEvent::Create) == config.temp.hooks.on_create@,
        role_hooks(config, WorktreeRole::Temp, HookEvent::Checkout)
            == config.temp.hooks.on_checkout@,
        role_hooks(config, WorktreeRole::Temp, HookEvent::Remove) == config.temp.hooks.on_remove@,
{
}

/// A command is told the role, the branch and the path of its worktree, each under its own name.
pub proof fn law_commands_know_their_worktree(role: Seq<char>, branch: Seq<char>, path: Seq<char>)
    ensures
        worktree_env(role, branch, path).contains(("KINDRA_WORKTREE_ROLE"@, role)),
        worktree_env(role, branch, path).contains(("KINDRA_WORKTREE_BRANCH"@, branch)),
        worktree_env(role, branch, path).contains(("KINDRA_WORKTREE_PATH"@, path)),
{
    let env = worktree_env(role, branch, path);
    assert(env[0] == ("KINDRA_WORKTREE_ROLE"@, role));
    assert(env[1] == ("KINDRA_WORKTREE_BRANCH"@, branch));
    assert(env[2] == ("KINDRA_WORKTREE_PATH"@, path));
}

/// What a command printed is shown without the space around it, unless that is nothing.
pub proof fn law_output_is_shown(text: Seq<char>)
    ensures
        trim_of(text).len() > 0 ==> shown_output(text) == trim_of(text),
        trim_of(text).len() == 0 ==> shown_output(text) == "<empty>"@,
{
}

/// The record of a branch that counts is the last one for its role.
pub proof fn law_last_record_counts(
    records: Seq<ManagedWorktreeRecord>,
    role: WorktreeRole,
    branch: Seq<char>,
)
    ensures
        ({
            let i = last_for(records, role, branch);
            &&& -1 <= i < records.len()
            &&& i >= 0 ==> records[i].role == role && records[i].branch@ == branch
            &&& forall|j: int|
                i < j < records.len() ==> (#[trigger] records[j]).role != role
                    || records[j].branch@ != branch
        }),
    decreases records.len(),
{
    if records.len() > 0 && !is_for(records.last(), role, branch) {
        let rest = records.drop_last();
        law_last_record_counts(rest, role, branch);
        let i = last_for(records, role, branch);
        if i >= 0 {
            assert(rest[i] == records[i]);
        }
        assert forall|j: int| i < j < records.len() implies (#[trigger] records[j]).role != role
            || records[j].branch@ != branch by {
            if j < rest.len() {
                assert(rest[j] == records[j]);
            }
        }
    }
}

/// Every column of the list has room for its heading and for all of its entries.
pub proof fn law_columns_have_room(rows: Seq<WorktreeListRow>, i: int)
    requires
        0 <= i < rows.len(),
    ensures
        ({
            let (a, b, c) = column_widths(rows);
            &&& encode_utf8(rows[i].role@).len() <= a && "ROLE"@.len() <= a
            &&& encode_utf8(rows[i].branch@).len() <= b && "BRANCH"@.len() <= b
            &&& "STATE"@.len() <= c
        }),
    decreases rows.len(),
{
    if rows.len() == 1 {
        assert(column_widths(rows.drop_last()) == ("ROLE"@.len(), "BRANCH"@.len(), "STATE"@.len()));
    } else {
        let rest = rows.drop_last();
        if i < rest.len() {
            law_columns_have_room(rest, i);
            assert(rest[i] == rows[i]);
        } else {
            law_columns_have_room(rest, 0);
        }
    }
}

} // verus!
