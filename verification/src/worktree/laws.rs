//! Which worktree is meant, which ones go, and how they are listed.

use crate::lists::{chosen, lemma_chosen_next, lemma_chosen_none};
use crate::text::{
    find_text_of, lemma_index_of_char, lemma_index_of_char_is, lemma_text_lt_irreflexive,
    lemma_text_lt_transitive, opt_string, split_once_spec, split_once_text_of, text_lt, trim_of,
};
use crate::text_laws::law_every_place_is_replaced;
use crate::worktree::cleanup::{cleanup_list, put_in_order, CleanupCandidate};
use crate::worktree::config::WorktreeConfig;
use crate::worktree::git::{by_path, listing, listing_step, remote_of, switch_args, LiveView, LiveWorktree};
use crate::worktree::listing::{parts_lt, put_row, row_lt, row_of, rows_for, state_of, RowView};
use crate::worktree::path_resolver::{joined, normalized, path_parts, sanitized, within};
use crate::worktree::removal::{
    auto_deletes, branches_gone, conflicts, dirty_ones, index_other, wants_branch_gone, RemoveResult,
};
use crate::worktree::roles::{
    add_path, given_path, index_live_on, index_temp_on, live_of_branch, requested, role_of,
    target_branch, temp_path_free, temp_path_of, template_path,
};
use crate::worktree::WorktreeRole;
use vstd::prelude::*;

verus! {

/// A path has the main role exactly where it is that of the main worktree, the review role where it is
/// that of the review worktree, and else that of a temporary worktree where those are in use and it
/// lies in the directory that the template begins with.
pub proof fn law_role_of_a_path(config: WorktreeConfig, path: Seq<char>)
    ensures
        ({
            let main = path == normalized(config.main.path@);
            let review = path == normalized(config.review.path@);
            let start = split_once_text_of(config.temp.path_template@, "{branch}"@);
            &&& role_of(config, path) == Some(Some(WorktreeRole::Main)) <==> main
            &&& role_of(config, path) == Some(Some(WorktreeRole::Review)) <==> !main && review
            &&& role_of(config, path) == Some(Some(WorktreeRole::Temp)) <==> !main && !review
                && config.temp.enabled && start is Some && within(normalized((start->0).0), path)
            &&& role_of(config, path) is None <==> !main && !review && config.temp.enabled && start
                is None
        }),
{
}

/// Worktree `i` is the last one on the path.
pub open spec fn is_last_on(live: Seq<LiveWorktree>, path: Seq<char>, i: int) -> bool {
    0 <= i < live.len() && normalized(live[i].path@) == path && forall|j: int|
        i < j < live.len() ==> normalized((#[trigger] live[j]).path@) != path
}

/// The worktree on a path is the last one that git lists on it; there is none only where git lists
/// none.
pub proof fn law_worktree_on_a_path(live: Seq<LiveWorktree>, path: Seq<char>)
    ensures
        by_path(live).contains_key(path) ==> exists|i: int| #[trigger]
            is_last_on(live, path, i) && by_path(live)[path] == live[i],
        by_path(live).contains_key(path) <==> exists|i: int|
            0 <= i < live.len() && normalized((#[trigger] live[i]).path@) == path,
    decreases live.len(),
{
    if live.len() > 0 {
        let rest = live.drop_last();
        let n = live.len() - 1;
        law_worktree_on_a_path(rest, path);
        assert(live[n] == live.last());
        if normalized(live[n].path@) == path {
            assert(is_last_on(live, path, n));
        } else {
            if by_path(rest).contains_key(path) {
                let i = choose|i: int| #[trigger]
                    is_last_on(rest, path, i) && by_path(rest)[path] == rest[i];
                assert(rest[i] == live[i]);
                assert forall|j: int| i < j < live.len() implies normalized(
                    (#[trigger] live[j]).path@,
                ) != path by {
                    if j < n {
                        assert(rest[j] == live[j]);
                    }
                }
                assert(is_last_on(live, path, i));
            }
            if exists|i: int| 0 <= i < live.len() && normalized((#[trigger] live[i]).path@) == path {
                let i = choose|i: int|
                    0 <= i < live.len() && normalized((#[trigger] live[i]).path@) == path;
                assert(rest[i] == live[i]);
            }
        }
    }
}

/// The worktree of a branch is the first one that has it checked out.
pub proof fn law_first_worktree_on_a_branch(live: Seq<LiveWorktree>, branch: Seq<char>)
    ensures
        ({
            let i = index_live_on(live, branch);
            &&& 0 <= i <= live.len()
            &&& i < live.len() ==> opt_string(live[i].branch) == Some(branch)
            &&& forall|j: int|
                0 <= j < i ==> opt_string((#[trigger] live[j]).branch) != Some(branch)
        }),
    decreases live.len(),
{
    if live.len() > 0 && opt_string(live[0].branch) != Some(branch) {
        let rest = live.drop_first();
        law_first_worktree_on_a_branch(rest, branch);
        let i = index_live_on(live, branch);
        assert forall|j: int| 0 <= j < i implies opt_string((#[trigger] live[j]).branch) != Some(
            branch,
        ) by {
            if j > 0 {
                assert(rest[j - 1] == live[j]);
            }
        }
    }
}

/// The worktree has the branch and is a temporary one.
pub open spec fn is_temporary_for(
    config: WorktreeConfig,
    w: LiveWorktree,
    branch: Seq<char>,
) -> bool {
    opt_string(w.branch) == Some(branch) && role_of(config, normalized(w.path@)) == Some(
        Some(WorktreeRole::Temp),
    )
}

/// The temporary worktree of a branch is the first one that has it checked out.
pub proof fn law_first_temporary_worktree(
    config: WorktreeConfig,
    live: Seq<LiveWorktree>,
    branch: Seq<char>,
)
    ensures
        ({
            let i = index_temp_on(config, live, branch);
            &&& 0 <= i <= live.len()
            &&& i < live.len() ==> is_temporary_for(config, live[i], branch)
            &&& forall|j: int|
                0 <= j < i ==> !is_temporary_for(config, #[trigger] live[j], branch)
        }),
    decreases live.len(),
{
    if live.len() > 0 && !is_temporary_for(config, live[0], branch) {
        let rest = live.drop_first();
        law_first_temporary_worktree(config, rest, branch);
        let i = index_temp_on(config, live, branch);
        assert forall|j: int| 0 <= j < i implies !is_temporary_for(
            config,
            #[trigger] live[j],
            branch,
        ) by {
            if j > 0 {
                assert(rest[j - 1] == live[j]);
            }
        }
    }
}

/// A temporary worktree takes nobody's place: its path is free where no worktree is on it, or where
/// the one that is there is a temporary one of the same branch.
pub proof fn law_temporary_worktree_takes_nobodys_place(
    config: WorktreeConfig,
    live: Seq<LiveWorktree>,
    branch: Seq<char>,
    path: Seq<char>,
    i: int,
)
    requires
        is_last_on(live, normalized(path), i),
    ensures
        temp_path_free(config, live, branch, path) <==> is_temporary_for(config, live[i], branch),
{
    law_worktree_on_a_path(live, normalized(path));
    let k = choose|k: int| #[trigger]
        is_last_on(live, normalized(path), k) && by_path(live)[normalized(path)] == live[k];
    assert(normalized(live[i].path@) == normalized(path));
    if k < i {
        assert(normalized(live[i].path@) != normalized(path));
    }
    if i < k {
        assert(normalized(live[k].path@) != normalized(path));
    }
}

/// A path that no worktree is on is free.
pub proof fn law_empty_place_is_free(
    config: WorktreeConfig,
    live: Seq<LiveWorktree>,
    branch: Seq<char>,
    path: Seq<char>,
)
    requires
        forall|i: int|
            0 <= i < live.len() ==> normalized((#[trigger] live[i]).path@) != normalized(path),
    ensures
        temp_path_free(config, live, branch, path),
{
    law_worktree_on_a_path(live, normalized(path));
}

/// The words `main` and `review` name the worktrees of those roles; any other word names a branch, and
/// so does one behind `branch:`.
pub proof fn law_target_names_a_branch(target: Seq<char>, branch: Seq<char>)
    ensures
        target_branch("branch:"@ + branch) == Some(branch),
        target_branch("main"@) is None,
        target_branch("review"@) is None,
        target != "main"@ && target != "review"@ && !"branch:"@.is_prefix_of(target)
            ==> target_branch(target) == Some(target),
{
    reveal_strlit("branch:");
    reveal_strlit("main");
    reveal_strlit("review");
    let t = "branch:"@ + branch;
    assert("branch:"@.is_prefix_of(t));
    assert(t.skip("branch:"@.len() as int) =~= branch);
    assert("main"@.len() == 4 && "branch:"@.len() == 7 && "review"@.len() == 6);
}

/// The worktree that is found for a branch is one that git lists: the one where its temporary worktree
/// belongs, or else one that has the branch checked out. None is found only where there is neither.
pub proof fn law_worktree_of_a_branch(
    config: WorktreeConfig,
    live: Seq<LiveWorktree>,
    branch: Seq<char>,
)
    ensures
        ({
            let temp = temp_path_of(config, branch);
            let here = config.temp.enabled && temp is Some && exists|i: int|
                0 <= i < live.len() && normalized((#[trigger] live[i]).path@) == normalized(temp->0);
            match live_of_branch(config, live, branch) {
                Some(w) => {
                    &&& live.contains(w)
                    &&& if here {
                        normalized(w.path@) == normalized(temp->0)
                    } else {
                        opt_string(w.branch) == Some(branch)
                    }
                },
                None => !here && forall|i: int|
                    0 <= i < live.len() ==> opt_string((#[trigger] live[i]).branch) != Some(branch),
            }
        }),
{
    let temp = temp_path_of(config, branch);
    law_first_worktree_on_a_branch(live, branch);
    if temp is Some {
        law_worktree_on_a_path(live, normalized(temp->0));
        if by_path(live).contains_key(normalized(temp->0)) {
            let k = choose|k: int| #[trigger]
                is_last_on(live, normalized(temp->0), k) && by_path(live)[normalized(temp->0)]
                    == live[k];
            assert(live.contains(live[k]));
        }
    }
    let i = index_live_on(live, branch);
    if i < live.len() {
        assert(live.contains(live[i]));
    }
}

/// The name is that of the branch on that remote.
pub open spec fn is_on_remote(name: Seq<char>, remote: Seq<char>, branch: Seq<char>) -> bool {
    !remote.contains('/') && name == remote + seq!['/'] + branch
}

proof fn lemma_on_remote(name: Seq<char>, remote: Seq<char>, branch: Seq<char>)
    ensures
        split_once_spec(name, '/') == Some((remote, branch)) <==> is_on_remote(
            name,
            remote,
            branch,
        ),
{
    lemma_index_of_char(name, '/');
    let at = crate::text::index_of_char(name, '/');
    if at < name.len() {
        assert(name =~= name.take(at) + seq!['/'] + name.skip(at + 1));
        assert(!name.take(at).contains('/')) by {
            if name.take(at).contains('/') {
                let i = name.take(at).index_of('/');
                assert(name[i] == '/');
            }
        }
    }
    if is_on_remote(name, remote, branch) {
        assert forall|i: int| 0 <= i < remote.len() implies name[i] != '/' by {
            assert(remote.contains(remote[i]));
        }
        lemma_index_of_char_is(name, '/', remote.len() as int);
        assert(name.take(remote.len() as int) =~= remote);
        assert(name.skip(remote.len() as int + 1) =~= branch);
    }
}

/// The remote of a branch is that of the first remote branch of its name; there is none only where no
/// remote has it.
pub proof fn law_remote_of_a_branch(names: Seq<Seq<char>>, branch: Seq<char>) -> (i: int)
    ensures
        0 <= i <= names.len(),
        i < names.len() ==> remote_of(names, branch) is Some && is_on_remote(
            names[i],
            remote_of(names, branch)->0,
            branch,
        ),
        i == names.len() ==> remote_of(names, branch) is None,
        forall|j: int, remote: Seq<char>|
            0 <= j < i ==> !#[trigger] is_on_remote(names[j], remote, branch),
    decreases names.len(),
{
    if names.len() == 0 {
        0
    } else {
        assert forall|remote: Seq<char>| #[trigger]
            is_on_remote(names[0], remote, branch) <==> split_once_spec(names[0], '/') == Some(
                (remote, branch),
            ) by {
            lemma_on_remote(names[0], remote, branch);
        }
        let here = split_once_spec(names[0], '/') matches Some((_, name)) && name == branch;
        if here {
            assert(is_on_remote(names[0], remote_of(names, branch)->0, branch));
            0
        } else {
            let rest = names.drop_first();
            let k = law_remote_of_a_branch(rest, branch);
            assert forall|j: int, remote: Seq<char>|
                0 <= j < k + 1 implies !#[trigger] is_on_remote(names[j], remote, branch) by {
                if j > 0 {
                    assert(rest[j - 1] == names[j]);
                }
            }
            k + 1
        }
    }
}

/// The worktrees that git lists are read in its order, each with its path in plainest form and with
/// the branch that is checked out there, or without one.
pub proof fn law_listed_worktree_is_read(lines: Seq<Seq<char>>, path: Seq<char>, branch: Seq<char>)
    requires
        listing(lines).path is None,
        listing(lines).branch is None,
        !listing(lines).detached,
        trim_of(path) == path,
        trim_of("refs/heads/"@ + branch) == "refs/heads/"@ + branch,
    ensures
        ({
            let start = lines.push("worktree "@ + path);
            let on_branch = listing(start.push("branch refs/heads/"@ + branch).push(""@));
            let on_none = listing(start.push("detached"@).push(""@));
            &&& on_branch.done == listing(lines).done.push(
                (LiveView { path: normalized(path), branch: Some(branch), detached: false }),
            )
            &&& on_branch.path is None && on_branch.branch is None && !on_branch.detached
            &&& on_none.done == listing(lines).done.push(
                (LiveView { path: normalized(path), branch: None, detached: true }),
            )
            &&& on_none.path is None && on_none.branch is None && !on_none.detached
        }),
{
    reveal_strlit("worktree ");
    reveal_strlit("branch ");
    reveal_strlit("refs/heads/");
    reveal_strlit("branch refs/heads/");
    reveal_strlit("detached");
    reveal_strlit("");
    let first = "worktree "@ + path;
    let start = lines.push(first);
    let second = "branch refs/heads/"@ + branch;
    assert(second =~= "branch "@ + ("refs/heads/"@ + branch));
    assert("worktree "@.is_prefix_of(first));
    assert("branch "@.is_prefix_of(second));
    assert(!"worktree "@.is_prefix_of(second)) by {
        assert(second[0] == 'b');
        assert("worktree "@[0] == 'w');
    }
    assert(first.skip("worktree "@.len() as int) =~= path);
    assert(second.skip("branch "@.len() as int) =~= "refs/heads/"@ + branch);
    assert("refs/heads/"@.is_prefix_of("refs/heads/"@ + branch));
    assert(("refs/heads/"@ + branch).skip("refs/heads/"@.len() as int) =~= branch);
    assert(start.drop_last() =~= lines);
    let mid = start.push(second);
    assert(mid.drop_last() =~= start);
    assert(mid.push(""@).drop_last() =~= mid);
    let alone = start.push("detached"@);
    assert("detached"@[0] == 'd');
    assert(!"worktree "@.is_prefix_of("detached"@)) by {
        assert("worktree "@[0] == 'w');
    }
    assert(!"branch "@.is_prefix_of("detached"@)) by {
        assert("branch "@[0] == 'b');
    }
    assert(alone.drop_last() =~= start);
    assert(alone.push(""@).drop_last() =~= alone);
    assert(""@.len() == 0);
    let before = listing(lines);
    assert(listing(start) == listing_step(before, first));
    assert(listing(start).path == Some(path));
    assert(listing(mid) == listing_step(listing(start), second));
    assert(listing(mid).branch == Some(branch));
    assert(listing(mid.push(""@)) == listing_step(listing(mid), ""@));
    assert(listing(alone) == listing_step(listing(start), "detached"@));
    assert(listing(alone).detached);
    assert(listing(alone.push(""@)) == listing_step(listing(alone), ""@));
}

/// The worktrees that are cleaned up: temporary ones that are there, with a merged branch.
pub open spec fn goes_with_its_branch(
    config: WorktreeConfig,
    w: LiveWorktree,
    on_disk: bool,
    merged: Seq<Seq<char>>,
) -> bool {
    &&& role_of(config, normalized(w.path@)) == Some(Some(WorktreeRole::Temp))
    &&& on_disk
    &&& w.branch matches Some(b) && merged.contains(b@)
}

proof fn lemma_put_in_order_multiset(list: Seq<LiveWorktree>, w: LiveWorktree)
    ensures
        put_in_order(list, w).to_multiset() == list.to_multiset().insert(w),
    decreases list.len(),
{
    broadcast use vstd::seq_lib::group_to_multiset_ensures;

    if list.len() == 0 || !text_lt(w.branch->0@, list.last().branch->0@) {
    } else {
        lemma_put_in_order_multiset(list.drop_last(), w);
        let inner = put_in_order(list.drop_last(), w);
        assert(list =~= list.drop_last().push(list.last()));
        assert(inner.push(list.last()).to_multiset() =~= list.to_multiset().insert(w));
    }
}

/// Every worktree that can be cleaned up is, once, and no other.
pub proof fn law_cleanup_is_complete(
    config: WorktreeConfig,
    live: Seq<LiveWorktree>,
    on_disk: Seq<bool>,
    merged: Seq<Seq<char>>,
    n: int,
)
    requires
        0 <= n <= live.len(),
    ensures
        cleanup_list(config, live, on_disk, merged, n).to_multiset() == chosen(
            n,
            |k: int| goes_with_its_branch(config, live[k], on_disk[k], merged),
            |k: int| live[k],
        ).to_multiset(),
    decreases n,
{
    broadcast use vstd::seq_lib::group_to_multiset_ensures;

    let keep = |k: int| goes_with_its_branch(config, live[k], on_disk[k], merged);
    let give = |k: int| live[k];
    if n > 0 {
        law_cleanup_is_complete(config, live, on_disk, merged, n - 1);
        lemma_chosen_next(n - 1, keep, give);
        lemma_put_in_order_multiset(
            cleanup_list(config, live, on_disk, merged, n - 1),
            live[n - 1],
        );
    } else {
        lemma_chosen_none(keep, give);
    }
}

/// The order of paths is that of the first parts in which they differ; a path comes before those that
/// lie under it.
pub proof fn law_paths_are_ordered_by_their_parts(a: Seq<Seq<char>>, b: Seq<Seq<char>>, k: int)
    requires
        0 <= k <= a.len(),
        k <= b.len(),
        forall|i: int| 0 <= i < k ==> a[i] == b[i],
        k < a.len() && k < b.len() ==> a[k] != b[k],
    ensures
        k < a.len() && k < b.len() ==> parts_lt(a, b) == text_lt(a[k], b[k]),
        k == a.len() ==> parts_lt(a, b) == (k < b.len()),
        k == b.len() ==> !parts_lt(a, b),
    decreases k,
{
    if k > 0 {
        let x = a.drop_first();
        let y = b.drop_first();
        assert(a[0] == b[0]);
        assert forall|i: int| 0 <= i < k - 1 implies x[i] == y[i] by {
            assert(a[i + 1] == b[i + 1]);
        }
        law_paths_are_ordered_by_their_parts(x, y, k - 1);
    }
}

proof fn lemma_text_lt_one_way(a: Seq<char>, b: Seq<char>)
    requires
        text_lt(a, b),
    ensures
        !text_lt(b, a),
        a != b,
{
    lemma_text_lt_irreflexive(a);
    if text_lt(b, a) {
        lemma_text_lt_transitive(a, b, a);
    }
}

proof fn lemma_parts_lt_one_way(a: Seq<Seq<char>>, b: Seq<Seq<char>>)
    requires
        parts_lt(a, b),
    ensures
        !parts_lt(b, a),
    decreases a.len(),
{
    if a.len() > 0 && b.len() > 0 {
        if a[0] == b[0] {
            lemma_parts_lt_one_way(a.drop_first(), b.drop_first());
        } else {
            lemma_text_lt_one_way(a[0], b[0]);
        }
    }
}

proof fn lemma_row_lt_one_way(a: RowView, b: RowView)
    requires
        row_lt(a, b),
    ensures
        !row_lt(b, a),
{
    lemma_text_lt_irreflexive(a.role);
    lemma_text_lt_irreflexive(a.branch);
    if text_lt(a.role, b.role) {
        lemma_text_lt_one_way(a.role, b.role);
    } else if text_lt(a.branch, b.branch) {
        lemma_text_lt_one_way(a.branch, b.branch);
    } else {
        lemma_parts_lt_one_way(path_parts(a.path), path_parts(b.path));
    }
}

/// Rows are ordered by role, rows of the same role by branch, and those by path.
pub proof fn law_rows_are_ordered(a: RowView, b: RowView)
    ensures
        a.role != b.role ==> row_lt(a, b) == text_lt(a.role, b.role),
        a.role == b.role && a.branch != b.branch ==> row_lt(a, b) == text_lt(a.branch, b.branch),
        a.role == b.role && a.branch == b.branch ==> row_lt(a, b) == parts_lt(
            path_parts(a.path),
            path_parts(b.path),
        ),
{
    lemma_text_lt_irreflexive(a.role);
    lemma_text_lt_irreflexive(a.branch);
}

/// No row comes before the one above it.
pub open spec fn rows_descend(rows: Seq<RowView>) -> bool {
    forall|i: int, j: int|
        0 <= i < rows.len() && j == i + 1 && j < rows.len() ==> !row_lt(
            #[trigger] rows[j],
            #[trigger] rows[i],
        )
}

proof fn lemma_put_row(rows: Seq<RowView>, row: RowView)
    requires
        rows_descend(rows),
    ensures
        rows_descend(put_row(rows, row)),
        put_row(rows, row).len() > 0,
        put_row(rows, row).last() == row || rows.len() > 0 && put_row(rows, row).last()
            == rows.last(),
        put_row(rows, row).to_multiset() == rows.to_multiset().insert(row),
    decreases rows.len(),
{
    broadcast use vstd::seq_lib::group_to_multiset_ensures;

    let after = put_row(rows, row);
    if rows.len() == 0 || !row_lt(row, rows.last()) {
        assert forall|i: int, j: int|
            0 <= i < after.len() && j == i + 1 && j < after.len() implies !row_lt(
            #[trigger] after[j],
            #[trigger] after[i],
        ) by {
            assert(after[i] == rows[i]);
            if j < rows.len() {
                assert(after[j] == rows[j]);
            } else {
                assert(rows[i] == rows.last());
            }
        }
    } else {
        let fewer = rows.drop_last();
        let last = rows.last();
        assert forall|i: int, j: int|
            0 <= i < fewer.len() && j == i + 1 && j < fewer.len() implies !row_lt(
            #[trigger] fewer[j],
            #[trigger] fewer[i],
        ) by {
            assert(fewer[i] == rows[i] && fewer[j] == rows[j]);
        }
        lemma_put_row(fewer, row);
        let inner = put_row(fewer, row);
        assert(rows =~= fewer.push(last));
        assert(after.to_multiset() =~= rows.to_multiset().insert(row));
        lemma_row_lt_one_way(row, last);
        assert forall|i: int, j: int|
            0 <= i < after.len() && j == i + 1 && j < after.len() implies !row_lt(
            #[trigger] after[j],
            #[trigger] after[i],
        ) by {
            assert(after[i] == inner[i]);
            if j < inner.len() {
                assert(after[j] == inner[j]);
            } else {
                assert(inner[i] == inner.last());
                if inner.last() != row {
                    assert(fewer[fewer.len() - 1] == rows[fewer.len() - 1]);
                    assert(!row_lt(rows[rows.len() - 1], rows[rows.len() - 2]));
                }
            }
        }
    }
}

/// The list holds the row of every worktree, and none comes before the one above it.
pub proof fn law_list_is_complete_and_in_order(
    config: WorktreeConfig,
    live: Seq<LiveWorktree>,
    on_disk: Seq<bool>,
    dirty: Seq<bool>,
    current: Seq<char>,
    merged: Seq<Seq<char>>,
    n: int,
)
    requires
        0 <= n <= live.len(),
    ensures
        rows_descend(rows_for(config, live, on_disk, dirty, current, merged, n)),
        rows_for(config, live, on_disk, dirty, current, merged, n).to_multiset() == Seq::new(
            n as nat,
            |k: int| row_of(config, live[k], on_disk[k], dirty[k], current, merged),
        ).to_multiset(),
    decreases n,
{
    broadcast use vstd::seq_lib::group_to_multiset_ensures;

    let all = Seq::new(
        n as nat,
        |k: int| row_of(config, live[k], on_disk[k], dirty[k], current, merged),
    );
    if n > 0 {
        law_list_is_complete_and_in_order(config, live, on_disk, dirty, current, merged, n - 1);
        let before = Seq::new(
            (n - 1) as nat,
            |k: int| row_of(config, live[k], on_disk[k], dirty[k], current, merged),
        );
        let row = row_of(config, live[n - 1], on_disk[n - 1], dirty[n - 1], current, merged);
        lemma_put_row(rows_for(config, live, on_disk, dirty, current, merged, n - 1), row);
        assert(all =~= before.push(row));
    } else {
        assert(all =~= Seq::<RowView>::empty());
    }
}

/// A worktree is said to be missing where its directory is; else dirty where it has changes, and
/// current where the user is in it; and merged where it is a temporary one whose branch is.
pub proof fn law_state_is_told(
    w: LiveWorktree,
    role: Option<WorktreeRole>,
    on_disk: bool,
    dirty: bool,
    current: Seq<char>,
    merged: Seq<Seq<char>>,
)
    ensures
        ({
            let state = state_of(w, role, on_disk, dirty, current, merged);
            &&& state.contains("missing"@) <==> !on_disk
            &&& state.contains("dirty"@) <==> on_disk && dirty
            &&& state.contains("current"@) <==> on_disk && normalized(w.path@) == normalized(
                current,
            )
            &&& state.contains("merged"@) <==> role == Some(WorktreeRole::Temp) && (w.branch matches
                Some(b) && merged.contains(b@))
            &&& state.no_duplicates()
        }),
{
    reveal_strlit("missing");
    reveal_strlit("dirty");
    reveal_strlit("current");
    reveal_strlit("merged");
    assert("missing"@[0] == 'm' && "missing"@[1] == 'i');
    assert("dirty"@[0] == 'd');
    assert("current"@[0] == 'c');
    assert("merged"@[0] == 'm' && "merged"@[1] == 'e');
    let state = state_of(w, role, on_disk, dirty, current, merged);
    let m = role == Some(WorktreeRole::Temp) && w.branch is Some && merged.contains(w.branch->0@);
    let c = normalized(w.path@) == normalized(current);
    let end = if m {
        seq!["merged"@]
    } else {
        seq![]
    };
    if !on_disk {
        assert(state[0] == "missing"@);
        assert(m ==> state[1] == "merged"@);
        assert(state =~= seq!["missing"@] + end);
    } else if dirty && c {
        assert(state =~= seq!["dirty"@, "current"@] + end);
        assert(state[0] == "dirty"@ && state[1] == "current"@);
        assert(m ==> state[2] == "merged"@);
    } else if dirty {
        assert(state =~= seq!["dirty"@] + end);
        assert(state[0] == "dirty"@);
        assert(m ==> state[1] == "merged"@);
    } else if c {
        assert(state =~= seq!["current"@] + end);
        assert(state[0] == "current"@);
        assert(m ==> state[1] == "merged"@);
    } else {
        assert(state =~= end);
        assert(m ==> state[0] == "merged"@);
    }
}

/// Another worktree has the branch checked out, on another path.
pub open spec fn has_it_elsewhere(w: LiveWorktree, branch: Seq<char>, path: Seq<char>) -> bool {
    opt_string(w.branch) == Some(branch) && normalized(w.path@) != normalized(path)
}

/// The first worktree that has the branch of another one is found, wherever it is.
pub proof fn law_first_other_worktree(
    live: Seq<LiveWorktree>,
    branch: Seq<char>,
    path: Seq<char>,
)
    ensures
        ({
            let i = index_other(live, branch, path);
            &&& 0 <= i <= live.len()
            &&& i < live.len() ==> has_it_elsewhere(live[i], branch, path)
            &&& forall|j: int|
                0 <= j < i ==> !has_it_elsewhere(#[trigger] live[j], branch, path)
        }),
    decreases live.len(),
{
    if live.len() > 0 && !has_it_elsewhere(live[0], branch, path) {
        let rest = live.drop_first();
        law_first_other_worktree(rest, branch, path);
        let i = index_other(live, branch, path);
        assert forall|j: int| 0 <= j < i implies !has_it_elsewhere(
            #[trigger] live[j],
            branch,
            path,
        ) by {
            if j > 0 {
                assert(rest[j - 1] == live[j]);
            }
        }
    }
}

/// A branch goes with its worktree only on request, or where it is merged, merged branches are to go,
/// it is not the trunk, and the worktree is neither the main nor the review worktree. Whoever keeps
/// branches keeps it.
pub proof fn law_branch_goes_only_on_request_or_merged(
    config: WorktreeConfig,
    branch: Seq<char>,
    role: Option<WorktreeRole>,
    keep_branch: bool,
    with_branch: bool,
    merged: bool,
)
    ensures
        wants_branch_gone(config, branch, role, keep_branch, with_branch, merged) <==> !keep_branch
            && (with_branch || merged && config.temp.delete_merged && branch != config.trunk@ && (
        role is None || role == Some(WorktreeRole::Temp))),
        auto_deletes(config, branch, role) <==> config.temp.delete_merged && branch != config.trunk@
            && (role is None || role == Some(WorktreeRole::Temp)),
{
    match role {
        None => {},
        Some(WorktreeRole::Main) => {},
        Some(WorktreeRole::Review) => {},
        Some(WorktreeRole::Temp) => {},
    }
}

/// What the question before a cleanup counts, and what is told after it: the candidates whose branch is
/// checked out elsewhere, those with changes, and the branches that went.
pub proof fn law_cleanup_is_counted(
    live: Seq<LiveWorktree>,
    candidates: Seq<(CleanupCandidate, bool)>,
    removed: Seq<RemoveResult>,
    n: int,
)
    requires
        n >= 0,
    ensures
        conflicts(live, candidates, n) == chosen(
            n,
            |k: int|
                exists|i: int|
                    0 <= i < live.len() && has_it_elsewhere(
                        #[trigger] live[i],
                        candidates[k].0.branch@,
                        candidates[k].0.path@,
                    ),
            |k: int| k,
        ).len(),
        dirty_ones(candidates, n) == chosen(n, |k: int| candidates[k].1, |k: int| k).len(),
        branches_gone(removed, n) == chosen(
            n,
            |k: int| removed[k].branch_deleted,
            |k: int| k,
        ).len(),
    decreases n,
{
    let elsewhere = |k: int|
        exists|i: int|
            0 <= i < live.len() && has_it_elsewhere(
                #[trigger] live[i],
                candidates[k].0.branch@,
                candidates[k].0.path@,
            );
    let dirty = |k: int| candidates[k].1;
    let gone = |k: int| removed[k].branch_deleted;
    let give = |k: int| k;
    if n > 0 {
        law_cleanup_is_counted(live, candidates, removed, n - 1);
        lemma_chosen_next(n - 1, elsewhere, give);
        lemma_chosen_next(n - 1, dirty, give);
        lemma_chosen_next(n - 1, gone, give);
        let c = candidates[n - 1].0;
        law_first_other_worktree(live, c.branch@, c.path@);
        let i = index_other(live, c.branch@, c.path@);
        if i < live.len() {
            assert(has_it_elsewhere(live[i], c.branch@, c.path@));
        }
        assert(elsewhere(n - 1) == (i < live.len()));
    } else {
        lemma_chosen_none(elsewhere, give);
        lemma_chosen_none(dirty, give);
        lemma_chosen_none(gone, give);
    }
}

/// The branch that is named is the one that is asked for, and the current one only where none is named.
pub proof fn law_named_branch_is_asked_for(name: Option<Seq<char>>, current: Option<Seq<char>>)
    ensures
        name is Some ==> requested(name, current) == name,
        name is None ==> requested(name, current) == current,
{
}

/// The path of a worktree is the one that is given, seen from the repository; where none is given, that
/// of the template.
pub proof fn law_given_path_comes_first(
    root: Seq<char>,
    path: Option<Seq<char>>,
    template: Seq<char>,
    branch: Seq<char>,
)
    ensures
        path is Some ==> add_path(given_path(root, path), template, branch) == Some(
            normalized(joined(root, path->0)),
        ),
        path is None ==> add_path(given_path(root, path), template, branch) == template_path(
            template,
            branch,
        ),
{
}

/// The path of the template has the branch, made fit for a path, in the place that is left for it. A
/// template without such a place gives no path.
pub proof fn law_template_has_a_place_for_the_branch(
    config: WorktreeConfig,
    template: Seq<char>,
    branch: Seq<char>,
)
    ensures
        match split_once_text_of(template, "{branch}"@) {
            Some((a, b)) => find_text_of(b, "{branch}"@) is None ==> template_path(template, branch)
                == Some(normalized(a + sanitized(branch) + b)),
            None => template_path(template, branch) is None,
        },
        temp_path_of(config, branch) == template_path(config.temp.path_template@, branch),
{
    reveal_strlit("{branch}");
    law_every_place_is_replaced(template, "{branch}"@, sanitized(branch));
    match split_once_text_of(template, "{branch}"@) {
        Some((a, b)) => {
            law_every_place_is_replaced(b, "{branch}"@, sanitized(branch));
        },
        None => {},
    }
}

/// A worktree is switched to the target that is named last; changes are thrown away only on request, and
/// a commit is checked out without a branch only on request.
pub proof fn law_switch_of_a_worktree(target: Seq<char>)
    ensures
        switch_args(target, false, false) == seq![
            "checkout"@,
            "--ignore-other-worktrees"@,
            target,
        ],
        switch_args(target, true, false) == seq![
            "checkout"@,
            "--force"@,
            "--ignore-other-worktrees"@,
            target,
        ],
        switch_args(target, false, true) == seq![
            "checkout"@,
            "--detach"@,
            "--ignore-other-worktrees"@,
            target,
        ],
        switch_args(target, true, true) == seq![
            "checkout"@,
            "--force"@,
            "--detach"@,
            "--ignore-other-worktrees"@,
            target,
        ],
{
    assert(switch_args(target, false, false) =~= seq![
        "checkout"@,
        "--ignore-other-worktrees"@,
        target,
    ]);
    assert(switch_args(target, true, false) =~= seq![
        "checkout"@,
        "--force"@,
        "--ignore-other-worktrees"@,
        target,
    ]);
    assert(switch_args(target, false, true) =~= seq![
        "checkout"@,
        "--detach"@,
        "--ignore-other-worktrees"@,
        target,
    ]);
    assert(switch_args(target, true, true) =~= seq![
        "checkout"@,
        "--force"@,
        "--detach"@,
        "--ignore-other-worktrees"@,
        target,
    ]);
}

} // verus!
