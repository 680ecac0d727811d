//! The list of all worktrees, with their roles and states.

use crate::text::{has_text, less, opt_string, same, strs, text_lt};
use crate::worktree::config::WorktreeConfig;
use crate::worktree::git::LiveWorktree;
use crate::worktree::path_resolver::{normalize_path, normalized, path_parts, read_parts, TemplateError};
use crate::worktree::roles::{branch_or_detached, role_for_path, role_of};
use crate::worktree::ui::WorktreeListRow;
use crate::worktree::WorktreeRole;
use vstd::prelude::*;

verus! {

/// A row, in texts.
#[verifier::ext_equal]
pub struct RowView {
    pub role: Seq<char>,
    pub branch: Seq<char>,
    pub state: Seq<Seq<char>>,
    pub path: Seq<char>,
}

impl View for WorktreeListRow {
    type V = RowView;

    open spec fn view(&self) -> RowView {
        RowView {
            role: self.role@,
            branch: self.branch@,
            state: strs(self.state@),
            path: self.path@,
        }
    }
}

pub open spec fn row_views(v: Seq<WorktreeListRow>) -> Seq<RowView> {
    Seq::new(v.len(), |i: int| v[i]@)
}

/// The order of paths, part by part.
pub open spec fn parts_lt(a: Seq<Seq<char>>, b: Seq<Seq<char>>) -> bool
    decreases a.len(),
{
    if b.len() == 0 {
        false
    } else if a.len() == 0 {
        true
    } else if a[0] == b[0] {
        parts_lt(a.drop_first(), b.drop_first())
    } else {
        text_lt(a[0], b[0])
    }
}

fn parts_less(a: &Vec<String>, b: &Vec<String>) -> (r: bool)
    ensures
        r == parts_lt(strs(a@), strs(b@)),
{
    let ghost x = strs(a@);
    let ghost y = strs(b@);
    let mut i: usize = 0;
    assert(x.skip(0) =~= x);
    assert(y.skip(0) =~= y);
    while i < a.len() && i < b.len()
        invariant
            i <= a@.len(),
            i <= b@.len(),
            x == strs(a@),
            y == strs(b@),
            parts_lt(x, y) == parts_lt(x.skip(i as int), y.skip(i as int)),
        decreases a@.len() - i,
    {
        assert(x.skip(i as int)[0] == a@[i as int]@);
        assert(y.skip(i as int)[0] == b@[i as int]@);
        if !same(a[i].as_str(), b[i].as_str()) {
            return less(a[i].as_str(), b[i].as_str());
        }
        assert(x.skip(i as int).drop_first() =~= x.skip(i + 1));
        assert(y.skip(i as int).drop_first() =~= y.skip(i + 1));
        i += 1;
    }
    assert(x.skip(i as int).len() == a@.len() - i);
    assert(y.skip(i as int).len() == b@.len() - i);
    i < b.len()
}

/// Rows are ordered by role, then by branch, then by path.
pub open spec fn row_lt(a: RowView, b: RowView) -> bool {
    ||| text_lt(a.role, b.role)
    ||| a.role == b.role && text_lt(a.branch, b.branch)
    ||| a.role == b.role && a.branch == b.branch && parts_lt(path_parts(a.path), path_parts(b.path))
}

fn row_less(a: &WorktreeListRow, b: &WorktreeListRow) -> (r: bool)
    ensures
        r == row_lt(a@, b@),
{
    if less(a.role.as_str(), b.role.as_str()) {
        return true;
    }
    if !same(a.role.as_str(), b.role.as_str()) {
        return false;
    }
    if less(a.branch.as_str(), b.branch.as_str()) {
        return true;
    }
    same(a.branch.as_str(), b.branch.as_str()) && parts_less(
        &read_parts(a.path.as_str()),
        &read_parts(b.path.as_str()),
    )
}

/// The rows with one more, behind all that do not come after it.
pub open spec fn put_row(rows: Seq<RowView>, row: RowView) -> Seq<RowView>
    decreases rows.len(),
{
    if rows.len() == 0 || !row_lt(row, rows.last()) {
        rows.push(row)
    } else {
        put_row(rows.drop_last(), row).push(rows.last())
    }
}

fn insert_row(rows: &mut Vec<WorktreeListRow>, row: WorktreeListRow)
    ensures
        row_views(final(rows)@) == put_row(row_views(old(rows)@), row@),
{
    let ghost before = rows@;
    let ghost all = row_views(before);
    let mut at: usize = rows.len();
    assert(all.take(all.len() as int) =~= all);
    assert(put_row(all, row@) + all.skip(all.len() as int) =~= put_row(all, row@));
    while at > 0 && row_less(&row, &rows[at - 1])
        invariant
            at <= rows@.len(),
            rows@ == before,
            all == row_views(before),
            put_row(all, row@) == put_row(all.take(at as int), row@) + all.skip(at as int),
        decreases at,
    {
        proof {
            let part = all.take(at as int);
            assert(part.last() == before[at - 1]@);
            assert(part.drop_last() =~= all.take(at - 1));
            assert(put_row(all.take(at - 1), row@).push(part.last()) + all.skip(at as int)
                =~= put_row(all.take(at - 1), row@) + all.skip(at - 1));
        }
        at -= 1;
    }
    proof {
        let part = all.take(at as int);
        if at > 0 {
            assert(part.last() == before[at - 1]@);
        }
        assert(put_row(part, row@) == part.push(row@));
    }
    rows.insert(at, row);
    assert(row_views(rows@) =~= all.take(at as int).push(row@) + all.skip(at as int));
}

/// The state of a worktree: its directory is gone, or it has changes and is the current one; and a
/// temporary one may have a merged branch.
pub open spec fn state_of(
    w: LiveWorktree,
    role: Option<WorktreeRole>,
    on_disk: bool,
    dirty: bool,
    current: Seq<char>,
    merged: Seq<Seq<char>>,
) -> Seq<Seq<char>> {
    let here = if !on_disk {
        seq!["missing"@]
    } else {
        (if dirty {
            seq!["dirty"@]
        } else {
            seq![]
        }) + (if normalized(w.path@) == normalized(current) {
            seq!["current"@]
        } else {
            seq![]
        })
    };
    here + (if role == Some(WorktreeRole::Temp) && w.branch is Some && merged.contains(
        w.branch->0@,
    ) {
        seq!["merged"@]
    } else {
        seq![]
    })
}

/// The row of a worktree.
pub open spec fn row_of(
    config: WorktreeConfig,
    w: LiveWorktree,
    on_disk: bool,
    dirty: bool,
    current: Seq<char>,
    merged: Seq<Seq<char>>,
) -> RowView {
    let role = match role_of(config, normalized(w.path@)) {
        Some(x) => x,
        None => None,
    };
    RowView {
        role: match role {
            Some(x) => x.text(),
            None => "-"@,
        },
        branch: branch_or_detached(opt_string(w.branch)),
        state: state_of(w, role, on_disk, dirty, current, merged),
        path: w.path@,
    }
}

/// The rows of the first `n` worktrees, in order.
pub open spec fn rows_for(
    config: WorktreeConfig,
    live: Seq<LiveWorktree>,
    on_disk: Seq<bool>,
    dirty: Seq<bool>,
    current: Seq<char>,
    merged: Seq<Seq<char>>,
    n: int,
) -> Seq<RowView>
    decreases n,
{
    if n <= 0 {
        Seq::empty()
    } else {
        put_row(
            rows_for(config, live, on_disk, dirty, current, merged, n - 1),
            row_of(config, live[n - 1], on_disk[n - 1], dirty[n - 1], current, merged),
        )
    }
}

fn state_flags(
    w: &LiveWorktree,
    role: Option<WorktreeRole>,
    on_disk: bool,
    dirty: bool,
    current_path: &str,
    merged_branches: &Vec<String>,
) -> (r: Vec<String>)
    ensures
        strs(r@) == state_of(*w, role, on_disk, dirty, current_path@, strs(merged_branches@)),
{
    let mut state: Vec<String> = Vec::new();
    let is_current = same(w.normalized_path().as_str(), normalize_path(current_path).as_str());
    if !on_disk {
        state.push("missing".to_owned());
        assert(strs(state@) =~= seq!["missing"@]);
    } else {
        let ghost d = if dirty {
            seq!["dirty"@]
        } else {
            seq![]
        };
        if dirty {
            state.push("dirty".to_owned());
        }
        assert(strs(state@) =~= d);
        let ghost before = state@;
        if is_current {
            state.push("current".to_owned());
            assert(strs(state@) =~= strs(before).push("current"@));
        }
        assert(strs(state@) =~= d + (if is_current {
            seq!["current"@]
        } else {
            seq![]
        }));
    }
    let ghost here = strs(state@);
    let is_temp = match role {
        Some(x) => x == WorktreeRole::Temp,
        None => false,
    };
    let ghost before = state@;
    if is_temp {
        if let Some(branch) = &w.branch {
            if has_text(merged_branches, branch.as_str()) {
                state.push("merged".to_owned());
                assert(strs(state@) =~= strs(before).push("merged"@));
                assert(strs(state@) =~= here + seq!["merged"@]);
                return state;
            }
        }
    }
    assert(here + Seq::<Seq<char>>::empty() =~= here);
    state
}

/// The rows of all worktrees, by role, branch and path. `on_disk` and `dirty` say of each worktree
/// whether its directory is there and whether there are changes in it.
pub fn list_managed_worktrees(
    config: &WorktreeConfig,
    live: &Vec<LiveWorktree>,
    on_disk: &Vec<bool>,
    dirty: &Vec<bool>,
    current_path: &str,
    merged_branches: &Vec<String>,
) -> (r: Result<Vec<WorktreeListRow>, TemplateError>)
    requires
        on_disk@.len() == live@.len(),
        dirty@.len() == live@.len(),
    ensures
        match r {
            Ok(rows) => row_views(rows@) == rows_for(
                *config,
                live@,
                on_disk@,
                dirty@,
                current_path@,
                strs(merged_branches@),
                live@.len() as int,
            ) && forall|i: int|
                0 <= i < live@.len() ==> role_of(*config, normalized((#[trigger] live@[i]).path@))
                    is Some,
            Err(e) => e.0@ == config.temp.path_template@ && exists|i: int|
                0 <= i < live@.len() && role_of(*config, normalized((#[trigger] live@[i]).path@))
                    is None,
        },
{
    let mut rows: Vec<WorktreeListRow> = Vec::new();
    let mut i: usize = 0;
    assert(row_views(rows@) =~= Seq::<RowView>::empty());
    while i < live.len()
        invariant
            i <= live@.len() == on_disk@.len(),
            dirty@.len() == live@.len(),
            row_views(rows@) == rows_for(
                *config,
                live@,
                on_disk@,
                dirty@,
                current_path@,
                strs(merged_branches@),
                i as int,
            ),
            forall|k: int|
                0 <= k < i ==> role_of(*config, normalized((#[trigger] live@[k]).path@)) is Some,
        decreases live@.len() - i,
    {
        let w = &live[i];
        let role = match role_for_path(config, w.normalized_path().as_str()) {
            Ok(x) => x,
            Err(e) => return Err(e),
        };
        let row = WorktreeListRow {
            role: match role {
                Some(x) => x.as_str().to_owned(),
                None => "-".to_owned(),
            },
            branch: match &w.branch {
                Some(b) => b.clone(),
                None => "<detached>".to_owned(),
            },
            state: state_flags(w, role, on_disk[i], dirty[i], current_path, merged_branches),
            path: w.path.clone(),
        };
        assert(row@ =~= row_of(
            *config,
            live@[i as int],
            on_disk@[i as int],
            dirty@[i as int],
            current_path@,
            strs(merged_branches@),
        ));
        insert_row(&mut rows, row);
        i += 1;
    }
    Ok(rows)
}

/// The list has one row for each worktree.
pub proof fn law_every_worktree_is_listed(
    config: WorktreeConfig,
    live: Seq<LiveWorktree>,
    on_disk: Seq<bool>,
    dirty: Seq<bool>,
    current: Seq<char>,
    merged: Seq<Seq<char>>,
    n: int,
)
    requires
        0 <= n <= live.len(),
    ensures
        rows_for(config, live, on_disk, dirty, current, merged, n).len() == n,
    decreases n,
{
    if n > 0 {
        law_every_worktree_is_listed(config, live, on_disk, dirty, current, merged, n - 1);
        lemma_put_row_len(
            rows_for(config, live, on_disk, dirty, current, merged, n - 1),
            row_of(config, live[n - 1], on_disk[n - 1], dirty[n - 1], current, merged),
        );
    }
}

proof fn lemma_put_row_len(rows: Seq<RowView>, row: RowView)
    ensures
        put_row(rows, row).len() == rows.len() + 1,
    decreases rows.len(),
{
    if rows.len() > 0 && row_lt(row, rows.last()) {
        lemma_put_row_len(rows.drop_last(), row);
    }
}

} // verus!
