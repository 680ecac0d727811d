//! What is promised of `kin split`: a text that comes back unedited changes nothing, and an edited one
//! is taken at its word.

use crate::commands::split::{
    assign, beginning_with, branch_row_name, branch_rows, commit_ids, commit_row, commits_kept,
    first_of, help_rows, is_reading, name_check, parse_rows, row_id, row_step, rows_of, short_id,
    shorts_of, CommitInfo, RowsView, SplitProblem,
};
use crate::commands::split_changes::{action_for, SplitAction};
use crate::lists::{chosen, law_places_where, lemma_chosen_next, lemma_chosen_none, places_where};
use crate::oid::is_hex;
use crate::stack::{names_of, BranchView};
use crate::text::{
    index_of_char, is_white, lemma_index_of_char_is, lemma_lines_of_unlines, lemma_trim_keeps, lemma_trim_same,
    lemma_trim_without_cr, lines_of, trim_of, unlines_of, without_cr,
};
use vstd::prelude::*;

verus! {

/// The branches on a commit, each with that commit under the id that is given.
pub open spec fn placed_on(id: Seq<char>, branches: Seq<BranchView>, as_id: Seq<char>) -> Seq<(
    Seq<char>,
    Seq<char>,
)>
    decreases branches.len(),
{
    if branches.len() == 0 {
        Seq::empty()
    } else if branches.last().1 == id {
        placed_on(id, branches.drop_last(), as_id).push((branches.last().0, as_id))
    } else {
        placed_on(id, branches.drop_last(), as_id)
    }
}

/// The branches on the commits, each with its commit.
pub open spec fn placed(commits: Seq<CommitInfo>, branches: Seq<BranchView>) -> Seq<(
    Seq<char>,
    Seq<char>,
)>
    decreases commits.len(),
{
    if commits.len() == 0 {
        Seq::empty()
    } else {
        let id = commits.last().id@;
        placed(commits.drop_last(), branches) + placed_on(id, branches, id)
    }
}

/// The same, with the short ids.
pub open spec fn placed_short(commits: Seq<CommitInfo>, branches: Seq<BranchView>) -> Seq<(
    Seq<char>,
    Seq<char>,
)>
    decreases commits.len(),
{
    if commits.len() == 0 {
        Seq::empty()
    } else {
        let id = commits.last().id@;
        placed_short(commits.drop_last(), branches) + placed_on(id, branches, short_id(id))
    }
}

/// A commit whose row can be read back: its id begins with seven hexadecimal digits, and its
/// summary is one line.
pub open spec fn readable_commit(c: CommitInfo) -> bool {
    &&& c.id@.len() >= 7
    &&& forall|i: int| 0 <= i < 7 ==> is_hex(#[trigger] c.id@[i])
    &&& !c.summary@.contains('\n')
}

/// A branch whose row can be read back: git accepts its name, which holds no white space.
pub open spec fn readable_branch(b: BranchView) -> bool {
    &&& b.0.len() > 0
    &&& forall|i: int| 0 <= i < b.0.len() ==> !is_white(#[trigger] b.0[i])
    &&& name_check(b.0) == Ok::<_, Seq<char>>(true)
}

pub open spec fn readable(commits: Seq<CommitInfo>, branches: Seq<BranchView>) -> bool {
    &&& forall|i: int| 0 <= i < commits.len() ==> readable_commit(#[trigger] commits[i])
    &&& forall|i: int| 0 <= i < branches.len() ==> readable_branch(#[trigger] branches[i])
}

/// No commit begins like the short id of another.
pub open spec fn shorts_distinct(commits: Seq<CommitInfo>) -> bool {
    forall|i: int, j: int|
        0 <= i < commits.len() && 0 <= j < commits.len() && short_id(
            (#[trigger] commits[i]).id@,
        ).is_prefix_of((#[trigger] commits[j]).id@) ==> i == j
}

/// The lines as they come back.
spec fn back(lines: Seq<Seq<char>>) -> Seq<Seq<char>> {
    Seq::new(lines.len(), |i: int| without_cr(lines[i]))
}

proof fn lemma_back_push(lines: Seq<Seq<char>>, line: Seq<char>)
    requires
        parse_rows(back(lines)) is Ok,
    ensures
        parse_rows(back(lines.push(line))) == row_step(parse_rows(back(lines))->Ok_0, line),
{
    let all = back(lines.push(line));
    assert(all.drop_last() =~= back(lines));
    assert(all.last() == without_cr(line));
    lemma_trim_without_cr(line);
}

proof fn lemma_commit_row(before: RowsView, c: CommitInfo)
    requires
        readable_commit(c),
    ensures
        row_step(before, commit_row(c)) == Ok::<_, SplitProblem>(
            RowsView { commits: before.commits.push(short_id(c.id@)), ..before },
        ),
        !commit_row(c).contains('\n'),
{
    reveal_strlit(" ");
    reveal_strlit("#");
    reveal_strlit("branch ");
    let s = commit_row(c);
    assert forall|i: int| 0 <= i < 7 implies s[i] == c.id@[i] && is_hex(s[i]) by {
        assert(is_hex(c.id@[i]));
    }
    assert(s[7] == ' ');
    assert(is_hex(s[0]) && is_hex(s[6]));
    lemma_trim_keeps(s, 6);
    let t = trim_of(s);
    assert(t[0] == s[0] && t[6] == s[6]);
    assert(!"#"@.is_prefix_of(t)) by {
        assert("#"@[0] == '#');
        if "#"@.is_prefix_of(t) {
            assert(t.subrange(0, 1)[0] == t[0]);
        }
    }
    assert(!"branch "@.is_prefix_of(t)) by {
        assert("branch "@[6] == ' ');
        if "branch "@.is_prefix_of(t) {
            assert(t.subrange(0, 7)[6] == t[6]);
        }
    }
    assert forall|i: int| 0 <= i < 7 implies t[i] != ' ' by {
        assert(is_hex(s[i]));
    }
    if t.len() > 7 {
        assert(t[7] == s[7]);
    }
    lemma_index_of_char_is(t, ' ', 7);
    assert(row_id(t) =~= short_id(c.id@));
    assert forall|i: int| 0 <= i < s.len() implies s[i] != '\n' by {
        if i < 7 {
            assert(is_hex(s[i]));
        } else if i > 7 {
            assert(s[i] == c.summary@[i - 8]);
        }
    }
}

proof fn lemma_branch_row(before: RowsView, name: Seq<char>)
    requires
        readable_branch((name, Seq::empty())),
        before.commits.len() > 0,
    ensures
        row_step(before, "branch "@ + name) == Ok::<_, SplitProblem>(
            RowsView { branches: before.branches.push((name, before.commits.last())), ..before },
        ),
        !("branch "@ + name).contains('\n'),
{
    reveal_strlit("#");
    reveal_strlit("branch ");
    let s = "branch "@ + name;
    assert(s[0] == 'b');
    assert(s.last() == name.last());
    assert(!is_white(name[name.len() - 1]));
    lemma_trim_same(s);
    assert(!"#"@.is_prefix_of(s)) by {
        assert("#"@[0] == '#');
        if "#"@.is_prefix_of(s) {
            assert(s.subrange(0, 1)[0] == s[0]);
        }
    }
    assert("branch "@.is_prefix_of(s)) by {
        assert(s.subrange(0, "branch "@.len() as int) =~= "branch "@);
    }
    assert(s.skip("branch "@.len() as int) =~= name);
    assert(!is_white(name[0]));
    lemma_trim_same(name);
    assert(branch_row_name(s) == name);
    assert forall|i: int| 0 <= i < s.len() implies s[i] != '\n' by {
        if i >= 7 {
            assert(s[i] == name[i - 7]);
            assert(!is_white(name[i - 7]));
        } else {
            assert(s[i] == "branch "@[i]);
        }
    }
}

/// What the rows of the branches on a commit say, behind the row of that commit.
proof fn lemma_branch_rows(
    lines: Seq<Seq<char>>,
    before: RowsView,
    id: Seq<char>,
    branches: Seq<BranchView>,
)
    requires
        parse_rows(back(lines)) == Ok::<_, SplitProblem>(before),
        before.commits.len() > 0,
        forall|i: int| 0 <= i < branches.len() ==> readable_branch(#[trigger] branches[i]),
        forall|i: int| 0 <= i < lines.len() ==> !(#[trigger] lines[i]).contains('\n'),
    ensures
        parse_rows(back(lines + branch_rows(id, branches))) == Ok::<_, SplitProblem>(
            RowsView {
                branches: before.branches + placed_on(id, branches, before.commits.last()),
                ..before
            },
        ),
        forall|i: int|
            0 <= i < (lines + branch_rows(id, branches)).len() ==> !(#[trigger] (lines
                + branch_rows(id, branches))[i]).contains('\n'),
    decreases branches.len(),
{
    if branches.len() == 0 {
        assert(lines + branch_rows(id, branches) =~= lines);
        assert(before.branches + placed_on(id, branches, before.commits.last())
            =~= before.branches);
    } else {
        let fewer = branches.drop_last();
        assert forall|i: int| 0 <= i < fewer.len() implies readable_branch(#[trigger] fewer[i]) by {
            assert(fewer[i] == branches[i]);
        }
        lemma_branch_rows(lines, before, id, fewer);
        let b = branches.last();
        assert(readable_branch(branches[branches.len() - 1]));
        if b.1 == id {
            let have = lines + branch_rows(id, fewer);
            let middle = RowsView {
                branches: before.branches + placed_on(id, fewer, before.commits.last()),
                ..before
            };
            let row = "branch "@ + b.0;
            assert(lines + branch_rows(id, branches) =~= have.push(row));
            assert(readable_branch((b.0, Seq::empty())));
            lemma_back_push(have, row);
            lemma_branch_row(middle, b.0);
            assert(middle.branches.push((b.0, before.commits.last())) =~= before.branches
                + placed_on(id, branches, before.commits.last()));
        }
    }
}

/// What the rows of the commits and branches say.
proof fn lemma_rows(commits: Seq<CommitInfo>, branches: Seq<BranchView>)
    requires
        readable(commits, branches),
    ensures
        parse_rows(back(rows_of(commits, branches))) == Ok::<_, SplitProblem>(
            RowsView {
                commits: shorts_of(commit_ids(commits)),
                branches: placed_short(commits, branches),
            },
        ),
        forall|i: int|
            0 <= i < rows_of(commits, branches).len() ==> !(#[trigger] rows_of(
                commits,
                branches,
            )[i]).contains('\n'),
    decreases commits.len(),
{
    if commits.len() == 0 {
        assert(back(rows_of(commits, branches)) =~= Seq::<Seq<char>>::empty());
        assert(shorts_of(commit_ids(commits)) =~= Seq::<Seq<char>>::empty());
    } else {
        let fewer = commits.drop_last();
        assert forall|i: int| 0 <= i < fewer.len() implies readable_commit(#[trigger] fewer[i]) by {
            assert(fewer[i] == commits[i]);
        }
        lemma_rows(fewer, branches);
        let c = commits.last();
        assert(readable_commit(commits[commits.len() - 1]));
        let above = rows_of(fewer, branches);
        let before = parse_rows(back(above))->Ok_0;
        let with_commit = RowsView { commits: before.commits.push(short_id(c.id@)), ..before };
        lemma_back_push(above, commit_row(c));
        lemma_commit_row(before, c);
        let lines = above.push(commit_row(c));
        assert forall|i: int| 0 <= i < lines.len() implies !(#[trigger] lines[i]).contains('\n') by {
            if i < above.len() {
                assert(lines[i] == above[i]);
            }
        }
        lemma_branch_rows(lines, with_commit, c.id@, branches);
        assert(shorts_of(commit_ids(commits)) =~= before.commits.push(short_id(c.id@)));
    }
}

/// A row that is empty or begins with `#` says nothing.
proof fn lemma_silent_row(before: RowsView, line: Seq<char>)
    requires
        line.len() == 0 || line[0] == '#',
    ensures
        row_step(before, line) == Ok::<_, SplitProblem>(before),
{
    reveal_strlit("#");
    if line.len() == 0 {
        lemma_trim_same(line);
    } else {
        lemma_trim_keeps(line, 0);
        let t = trim_of(line);
        assert(t[0] == '#');
        assert("#"@.is_prefix_of(t)) by {
            assert(t.subrange(0, 1) =~= "#"@);
        }
    }
}

proof fn lemma_help(lines: Seq<Seq<char>>, before: RowsView, help: Seq<Seq<char>>, n: int)
    requires
        0 <= n <= help.len(),
        parse_rows(back(lines)) == Ok::<_, SplitProblem>(before),
        forall|i: int|
            0 <= i < help.len() ==> (#[trigger] help[i]).len() == 0 || help[i][0] == '#',
    ensures
        parse_rows(back(lines + help.take(n))) == Ok::<_, SplitProblem>(before),
    decreases n,
{
    if n == 0 {
        assert(lines + help.take(0) =~= lines);
    } else {
        lemma_help(lines, before, help, n - 1);
        assert(lines + help.take(n) =~= (lines + help.take(n - 1)).push(help[n - 1]));
        lemma_back_push(lines + help.take(n - 1), help[n - 1]);
        lemma_silent_row(before, help[n - 1]);
    }
}

proof fn lemma_help_rows(upstream: Seq<char>, tip: Seq<char>)
    requires
        !upstream.contains('\n'),
        !tip.contains('\n'),
    ensures
        forall|i: int|
            0 <= i < help_rows(upstream, tip).len() ==> (#[trigger] help_rows(upstream, tip)[i]).len()
                == 0 || help_rows(upstream, tip)[i][0] == '#',
        forall|i: int|
            0 <= i < help_rows(upstream, tip).len() ==> !(#[trigger] help_rows(
                upstream,
                tip,
            )[i]).contains('\n'),
{
    reveal_strlit("");
    reveal_strlit("# kin split");
    reveal_strlit("# Move 'branch <name>' rows to reassign branches to commits.");
    reveal_strlit("# Add new 'branch <name>' rows to create branches.");
    reveal_strlit("# Remove 'branch <name>' rows to delete branches.");
    reveal_strlit("# DO NOT edit commit lines (SHA + summary).");
    reveal_strlit("# Base branch: ");
    reveal_strlit("# Path to tip: ");
    let base = "# Base branch: "@ + upstream;
    let path = "# Path to tip: "@ + tip;
    assert(base[0] == '#' && path[0] == '#');
    assert forall|i: int| 0 <= i < base.len() implies base[i] != '\n' by {
        if i >= "# Base branch: "@.len() {
            assert(base[i] == upstream[i - "# Base branch: "@.len()]);
        } else {
            assert(base[i] == "# Base branch: "@[i]);
        }
    }
    assert forall|i: int| 0 <= i < path.len() implies path[i] != '\n' by {
        if i >= "# Path to tip: "@.len() {
            assert(path[i] == tip[i - "# Path to tip: "@.len()]);
        } else {
            assert(path[i] == "# Path to tip: "@[i]);
        }
    }
}

/// Only the commit itself begins with its short id.
proof fn lemma_only_match(commits: Seq<CommitInfo>, n: int, k: int)
    requires
        shorts_distinct(commits),
        0 <= k < commits.len(),
        0 <= n <= commits.len(),
        commits[k].id@.len() >= 7,
    ensures
        beginning_with(commit_ids(commits).take(n), short_id(commits[k].id@)) == (if k < n {
            seq![commits[k].id@]
        } else {
            seq![]
        }),
    decreases n,
{
    let ids = commit_ids(commits);
    let start = short_id(commits[k].id@);
    if n > 0 {
        lemma_only_match(commits, n - 1, k);
        assert(ids.take(n).drop_last() =~= ids.take(n - 1));
        assert(ids.take(n).last() == commits[n - 1].id@);
        if n - 1 == k {
            assert(start.is_prefix_of(commits[k].id@)) by {
                assert(commits[k].id@.subrange(0, 7) =~= start);
            }
            assert(beginning_with(ids.take(n), start) =~= seq![commits[k].id@]);
        } else {
            assert(!start.is_prefix_of(commits[n - 1].id@));
        }
    }
}

/// The names in a list of pairs.
proof fn lemma_placed_on_names(id: Seq<char>, branches: Seq<BranchView>, as_id: Seq<char>)
    ensures
        forall|i: int|
            0 <= i < placed_on(id, branches, as_id).len() ==> (#[trigger] placed_on(
                id,
                branches,
                as_id,
            )[i]).1 == as_id && exists|j: int|
                0 <= j < branches.len() && (#[trigger] branches[j]).0 == placed_on(
                    id,
                    branches,
                    as_id,
                )[i].0 && branches[j].1 == id,
    decreases branches.len(),
{
    if branches.len() > 0 {
        let fewer = branches.drop_last();
        lemma_placed_on_names(id, fewer, as_id);
        let v = placed_on(id, branches, as_id);
        let w = placed_on(id, fewer, as_id);
        assert forall|i: int| 0 <= i < v.len() implies (#[trigger] v[i]).1 == as_id && exists|
            j: int,
        |
            0 <= j < branches.len() && (#[trigger] branches[j]).0 == v[i].0 && branches[j].1 == id by {
            if i < w.len() {
                assert(v[i] == w[i]);
                let j = choose|j: int|
                    0 <= j < fewer.len() && (#[trigger] fewer[j]).0 == w[i].0 && fewer[j].1 == id;
                assert(branches[j] == fewer[j]);
            } else {
                assert(branches[branches.len() - 1] == branches.last());
            }
        }
    }
}

/// What has been placed are branches, with their own tips.
proof fn lemma_placed_names(commits: Seq<CommitInfo>, branches: Seq<BranchView>)
    ensures
        forall|i: int|
            0 <= i < placed(commits, branches).len() ==> branches.contains(
                #[trigger] placed(commits, branches)[i],
            ) && commit_ids(commits).contains(placed(commits, branches)[i].1),
    decreases commits.len(),
{
    if commits.len() > 0 {
        let fewer = commits.drop_last();
        let id = commits.last().id@;
        lemma_placed_names(fewer, branches);
        lemma_placed_on_names(id, branches, id);
        let v = placed(commits, branches);
        let w = placed(fewer, branches);
        assert forall|i: int| 0 <= i < v.len() implies branches.contains(#[trigger] v[i])
            && commit_ids(commits).contains(v[i].1) by {
            if i < w.len() {
                assert(v[i] == w[i]);
                let j = commit_ids(fewer).index_of(w[i].1);
                assert(commit_ids(commits)[j] == w[i].1);
            } else {
                let x = placed_on(id, branches, id)[i - w.len()];
                assert(v[i] == x);
                let j = choose|j: int|
                    0 <= j < branches.len() && (#[trigger] branches[j]).0 == x.0 && branches[j].1
                        == id;
                assert(branches[j] == x);
                assert(commit_ids(commits)[commits.len() - 1] == id);
            }
        }
    }
}

/// Giving the branches of one more commit their commit.
proof fn lemma_assign_on(
    all: Seq<CommitInfo>,
    k: int,
    rows: Seq<(Seq<char>, Seq<char>)>,
    done: Seq<(Seq<char>, Seq<char>)>,
    branches: Seq<BranchView>,
)
    requires
        shorts_distinct(all),
        0 <= k < all.len(),
        all[k].id@.len() >= 7,
        names_of(branches).no_duplicates(),
        assign(commit_ids(all), rows) == Ok::<_, SplitProblem>(done),
        forall|i: int, j: int|
            0 <= i < done.len() && 0 <= j < branches.len() && (#[trigger] branches[j]).1
                == all[k].id@ ==> (#[trigger] done[i]).0 != branches[j].0,
    ensures
        assign(
            commit_ids(all),
            rows + placed_on(all[k].id@, branches, short_id(all[k].id@)),
        ) == Ok::<_, SplitProblem>(done + placed_on(all[k].id@, branches, all[k].id@)),
    decreases branches.len(),
{
    let id = all[k].id@;
    let ids = commit_ids(all);
    if branches.len() == 0 {
        assert(rows + placed_on(id, branches, short_id(id)) =~= rows);
        assert(done + placed_on(id, branches, id) =~= done);
    } else {
        let fewer = branches.drop_last();
        let b = branches.last();
        assert forall|i: int, j: int|
            0 <= i < done.len() && 0 <= j < fewer.len() && (#[trigger] fewer[j]).1 == id implies (
        #[trigger] done[i]).0 != fewer[j].0 by {
            assert(fewer[j] == branches[j]);
        }
        assert(names_of(fewer).no_duplicates()) by {
            assert forall|i: int, j: int|
                0 <= i < fewer.len() && 0 <= j < fewer.len() && i != j implies names_of(fewer)[i]
                != names_of(fewer)[j] by {
                assert(names_of(branches)[i] == names_of(fewer)[i]);
                assert(names_of(branches)[j] == names_of(fewer)[j]);
            }
        }
        lemma_assign_on(all, k, rows, done, fewer);
        if b.1 == id {
            let rows1 = rows + placed_on(id, fewer, short_id(id));
            let done1 = done + placed_on(id, fewer, id);
            let row = (b.0, short_id(id));
            assert(rows + placed_on(id, branches, short_id(id)) =~= rows1.push(row));
            assert(done + placed_on(id, branches, id) =~= done1.push((b.0, id)));
            assert(rows1.push(row).drop_last() =~= rows1);
            lemma_only_match(all, all.len() as int, k);
            assert(ids.take(all.len() as int) =~= ids);
            assert(!first_of(done1).contains(b.0)) by {
                if first_of(done1).contains(b.0) {
                    let i = first_of(done1).index_of(b.0);
                    assert(done1[i].0 == b.0);
                    if i < done.len() {
                        assert(done[i].0 != branches[branches.len() - 1].0);
                    } else {
                        lemma_placed_on_names(id, fewer, id);
                        let x = placed_on(id, fewer, id)[i - done.len()];
                        let j = choose|j: int|
                            0 <= j < fewer.len() && (#[trigger] fewer[j]).0 == x.0 && fewer[j].1
                                == id;
                        assert(names_of(branches)[j] == names_of(branches)[branches.len() - 1]);
                    }
                }
            }
        }
    }
}

/// Giving the branches of the first `n` commits their commits.
proof fn lemma_assign(all: Seq<CommitInfo>, n: int, branches: Seq<BranchView>)
    requires
        shorts_distinct(all),
        0 <= n <= all.len(),
        forall|i: int| 0 <= i < all.len() ==> (#[trigger] all[i]).id@.len() >= 7,
        names_of(branches).no_duplicates(),
    ensures
        assign(commit_ids(all), placed_short(all.take(n), branches)) == Ok::<_, SplitProblem>(
            placed(all.take(n), branches),
        ),
    decreases n,
{
    if n > 0 {
        lemma_assign(all, n - 1, branches);
        let fewer = all.take(n - 1);
        assert(all.take(n).drop_last() =~= fewer);
        assert(all.take(n).last() == all[n - 1]);
        let done = placed(fewer, branches);
        lemma_placed_names(fewer, branches);
        assert forall|i: int, j: int|
            0 <= i < done.len() && 0 <= j < branches.len() && (#[trigger] branches[j]).1 == all[n
                - 1].id@ implies (#[trigger] done[i]).0 != branches[j].0 by {
            if done[i].0 == branches[j].0 {
                let m = branches.index_of(done[i]);
                assert(names_of(branches)[m] == names_of(branches)[j]);
                assert(m == j);
                let f = commit_ids(fewer).index_of(done[i].1);
                assert(fewer[f].id@ == all[n - 1].id@);
                assert(all[f].id@ == all[n - 1].id@);
                assert(short_id(all[f].id@).is_prefix_of(all[n - 1].id@)) by {
                    assert(all[n - 1].id@.subrange(0, 7) =~= short_id(all[f].id@));
                }
            }
        }
        lemma_assign_on(all, n - 1, placed_short(fewer, branches), done, branches);
    } else {
        assert(placed_short(all.take(0), branches) =~= Seq::<(Seq<char>, Seq<char>)>::empty());
    }
}

/// A text that comes back as it was written keeps every commit, and gives every branch of the path
/// whose tip is among the commits the commit that it is on, so that nothing is moved.
pub proof fn law_unedited_split_changes_nothing(
    commits: Seq<CommitInfo>,
    branches: Seq<BranchView>,
    upstream: Seq<char>,
    tip: Seq<char>,
)
    requires
        readable(commits, branches),
        shorts_distinct(commits),
        names_of(branches).no_duplicates(),
        !upstream.contains('\n'),
        !tip.contains('\n'),
    ensures
        ({
            let edited = unlines_of(rows_of(commits, branches) + help_rows(upstream, tip));
            let rows = RowsView {
                commits: shorts_of(commit_ids(commits)),
                branches: placed_short(commits, branches),
            };
            &&& parse_rows(lines_of(edited)) == Ok::<_, SplitProblem>(rows)
            &&& commits_kept(commit_ids(commits), rows.commits)
            &&& assign(commit_ids(commits), rows.branches) == Ok::<_, SplitProblem>(
                placed(commits, branches),
            )
            &&& forall|i: int|
                0 <= i < placed(commits, branches).len() ==> branches.contains(
                    #[trigger] placed(commits, branches)[i],
                )
        }),
{
    let rows = rows_of(commits, branches);
    let help = help_rows(upstream, tip);
    let lines = rows + help;
    lemma_rows(commits, branches);
    lemma_help_rows(upstream, tip);
    let before = parse_rows(back(rows))->Ok_0;
    lemma_help(rows, before, help, help.len() as int);
    assert(help.take(help.len() as int) =~= help);
    assert forall|i: int| 0 <= i < lines.len() implies !(#[trigger] lines[i]).contains('\n') by {
        if i < rows.len() {
            assert(lines[i] == rows[i]);
        } else {
            assert(lines[i] == help[i - rows.len()]);
        }
    }
    lemma_lines_of_unlines(lines);
    assert(lines_of(unlines_of(lines)) =~= back(lines));
    let ids = commit_ids(commits);
    let written = shorts_of(ids);
    assert forall|i: int| 0 <= i < ids.len() implies (#[trigger] written[i]).is_prefix_of(ids[i]) by {
        assert(readable_commit(commits[i]));
        assert(ids[i].subrange(0, 7) =~= written[i]);
    }
    assert forall|i: int| 0 <= i < commits.len() implies (#[trigger] commits[i]).id@.len() >= 7 by {
        assert(readable_commit(commits[i]));
    }
    lemma_assign(commits, commits.len() as int, branches);
    assert(commits.take(commits.len() as int) =~= commits);
    lemma_placed_names(commits, branches);
}

/// A branch that is given the commit that it is on is kept.
pub proof fn law_branch_in_place_is_kept(
    b: BranchView,
    initial: Seq<Seq<char>>,
    allowed: Seq<Seq<char>>,
)
    ensures
        action_for(b.0, b.1, Some(Some(b.1)), initial, allowed) == SplitAction::Keep,
{
}

/// The branches that an unedited text puts on commits are exactly those whose tips are among the
/// commits, each on its tip.
pub proof fn law_every_branch_of_the_path_is_placed(
    commits: Seq<CommitInfo>,
    branches: Seq<BranchView>,
    b: BranchView,
)
    ensures
        placed(commits, branches).contains(b) <==> branches.contains(b) && exists|k: int|
            0 <= k < commits.len() && (#[trigger] commits[k]).id@ == b.1,
    decreases commits.len(),
{
    if commits.len() > 0 {
        let rest = commits.drop_last();
        let n = commits.len() - 1;
        law_every_branch_of_the_path_is_placed(rest, branches, b);
        let last = commits.last().id@;
        let before = placed(rest, branches);
        let own = placed_on(last, branches, last);
        let all = placed(commits, branches);
        lemma_placed_on(last, branches, b);
        assert(commits[n].id@ == last);
        if exists|k: int| 0 <= k < rest.len() && (#[trigger] rest[k]).id@ == b.1 {
            let k = choose|k: int| 0 <= k < rest.len() && (#[trigger] rest[k]).id@ == b.1;
            assert(commits[k].id@ == b.1);
        } else if exists|k: int| 0 <= k < commits.len() && (#[trigger] commits[k]).id@ == b.1 {
            let k = choose|k: int| 0 <= k < commits.len() && (#[trigger] commits[k]).id@ == b.1;
            if k < n {
                assert(rest[k].id@ == b.1);
            }
        }
        if before.contains(b) {
            assert(all[before.index_of(b)] == b);
        }
        if own.contains(b) {
            assert(all[before.len() + own.index_of(b)] == b);
        }
        if all.contains(b) {
            let k = all.index_of(b);
            if k < before.len() {
                assert(before[k] == b);
            } else {
                assert(own[k - before.len()] == b);
            }
        }
    }
}

proof fn lemma_placed_on(id: Seq<char>, branches: Seq<BranchView>, b: BranchView)
    ensures
        placed_on(id, branches, id).contains(b) <==> branches.contains(b) && b.1 == id,
    decreases branches.len(),
{
    if branches.len() > 0 {
        let rest = branches.drop_last();
        lemma_placed_on(id, rest, b);
        let before = placed_on(id, rest, id);
        let all = placed_on(id, branches, id);
        assert(branches[branches.len() - 1] == branches.last());
        if rest.contains(b) {
            assert(branches[rest.index_of(b)] == b);
        } else if branches.contains(b) {
            let k = branches.index_of(b);
            if k < rest.len() {
                assert(rest[k] == b);
            }
        }
        if before.contains(b) {
            assert(all[before.index_of(b)] == b);
        }
        if all.len() > before.len() {
            assert(all[before.len() as int] == all.last());
            if all.contains(b) {
                let k = all.index_of(b);
                if k < before.len() {
                    assert(before[k] == b);
                }
            }
        }
    }
}

/// What is offered to be edited: every commit has its row, and behind it a row for each branch on it,
/// in their order.
pub proof fn law_branches_stand_behind_their_commits(
    commits: Seq<CommitInfo>,
    branches: Seq<BranchView>,
    c: CommitInfo,
    n: int,
)
    requires
        0 <= n <= branches.len(),
    ensures
        rows_of(commits.push(c), branches) == rows_of(commits, branches).push(
            short_id(c.id@) + " "@ + c.summary@,
        ) + branch_rows(c.id@, branches),
        rows_of(Seq::empty(), branches) == Seq::<Seq<char>>::empty(),
        branch_rows(c.id@, branches.take(n)) == chosen(
            n,
            |k: int| branches[k].1 == c.id@,
            |k: int| "branch "@ + branches[k].0,
        ),
    decreases n,
{
    assert(commits.push(c).drop_last() =~= commits);
    let keep = |k: int| branches[k].1 == c.id@;
    let give = |k: int| "branch "@ + branches[k].0;
    if n > 0 {
        law_branches_stand_behind_their_commits(commits, branches, c, n - 1);
        lemma_chosen_next(n - 1, keep, give);
        assert(branches.take(n).drop_last() =~= branches.take(n - 1));
        assert(branches.take(n).last() == branches[n - 1]);
    } else {
        lemma_chosen_none(keep, give);
    }
}

/// The line is empty or a comment.
pub open spec fn says_nothing(raw: Seq<char>) -> bool {
    trim_of(raw).len() == 0 || "#"@.is_prefix_of(trim_of(raw))
}

/// The line is the row of a branch.
pub open spec fn is_branch_row(raw: Seq<char>) -> bool {
    !says_nothing(raw) && "branch "@.is_prefix_of(trim_of(raw))
}

/// The line is the row of a commit.
pub open spec fn is_commit_row(raw: Seq<char>) -> bool {
    !says_nothing(raw) && !is_branch_row(raw)
}

/// The name in the row of a branch.
pub open spec fn row_branch(raw: Seq<char>) -> Seq<char> {
    trim_of(trim_of(raw).skip("branch "@.len() as int))
}

/// The commit in its row: the first word, up to a space.
pub open spec fn row_commit(raw: Seq<char>) -> Seq<char> {
    trim_of(raw).take(index_of_char(trim_of(raw), ' '))
}

/// Line `j` is the nearest row of a commit above line `k`.
pub open spec fn is_commit_above(lines: Seq<Seq<char>>, j: int, k: int) -> bool {
    0 <= j < k && is_commit_row(lines[j]) && forall|m: int|
        j < m < k ==> !is_commit_row(#[trigger] lines[m])
}

proof fn lemma_rows_taken(lines: Seq<Seq<char>>, n: int)
    requires
        0 <= n <= lines.len(),
        parse_rows(lines.take(n)) is Ok,
    ensures
        ({
            let rows = parse_rows(lines.take(n))->Ok_0;
            let commits = places_where(n, |k: int| is_commit_row(lines[k]));
            let branches = places_where(n, |k: int| is_branch_row(lines[k]));
            &&& rows.commits == commits.map_values(|k: int| row_commit(lines[k]))
            &&& rows.branches.len() == branches.len()
            &&& forall|i: int|
                0 <= i < branches.len() ==> {
                    let row = #[trigger] rows.branches[i];
                    &&& row.0 == row_branch(lines[branches[i]])
                    &&& row.0.len() > 0
                    &&& name_check(row.0) == Ok::<_, Seq<char>>(true)
                    &&& exists|j: int| #[trigger]
                        is_commit_above(lines, j, branches[i]) && row.1 == row_commit(lines[j])
                }
            &&& rows.commits.len() == 0 <==> forall|k: int|
                0 <= k < n ==> !is_commit_row(#[trigger] lines[k])
            &&& rows.commits.len() > 0 ==> exists|j: int| #[trigger]
                is_commit_above(lines, j, n) && rows.commits.last() == row_commit(lines[j])
        }),
    decreases n,
{
    let keep_c = |k: int| is_commit_row(lines[k]);
    let keep_b = |k: int| is_branch_row(lines[k]);
    let give = |k: int| row_commit(lines[k]);
    if n > 0 {
        let part = lines.take(n);
        assert(part.drop_last() =~= lines.take(n - 1));
        let raw = lines[n - 1];
        assert(part.last() == raw);
        lemma_rows_taken(lines, n - 1);
        let before = parse_rows(lines.take(n - 1))->Ok_0;
        let rows = parse_rows(part)->Ok_0;
        let commits = places_where(n, keep_c);
        let branches = places_where(n, keep_b);
        assert(rows.commits =~= commits.map_values(give));
        if is_commit_row(raw) {
            assert(is_commit_above(lines, n - 1, n));
            assert(rows.commits.last() == row_commit(raw));
        } else if rows.commits.len() > 0 {
            let j = choose|j: int| #[trigger]
                is_commit_above(lines, j, n - 1) && before.commits.last() == row_commit(lines[j]);
            assert(is_commit_above(lines, j, n));
        }
        if is_branch_row(raw) {
            let j = choose|j: int| #[trigger]
                is_commit_above(lines, j, n - 1) && before.commits.last() == row_commit(lines[j]);
            assert(is_commit_above(lines, j, n - 1));
            assert(branches == places_where(n - 1, keep_b).push(n - 1));
        }
    } else {
        assert(lines.take(0) =~= Seq::<Seq<char>>::empty());
        assert(places_where(0, keep_c).map_values(give) =~= Seq::<Seq<char>>::empty());
    }
}

/// A text that can be read means what its rows say: its commits are the first words of the rows that
/// are neither empty, a comment nor about a branch, in their order; and each row of a branch puts it
/// on the commit of the nearest such row above it, in their order.
pub proof fn law_split_rows_are_taken_at_their_word(lines: Seq<Seq<char>>)
    requires
        parse_rows(lines) is Ok,
    ensures
        ({
            let n = lines.len() as int;
            let rows = parse_rows(lines)->Ok_0;
            let commits = places_where(n, |k: int| is_commit_row(lines[k]));
            let branches = places_where(n, |k: int| is_branch_row(lines[k]));
            &&& rows.commits == commits.map_values(|k: int| row_commit(lines[k]))
            &&& rows.branches.len() == branches.len()
            &&& forall|i: int|
                0 <= i < branches.len() ==> {
                    let row = #[trigger] rows.branches[i];
                    &&& row.0 == row_branch(lines[branches[i]])
                    &&& row.0.len() > 0
                    &&& name_check(row.0) == Ok::<_, Seq<char>>(true)
                    &&& exists|j: int| #[trigger]
                        is_commit_above(lines, j, branches[i]) && row.1 == row_commit(lines[j])
                }
        }),
{
    assert(lines.take(lines.len() as int) =~= lines);
    lemma_rows_taken(lines, lines.len() as int);
}

/// The commits that begin with a text are those, in their order.
pub proof fn law_commits_that_begin_so(ids: Seq<Seq<char>>, start: Seq<char>, n: int)
    requires
        0 <= n <= ids.len(),
    ensures
        beginning_with(ids.take(n), start) == chosen(
            n,
            |k: int| start.is_prefix_of(ids[k]),
            |k: int| ids[k],
        ),
    decreases n,
{
    let keep = |k: int| start.is_prefix_of(ids[k]);
    let give = |k: int| ids[k];
    if n > 0 {
        law_commits_that_begin_so(ids, start, n - 1);
        lemma_chosen_next(n - 1, keep, give);
        assert(ids.take(n).drop_last() =~= ids.take(n - 1));
        assert(ids.take(n).last() == ids[n - 1]);
    } else {
        lemma_chosen_none(keep, give);
    }
}

/// The one commit of the list that begins with a text.
pub open spec fn is_only_one(ids: Seq<Seq<char>>, start: Seq<char>, k: int) -> bool {
    0 <= k < ids.len() && start.is_prefix_of(ids[k]) && forall|j: int|
        0 <= j < ids.len() && j != k ==> !start.is_prefix_of(#[trigger] ids[j])
}

proof fn lemma_only_one(ids: Seq<Seq<char>>, start: Seq<char>)
    ensures
        beginning_with(ids, start).len() == 1 ==> exists|k: int| #[trigger]
            is_only_one(ids, start, k) && beginning_with(ids, start)[0] == ids[k],
        forall|k: int| #[trigger] is_only_one(ids, start, k) ==> beginning_with(ids, start).len() == 1,
        beginning_with(ids, start).len() == 0 <==> forall|k: int|
            0 <= k < ids.len() ==> !start.is_prefix_of(#[trigger] ids[k]),
{
    let n = ids.len() as int;
    let keep = |k: int| start.is_prefix_of(ids[k]);
    let give = |k: int| ids[k];
    law_commits_that_begin_so(ids, start, n);
    assert(ids.take(n) =~= ids);
    let places = places_where(n, keep);
    law_places_where(n, keep);
    let found = beginning_with(ids, start);
    assert(found.len() == places.len());
    if found.len() == 1 {
        let k = places[0];
        assert(places.contains(k));
        assert(found[0] == give(k));
        assert forall|j: int| 0 <= j < n && j != k implies !start.is_prefix_of(#[trigger] ids[j]) by {
            if keep(j) {
                assert(places.contains(j));
                let m = places.index_of(j);
            }
        }
        assert(is_only_one(ids, start, k));
    }
    assert forall|k: int| #[trigger] is_only_one(ids, start, k) implies found.len() == 1 by {
        assert(keep(k));
        assert(places.contains(k));
        if places.len() > 1 {
            assert(places[0] < places[1]);
            assert(places.contains(places[0]) && places.contains(places[1]));
        }
    }
    if found.len() == 0 {
        assert forall|k: int| 0 <= k < n implies !start.is_prefix_of(#[trigger] ids[k]) by {
            if keep(k) {
                assert(places.contains(k));
            }
        }
    }
    if forall|k: int| 0 <= k < n ==> !start.is_prefix_of(#[trigger] ids[k]) {
        if places.len() > 0 {
            assert(places.contains(places[0]));
            assert(!start.is_prefix_of(ids[places[0]]));
        }
    }
}

/// The text is the beginning of one commit of the list and of no other.
pub open spec fn begins_one(ids: Seq<Seq<char>>, start: Seq<char>) -> bool {
    exists|k: int| #[trigger] is_only_one(ids, start, k)
}

/// The commit in each row is the beginning of one commit of the list and of no other.
pub open spec fn each_begins_one(ids: Seq<Seq<char>>, rows: Seq<(Seq<char>, Seq<char>)>) -> bool {
    forall|i: int| 0 <= i < rows.len() ==> begins_one(ids, (#[trigger] rows[i]).1)
}

/// Branches are put on commits exactly where each row's commit is the beginning of one commit of the
/// path and of no other, and no branch has two rows. Each then goes to the commit that its row begins,
/// in the order of the rows.
pub proof fn law_branches_go_to_the_commits_as_written(
    ids: Seq<Seq<char>>,
    rows: Seq<(Seq<char>, Seq<char>)>,
)
    ensures
        assign(ids, rows) is Ok <==> each_begins_one(ids, rows) && forall|i: int, j: int|
            0 <= i < j < rows.len() ==> (#[trigger] rows[i]).0 != (#[trigger] rows[j]).0,
        assign(ids, rows) matches Ok(v) ==> v.len() == rows.len() && forall|i: int|
            0 <= i < rows.len() ==> (#[trigger] v[i]).0 == rows[i].0 && exists|k: int| #[trigger]
                is_only_one(ids, rows[i].1, k) && v[i].1 == ids[k],
    decreases rows.len(),
{
    if rows.len() > 0 {
        let rest = rows.drop_last();
        let n = rows.len() - 1;
        law_branches_go_to_the_commits_as_written(ids, rest);
        lemma_only_one(ids, rows[n].1);
        assert(rows.last() == rows[n]);
        assert(forall|i: int| 0 <= i < n ==> #[trigger] rest[i] == rows[i]);
        assert(each_begins_one(ids, rows) ==> each_begins_one(ids, rest)) by {
            if each_begins_one(ids, rows) {
                assert forall|i: int| 0 <= i < rest.len() implies begins_one(
                    ids,
                    (#[trigger] rest[i]).1,
                ) by {
                    assert(rest[i] == rows[i]);
                }
            }
        }
        match assign(ids, rest) {
            Ok(before) => {
                let taken = first_of(before);
                if taken.contains(rows[n].0) {
                    let m = taken.index_of(rows[n].0);
                    assert(taken[m] == before[m].0);
                    assert(rows[m].0 == rows[n].0);
                } else {
                    assert forall|i: int| 0 <= i < n implies (#[trigger] rows[i]).0 != rows[n].0 by {
                        assert(before[i].0 == rest[i].0);
                        assert(taken[i] == rows[i].0);
                    }
                }
                assert(each_begins_one(ids, rows) <==> beginning_with(ids, rows[n].1).len() == 1)
                    by {
                    if each_begins_one(ids, rows) {
                        assert(begins_one(ids, rows[n].1));
                    }
                    if beginning_with(ids, rows[n].1).len() == 1 {
                        assert forall|i: int| 0 <= i < rows.len() implies begins_one(
                            ids,
                            (#[trigger] rows[i]).1,
                        ) by {
                            if i < n {
                                assert(rest[i] == rows[i]);
                            }
                        }
                    }
                }
                assert(forall|i: int, j: int|
                    0 <= i < j < n ==> (#[trigger] rows[i]).0 != (#[trigger] rows[j]).0) by {
                    assert forall|i: int, j: int| 0 <= i < j < n implies (#[trigger] rows[i]).0 != (
                    #[trigger] rows[j]).0 by {
                        assert(rest[i] == rows[i] && rest[j] == rows[j]);
                    }
                }
                assert(assign(ids, rows) is Ok <==> beginning_with(ids, rows[n].1).len() == 1
                    && !taken.contains(rows[n].0));
            },
            Err(_) => {
                if forall|i: int, j: int|
                    0 <= i < j < rows.len() ==> (#[trigger] rows[i]).0 != (#[trigger] rows[j]).0 {
                    assert forall|i: int, j: int| 0 <= i < j < rest.len() implies (
                    #[trigger] rest[i]).0 != (#[trigger] rest[j]).0 by {
                        assert(rest[i] == rows[i] && rest[j] == rows[j]);
                    }
                }
            },
        }
    }
}

/// A text is accepted only where it names every commit of the path, in order, each by its beginning;
/// what it says then is where its rows put their branches.
pub proof fn law_accepted_split_keeps_the_commits(
    text: Seq<char>,
    ids: Seq<Seq<char>>,
    r: Result<Seq<(Seq<char>, Seq<char>)>, SplitProblem>,
)
    requires
        is_reading(text, ids, r),
        r is Ok,
    ensures
        parse_rows(lines_of(text)) is Ok,
        ({
            let rows = parse_rows(lines_of(text))->Ok_0;
            &&& rows.commits.len() == ids.len()
            &&& forall|i: int|
                0 <= i < ids.len() ==> (#[trigger] rows.commits[i]).is_prefix_of(ids[i])
            &&& r == assign(ids, rows.branches)
        }),
{
}

} // verus!
