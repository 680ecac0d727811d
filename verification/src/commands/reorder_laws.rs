//! What is promised of `kin reorder`: a text that comes back unedited changes nothing, one that is
//! edited is taken at its word, and each branch leaves the one below it for its new parent.

use crate::boundary::first_parent_chain;
use crate::boundary_laws::{
    is_first_parent_line, law_chain_is_the_line_of_first_parents, lemma_line_descends,
};
use crate::commands::reorder::{
    commit_counts, is_circle, law_refused_reorder_has_a_circle, law_reorder_puts_parents_first,
    parent_ids, parent_names, parent_row, parent_rows, parent_step, parents_before,
    parents_of_lines, parsed_parents, reorder_help, row_text, without_parent, ParentsView,
    ReorderProblem,
};
use crate::graph::{descends, law_descent_is_strict, parents_first, Parents};
use crate::stack::{names_of, parent_in_stack, BranchView};
use crate::stack_laws::{law_index_other_on, law_parent_is_right_below};
use crate::text::{
    index_of_char, is_white, lemma_index_of_char_is, lemma_lines_of_unlines, lemma_trim_same, lemma_words_head,
    lines_of, trim_end_of, trim_of, trim_start_of, unlines_of, without_cr, words_of,
};
use vstd::prelude::*;

verus! {

/// A name that can stand in a row: it has no white space and no `#`.
pub open spec fn plain_name(s: Seq<char>) -> bool {
    s.len() > 0 && forall|i: int| 0 <= i < s.len() ==> !is_white(#[trigger] s[i]) && s[i] != '#'
}

/// The parts of a row.
pub open spec fn row_words(name: Seq<char>, parent: Seq<char>, short: bool) -> Seq<Seq<char>> {
    if short {
        seq!["branch"@, name]
    } else {
        seq!["branch"@, name, "parent"@, parent]
    }
}

pub open spec fn row_body(name: Seq<char>, parent: Seq<char>, short: bool) -> Seq<char> {
    if short {
        "branch "@ + name
    } else {
        "branch "@ + name + " parent "@ + parent
    }
}

proof fn lemma_body_words(name: Seq<char>, parent: Seq<char>, short: bool)
    requires
        plain_name(name),
        plain_name(parent),
    ensures
        words_of(row_body(name, parent, short)) == row_words(name, parent, short),
{
    reveal_strlit("branch");
    reveal_strlit("branch ");
    reveal_strlit("parent");
    reveal_strlit(" parent ");
    let gap = seq![' '];
    let none = Seq::<char>::empty();
    reveal_with_fuel(words_of, 2);
    assert(words_of(none) =~= Seq::<Seq<char>>::empty());
    let tail = if short {
        none
    } else {
        " parent "@ + parent
    };
    assert("branch "@ =~= "branch"@ + gap);
    assert(" parent "@ =~= gap + "parent"@ + gap);
    if !short {
        assert(parent + none =~= parent);
        lemma_words_head(none, parent, none);
        assert(gap + parent + none =~= gap + parent);
        lemma_words_head(gap, parent, none);
        lemma_words_head(gap, "parent"@, gap + parent);
        assert(tail =~= gap + "parent"@ + (gap + parent));
        assert(words_of(tail) =~= seq!["parent"@, parent]);
    }
    lemma_words_head(gap, name, tail);
    let rest = gap + name + tail;
    lemma_words_head(none, "branch"@, rest);
    assert(row_body(name, parent, short) =~= none + "branch"@ + rest);
    assert(words_of(row_body(name, parent, short)) =~= row_words(name, parent, short));
}

proof fn lemma_body(name: Seq<char>, parent: Seq<char>, short: bool)
    requires
        plain_name(name),
        plain_name(parent),
    ensures
        ({
            let b = row_body(name, parent, short);
            &&& b.len() > 0
            &&& b[0] == 'b'
            &&& !is_white(b.last())
            &&& forall|i: int| 0 <= i < b.len() ==> b[i] != '#' && b[i] != '\n'
        }),
{
    reveal_strlit("branch ");
    reveal_strlit(" parent ");
    let b = row_body(name, parent, short);
    let one = "branch "@ + name;
    assert forall|i: int| 0 <= i < one.len() implies one[i] != '#' && one[i] != '\n' by {
        if i < 7 {
            assert(one[i] == "branch "@[i]);
        } else {
            assert(one[i] == name[i - 7]);
        }
    }
    assert(one.last() == name.last());
    assert(one[0] == 'b');
    if !short {
        let two = one + " parent "@;
        assert(b =~= two + parent);
        assert(b.last() == parent.last());
        assert(b[0] == one[0]);
        assert forall|i: int| 0 <= i < b.len() implies b[i] != '#' && b[i] != '\n' by {
            if i < one.len() {
                assert(b[i] == one[i]);
            } else if i < two.len() {
                assert(b[i] == " parent "@[i - one.len()]);
            } else {
                assert(b[i] == parent[i - two.len()]);
            }
        }
    }
}

proof fn lemma_row(name: Seq<char>, parent: Seq<char>, above: Option<Seq<char>>, current: Seq<char>)
    requires
        plain_name(name),
        plain_name(parent),
    ensures
        ({
            let row = parent_row(name, parent, above, current);
            &&& row_text(without_cr(row)) == row_body(name, parent, above == Some(parent))
            &&& !row.contains('\n')
        }),
{
    reveal_strlit("  # current");
    let body = row_body(name, parent, above == Some(parent));
    let row = parent_row(name, parent, above, current);
    lemma_body(name, parent, above == Some(parent));
    lemma_trim_same(body);
    if name == current {
        assert(row == body + "  # current"@);
        assert(row.last() == 't');
        let at = body.len() + 2;
        assert(row[at as int] == "  # current"@[2]);
        assert forall|i: int| 0 <= i < at implies row[i] != '#' by {
            if i < body.len() {
                assert(row[i] == body[i]);
            } else {
                assert(row[i] == "  # current"@[i - body.len()]);
            }
        }
        lemma_index_of_char_is(row, '#', at as int);
        let head = row.take(at as int);
        assert(head =~= body.push(' ').push(' '));
        assert(head.drop_last() =~= body.push(' '));
        assert(body.push(' ').drop_last() =~= body);
        assert(head[0] == body[0]);
        assert(trim_start_of(head) == head);
        assert(is_white(' '));
        assert(trim_end_of(head) == trim_end_of(body.push(' ')));
        assert(trim_end_of(body.push(' ')) == trim_end_of(body));
        assert forall|i: int| 0 <= i < row.len() implies row[i] != '\n' by {
            if i < body.len() {
                assert(row[i] == body[i]);
            } else {
                assert(row[i] == "  # current"@[i - body.len()]);
            }
        }
    } else {
        assert(row == body);
        assert(is_white('\r'));
        lemma_index_of_char_is(row, '#', row.len() as int);
        assert(row.take(row.len() as int) =~= row);
    }
}

/// The lines as they are read back.
pub open spec fn read_back(lines: Seq<Seq<char>>) -> Seq<Seq<char>> {
    Seq::new(lines.len(), |i: int| without_cr(lines[i]))
}

proof fn lemma_read_back_push(lines: Seq<Seq<char>>, l: Seq<char>)
    ensures
        read_back(lines.push(l)).drop_last() == read_back(lines),
        read_back(lines.push(l)).last() == without_cr(l),
{
    assert(read_back(lines.push(l)).drop_last() =~= read_back(lines));
}

/// The branches and parents that a text can be written for and read back.
pub open spec fn writable(
    names: Seq<Seq<char>>,
    parents: Map<Seq<char>, Seq<char>>,
    upstream: Seq<char>,
) -> bool {
    &&& names.no_duplicates()
    &&& parents.dom() == names.to_set()
    &&& plain_name(upstream)
    &&& forall|i: int| 0 <= i < names.len() ==> plain_name(#[trigger] names[i])
    &&& forall|i: int|
        0 <= i < names.len() ==> parents[#[trigger] names[i]] == upstream || names.contains(
            parents[names[i]],
        )
}

proof fn lemma_rows(
    names: Seq<Seq<char>>,
    parents: Map<Seq<char>, Seq<char>>,
    current: Seq<char>,
    upstream: Seq<char>,
    n: int,
)
    requires
        writable(names, parents, upstream),
        0 <= n <= names.len(),
    ensures
        parents_of_lines(read_back(parent_rows(names, parents, current, n)), names, upstream)
            == Ok::<_, ReorderProblem>(
            ParentsView {
                parents: parents.restrict(names.take(n).to_set()),
                above: if n > 0 {
                    Some(names[n - 1])
                } else {
                    None
                },
            },
        ),
        parent_rows(names, parents, current, n).len() == n,
        forall|i: int|
            0 <= i < n ==> !(#[trigger] parent_rows(names, parents, current, n)[i]).contains('\n'),
    decreases n,
{
    if n == 0 {
        assert(parents.restrict(names.take(0).to_set()) =~= Map::empty());
    } else {
        lemma_rows(names, parents, current, upstream, n - 1);
        let rows = parent_rows(names, parents, current, n - 1);
        let name = names[n - 1];
        let parent = parents[name];
        let above = if n >= 2 {
            Some(names[n - 2])
        } else {
            None
        };
        let row = parent_row(name, parent, above, current);
        assert(names.contains(name));
        assert(plain_name(parent)) by {
            if parent != upstream {
                let k = names.index_of(parent);
                assert(plain_name(names[k]));
            }
        }
        lemma_read_back_push(rows, row);
        lemma_row(name, parent, above, current);
        let short = above == Some(parent);
        lemma_body_words(name, parent, short);
        lemma_body(name, parent, short);
        let before = ParentsView { parents: parents.restrict(names.take(n - 1).to_set()), above };
        reveal_strlit("branch");
        reveal_strlit("parent");
        assert(!before.parents.contains_key(name)) by {
            if names.take(n - 1).contains(name) {
                let k = names.take(n - 1).index_of(name);
                assert(names[k] == names[n - 1]);
            }
        }
        assert(names.take(n) =~= names.take(n - 1).push(name));
        assert(parents.restrict(names.take(n).to_set()) =~= before.parents.insert(name, parent))
            by {
            assert forall|t: Seq<char>|
                names.take(n).contains(t) <==> names.take(n - 1).contains(t) || t == name by {
                if names.take(n - 1).contains(t) {
                    let k = names.take(n - 1).index_of(t);
                    assert(names.take(n)[k] == t);
                }
                assert(names.take(n)[n - 1] == name);
                if names.take(n).contains(t) {
                    let k = names.take(n).index_of(t);
                    if k < n - 1 {
                        assert(names.take(n - 1)[k] == t);
                    }
                }
            }
        }
        assert(parent_step(before, without_cr(row), names, upstream) == Ok::<_, ReorderProblem>(
            ParentsView { parents: before.parents.insert(name, parent), above: Some(name) },
        ));
    }
}

proof fn lemma_help_lines(
    lines: Seq<Seq<char>>,
    help: Seq<Seq<char>>,
    names: Seq<Seq<char>>,
    upstream: Seq<char>,
    n: int,
)
    requires
        0 <= n <= help.len(),
        parents_of_lines(read_back(lines), names, upstream) is Ok,
        forall|i: int|
            0 <= i < help.len() ==> (#[trigger] help[i]).len() == 0 || help[i][0] == '#',
    ensures
        parents_of_lines(read_back(lines + help.take(n)), names, upstream) == parents_of_lines(
            read_back(lines),
            names,
            upstream,
        ),
    decreases n,
{
    if n == 0 {
        assert(lines + help.take(0) =~= lines);
    } else {
        lemma_help_lines(lines, help, names, upstream, n - 1);
        let row = help[n - 1];
        assert(lines + help.take(n) =~= (lines + help.take(n - 1)).push(row));
        lemma_read_back_push(lines + help.take(n - 1), row);
        let raw = without_cr(row);
        assert(raw.len() == 0 || raw[0] == '#');
        lemma_index_of_char_is(raw, '#', 0);
        assert(raw.take(0) =~= Seq::<char>::empty());
        lemma_trim_same(raw.take(0));
    }
}

proof fn lemma_help_text(upstream: Seq<char>)
    requires
        plain_name(upstream),
    ensures
        forall|i: int|
            0 <= i < reorder_help(upstream).len() ==> (#[trigger] reorder_help(upstream)[i]).len()
                == 0 || reorder_help(upstream)[i][0] == '#',
        forall|i: int|
            0 <= i < reorder_help(upstream).len() ==> !(#[trigger] reorder_help(
                upstream,
            )[i]).contains('\n'),
{
    reveal_strlit("");
    reveal_strlit("# kin reorder");
    reveal_strlit("# Edit only the parent target for each branch.");
    reveal_strlit("# Keep exactly one row per branch.");
    reveal_strlit("# Parent targets must be another listed branch or '");
    reveal_strlit("'.");
    reveal_strlit("# 'branch <name>' means the branch above it is the parent.");
    reveal_strlit("# Forks are created by assigning multiple branches the same parent.");
    reveal_strlit("# Cycles and self-parenting are not allowed.");
    let open = "# Parent targets must be another listed branch or '"@;
    let line = open + upstream + "'."@;
    assert(line[0] == open[0]);
    assert forall|i: int| 0 <= i < line.len() implies line[i] != '\n' by {
        if i < open.len() {
            assert(line[i] == open[i]);
        } else if i < open.len() + upstream.len() {
            assert(line[i] == upstream[i - open.len()]);
            assert(is_white('\n'));
        } else {
            assert(line[i] == "'."@[i - open.len() - upstream.len()]);
        }
    }
}

proof fn lemma_all_have_parents(names: Seq<Seq<char>>, parents: Map<Seq<char>, Seq<char>>)
    requires
        forall|i: int| 0 <= i < names.len() ==> parents.contains_key(#[trigger] names[i]),
    ensures
        without_parent(names, parents).len() == 0,
    decreases names.len(),
{
    if names.len() > 0 {
        let rest = names.drop_last();
        assert forall|i: int| 0 <= i < rest.len() implies parents.contains_key(
            #[trigger] rest[i],
        ) by {
            assert(rest[i] == names[i]);
        }
        lemma_all_have_parents(rest, parents);
        assert(parents.contains_key(names[names.len() - 1]));
    }
}

/// A text that comes back as it was written says that each branch has the parent it has.
pub proof fn law_unedited_reorder_changes_nothing(
    names: Seq<Seq<char>>,
    parents: Map<Seq<char>, Seq<char>>,
    current: Seq<char>,
    upstream: Seq<char>,
)
    requires
        writable(names, parents, upstream),
    ensures
        parsed_parents(
            unlines_of(
                parent_rows(names, parents, current, names.len() as int) + reorder_help(upstream),
            ),
            names,
            upstream,
        ) == Ok::<_, ReorderProblem>(parents),
{
    let n = names.len() as int;
    let rows = parent_rows(names, parents, current, n);
    let help = reorder_help(upstream);
    let lines = rows + help;
    lemma_rows(names, parents, current, upstream, n);
    lemma_help_text(upstream);
    lemma_help_lines(rows, help, names, upstream, help.len() as int);
    assert(help.take(help.len() as int) =~= help);
    assert forall|i: int| 0 <= i < lines.len() implies !(#[trigger] lines[i]).contains('\n') by {
        if i < rows.len() {
            assert(lines[i] == rows[i]);
        } else {
            assert(lines[i] == help[i - rows.len()]);
        }
    }
    lemma_lines_of_unlines(lines);
    assert(lines_of(unlines_of(lines)) =~= read_back(lines));
    assert(names.take(n) =~= names);
    assert(parents.restrict(names.to_set()) =~= parents);
    assert forall|i: int| 0 <= i < names.len() implies parents.contains_key(
        #[trigger] names[i],
    ) by {
        assert(names.contains(names[i]));
    }
    lemma_all_have_parents(names, parents);
}

proof fn lemma_parent_ids_at(g: Parents, all: Seq<BranchView>, merge_base: Seq<char>, n: int, i: int)
    requires
        0 <= i < n <= all.len(),
        names_of(all).no_duplicates(),
    ensures
        parent_ids(g, all, merge_base, n).contains_key(all[i].0),
        parent_ids(g, all, merge_base, n)[all[i].0] == parent_in_stack(
            g,
            all[i].0,
            all,
            merge_base,
        ),
    decreases n,
{
    if i < n - 1 {
        lemma_parent_ids_at(g, all, merge_base, n - 1, i);
        assert(names_of(all)[i] != names_of(all)[n - 1]);
    }
}

proof fn lemma_commit_counts_at(
    g: Parents,
    steps: nat,
    all: Seq<BranchView>,
    ids: Map<Seq<char>, Seq<char>>,
    n: int,
    i: int,
)
    requires
        0 <= i < n <= all.len(),
        names_of(all).no_duplicates(),
        first_parent_chain(g, ids[all[i].0], all[i].1, steps) is Some,
    ensures
        commit_counts(g, steps, all, ids, n).contains_key(all[i].0),
        commit_counts(g, steps, all, ids, n)[all[i].0] == first_parent_chain(
            g,
            ids[all[i].0],
            all[i].1,
            steps,
        )->0.len(),
    decreases n,
{
    if i < n - 1 {
        lemma_commit_counts_at(g, steps, all, ids, n - 1, i);
        assert(names_of(all)[i] != names_of(all)[n - 1]);
    }
}

/// In a reorder each branch leaves the nearest branch below it. The commit that is noted for it is
/// the merge base or the tip of another branch of the stack that it comes from, and no tip of another
/// branch lies between the two. This holds of branches of different names that come from the merge
/// base.
pub proof fn law_reordered_branch_leaves_the_nearest(
    g: Parents,
    order: Seq<Seq<char>>,
    all: Seq<BranchView>,
    merge_base: Seq<char>,
    i: int,
)
    requires
        parents_first(g, order),
        0 <= i < all.len(),
        names_of(all).no_duplicates(),
        forall|k: int|
            0 <= k < all.len() && descends(g, all[i].1, (#[trigger] all[k]).1) ==> descends(
                g,
                all[k].1,
                merge_base,
            ),
    ensures
        ({
            let ids = parent_ids(g, all, merge_base, all.len() as int);
            let parent = ids[all[i].0];
            &&& ids.contains_key(all[i].0)
            &&& parent == merge_base || exists|k: int|
                0 <= k < all.len() && k != i && (#[trigger] all[k]).1 == parent
            &&& parent == merge_base || descends(g, all[i].1, parent)
            &&& forall|k: int|
                0 <= k < all.len() && descends(g, all[i].1, (#[trigger] all[k]).1) ==> !descends(
                    g,
                    all[k].1,
                    parent,
                )
        }),
{
    lemma_parent_ids_at(g, all, merge_base, all.len() as int, i);
    law_parent_is_right_below(g, order, all, i, merge_base);
}

/// The commits that a reorder counts for a branch, and carries along with it, are its own: they are
/// the line of first parents from the commit that it leaves up to its tip, and no tip of another
/// branch lies among those below its own.
pub proof fn law_reordered_branch_takes_its_own_commits(
    g: Parents,
    order: Seq<Seq<char>>,
    all: Seq<BranchView>,
    merge_base: Seq<char>,
    i: int,
    line: Seq<Seq<char>>,
)
    requires
        parents_first(g, order),
        0 <= i < all.len(),
        names_of(all).no_duplicates(),
        forall|k: int|
            0 <= k < all.len() && descends(g, all[i].1, (#[trigger] all[k]).1) ==> descends(
                g,
                all[k].1,
                merge_base,
            ),
        line.len() > 0,
        is_first_parent_line(g, line),
        line[0] == parent_ids(g, all, merge_base, all.len() as int)[all[i].0],
        line.last() == all[i].1,
    ensures
        ({
            let ids = parent_ids(g, all, merge_base, all.len() as int);
            let counts = commit_counts(g, order.len(), all, ids, all.len() as int);
            &&& counts.contains_key(all[i].0)
            &&& counts[all[i].0] == line.len() - 1
            &&& forall|j: int, k: int|
                0 < j < line.len() - 1 && 0 <= k < all.len() ==> #[trigger] line[j] != (
                #[trigger] all[k]).1
        }),
{
    let ids = parent_ids(g, all, merge_base, all.len() as int);
    let parent = line[0];
    let tip = all[i].1;
    law_reordered_branch_leaves_the_nearest(g, order, all, merge_base, i);
    law_chain_is_the_line_of_first_parents(g, order, parent, tip);
    if line.skip(1).contains(parent) {
        let m = line.skip(1).index_of(parent);
        lemma_line_descends(g, line, 0, m + 1);
        law_descent_is_strict(g, order, parent, parent);
    }
    lemma_commit_counts_at(g, order.len(), all, ids, all.len() as int, i);
    assert forall|j: int, k: int| 0 < j < line.len() - 1 && 0 <= k < all.len() implies #[trigger] line[j]
        != (#[trigger] all[k]).1 by {
        if line[j] == all[k].1 {
            lemma_line_descends(g, line, j, line.len() - 1);
            lemma_line_descends(g, line, 0, j);
        }
    }
}

/// A reorder rebases every branch of the stack once, each behind its new parent, unless that is the
/// upstream.
pub proof fn law_new_parents_come_first(
    names: Seq<Seq<char>>,
    parents: Map<Seq<char>, Seq<char>>,
    upstream: Seq<char>,
)
    ensures
        parents_before(Seq::empty(), names, parents, upstream) matches Some(order)
            ==> order.to_multiset() == names.to_multiset() && forall|i: int|
            0 <= i < order.len() ==> parents.contains_key(#[trigger] order[i]) && (parents[order[i]]
                == upstream || exists|j: int|
                0 <= j < i && #[trigger] order[j] == parents[order[i]]),
{
    law_reorder_puts_parents_first(names, parents, upstream);
    match parents_before(Seq::empty(), names, parents, upstream) {
        Some(order) => {
            assert forall|i: int| 0 <= i < order.len() implies parents.contains_key(
                #[trigger] order[i],
            ) && (parents[order[i]] == upstream || exists|j: int|
                0 <= j < i && #[trigger] order[j] == parents[order[i]]) by {
                if parents[order[i]] != upstream {
                    let j = order.take(i).index_of(parents[order[i]]);
                    assert(order[j] == parents[order[i]]);
                }
            }
        },
        None => {},
    }
}

/// New parents are refused exactly where some branches of the stack stand on each other only. This
/// holds of texts that give every branch a parent: the upstream or a branch of the stack.
pub proof fn law_only_circles_are_refused(
    names: Seq<Seq<char>>,
    parents: Map<Seq<char>, Seq<char>>,
    upstream: Seq<char>,
)
    requires
        forall|k: int| 0 <= k < names.len() ==> parents.contains_key(#[trigger] names[k]) && (
        parents[names[k]] == upstream || names.contains(parents[names[k]])),
    ensures
        parents_before(Seq::empty(), names, parents, upstream) is None <==> exists|
            circle: Seq<Seq<char>>,
        | #[trigger]
            circle.len() > 0 && forall|i: int|
                0 <= i < circle.len() ==> names.contains(#[trigger] circle[i])
                    && parents[circle[i]] != upstream && circle.contains(parents[circle[i]]),
{
    if parents_before(Seq::empty(), names, parents, upstream) is None {
        law_refused_reorder_has_a_circle(names, parents, upstream);
        let circle = choose|circle: Seq<Seq<char>>|
            #[trigger] is_circle(circle, parents, upstream) && forall|k: int|
                0 <= k < circle.len() ==> names.contains(#[trigger] circle[k]);
        assert(circle.len() > 0);
    } else {
        law_new_parents_come_first(names, parents, upstream);
        let order = parents_before(Seq::empty(), names, parents, upstream)->0;
        assert forall|circle: Seq<Seq<char>>| #[trigger] circle.len() > 0 implies !(forall|i: int|
            0 <= i < circle.len() ==> names.contains(#[trigger] circle[i]) && parents[circle[i]]
                != upstream && circle.contains(parents[circle[i]])) by {
            if forall|i: int|
                0 <= i < circle.len() ==> names.contains(#[trigger] circle[i])
                    && parents[circle[i]] != upstream && circle.contains(parents[circle[i]]) {
                lemma_no_circle(names, order, parents, upstream, circle, order.len() as int);
                broadcast use vstd::seq_lib::group_to_multiset_ensures;

                assert(names.contains(circle[0]));
                assert(names.to_multiset().count(circle[0]) > 0);
                assert(order.contains(circle[0]));
                let k = order.index_of(circle[0]);
                assert(circle.contains(order[k]));
            }
        }
    }
}

/// None of the first branches of the order is part of a circle.
proof fn lemma_no_circle(
    names: Seq<Seq<char>>,
    order: Seq<Seq<char>>,
    parents: Map<Seq<char>, Seq<char>>,
    upstream: Seq<char>,
    circle: Seq<Seq<char>>,
    n: int,
)
    requires
        0 <= n <= order.len(),
        forall|i: int|
            0 <= i < order.len() ==> parents.contains_key(#[trigger] order[i]) && (parents[order[i]]
                == upstream || exists|j: int|
                0 <= j < i && #[trigger] order[j] == parents[order[i]]),
        forall|i: int|
            0 <= i < circle.len() ==> names.contains(#[trigger] circle[i]) && parents[circle[i]]
                != upstream && circle.contains(parents[circle[i]]),
    ensures
        forall|k: int| 0 <= k < n ==> !circle.contains(#[trigger] order[k]),
    decreases n,
{
    if n > 0 {
        lemma_no_circle(names, order, parents, upstream, circle, n - 1);
        if circle.contains(order[n - 1]) {
            let i = circle.index_of(order[n - 1]);
            assert(names.contains(circle[i]));
            let j = choose|j: int| 0 <= j < n - 1 && #[trigger] order[j] == parents[order[n - 1]];
            assert(circle.contains(order[j]));
        }
    }
}

/// What is offered to be edited are the parents as they are: for each branch the name of the first
/// other branch that is on the commit that it stands on, or the upstream where there is none; nothing
/// else has a parent. This holds of branches of different names.
pub proof fn law_offered_parents_are_the_present_ones(
    g: Parents,
    all: Seq<BranchView>,
    merge_base: Seq<char>,
    upstream: Seq<char>,
    n: int,
    i: int,
)
    requires
        0 <= i < n <= all.len(),
        names_of(all).no_duplicates(),
    ensures
        ({
            let names = parent_names(g, all, merge_base, upstream, n);
            let parent = parent_in_stack(g, all[i].0, all, merge_base);
            &&& names.contains_key(all[i].0)
            &&& (names[all[i].0] == upstream && forall|k: int|
                0 <= k < all.len() && k != i ==> (#[trigger] all[k]).1 != parent) || exists|k: int|
                0 <= k < all.len() && k != i && (#[trigger] all[k]).1 == parent && names[all[i].0]
                    == all[k].0 && forall|j: int|
                    0 <= j < k && j != i ==> (#[trigger] all[j]).1 != parent
            &&& forall|t: Seq<char>| #[trigger] names.contains_key(t) ==> names_of(all).contains(t)
        }),
    decreases n,
{
    let parent = parent_in_stack(g, all[i].0, all, merge_base);
    let names = parent_names(g, all, merge_base, upstream, n);
    if i < n - 1 {
        law_offered_parents_are_the_present_ones(g, all, merge_base, upstream, n - 1, i);
        assert(names_of(all)[i] != names_of(all)[n - 1]);
        assert forall|t: Seq<char>| #[trigger] names.contains_key(t) implies names_of(all).contains(
            t,
        ) by {
            if t == all[n - 1].0 {
                assert(names_of(all)[n - 1] == t);
            } else {
                assert(parent_names(g, all, merge_base, upstream, n - 1).contains_key(t));
            }
        }
    } else {
        let at = crate::stack::index_other_on(all, parent, all[i].0);
        law_index_other_on(all, parent, all[i].0);
        assert forall|k: int| 0 <= k < all.len() && k != i implies (#[trigger] all[k]).0
            != all[i].0 by {
            assert(names_of(all)[k] != names_of(all)[i]);
        }
        if at < all.len() {
            assert(all[at].1 == parent);
        }
        lemma_parent_names_keys(g, all, merge_base, upstream, n);
    }
}

proof fn lemma_parent_names_keys(
    g: Parents,
    all: Seq<BranchView>,
    merge_base: Seq<char>,
    upstream: Seq<char>,
    n: int,
)
    requires
        0 <= n <= all.len(),
    ensures
        forall|t: Seq<char>| #[trigger]
            parent_names(g, all, merge_base, upstream, n).contains_key(t) ==> names_of(
                all,
            ).contains(t),
    decreases n,
{
    if n > 0 {
        lemma_parent_names_keys(g, all, merge_base, upstream, n - 1);
        assert(names_of(all)[n - 1] == all[n - 1].0);
        assert forall|t: Seq<char>| #[trigger]
            parent_names(g, all, merge_base, upstream, n).contains_key(t) implies names_of(
            all,
        ).contains(t) by {
            if t != all[n - 1].0 {
                assert(parent_names(g, all, merge_base, upstream, n - 1).contains_key(t));
            }
        }
    }
}

/// The branch of the last row above line `n`, and that every row above it is fine.
spec fn rows_read(
    lines: Seq<Seq<char>>,
    names: Seq<Seq<char>>,
    upstream: Seq<char>,
    n: int,
) -> Result<ParentsView, ReorderProblem> {
    parents_of_lines(lines.take(n), names, upstream)
}

/// The words of a row, up to a `#`.
pub open spec fn words_before_comment(raw: Seq<char>) -> Seq<Seq<char>> {
    words_of(trim_of(raw.take(index_of_char(raw, '#'))))
}

/// The line holds a row.
pub open spec fn holds_row(raw: Seq<char>) -> bool {
    trim_of(raw.take(index_of_char(raw, '#'))).len() > 0
}

/// Line `j` is the nearest above line `k` that holds a row.
pub open spec fn is_row_above(lines: Seq<Seq<char>>, j: int, k: int) -> bool {
    0 <= j < k && holds_row(lines[j]) && forall|m: int| j < m < k ==> !holds_row(#[trigger] lines[m])
}

proof fn lemma_rows_read(
    lines: Seq<Seq<char>>,
    names: Seq<Seq<char>>,
    upstream: Seq<char>,
    n: int,
)
    requires
        0 <= n <= lines.len(),
        rows_read(lines, names, upstream, n) is Ok,
    ensures
        ({
            let s = rows_read(lines, names, upstream, n)->Ok_0;
            &&& s.above is None <==> forall|k: int| 0 <= k < n ==> !holds_row(#[trigger] lines[k])
            &&& s.above is Some ==> exists|j: int| #[trigger]
                is_row_above(lines, j, n) && words_before_comment(lines[j])[1] == s.above->0
            &&& forall|k: int|
                0 <= k < n && holds_row(#[trigger] lines[k]) ==> row_is_taken(
                    lines,
                    names,
                    upstream,
                    s.parents,
                    k,
                )
            &&& forall|t: Seq<char>| #[trigger]
                s.parents.contains_key(t) ==> exists|k: int|
                    0 <= k < n && holds_row(#[trigger] lines[k]) && words_before_comment(
                        lines[k],
                    )[1] == t
            &&& forall|j: int, k: int|
                0 <= j < k < n && holds_row(#[trigger] lines[j]) && holds_row(#[trigger] lines[k])
                    ==> words_before_comment(lines[j])[1] != words_before_comment(lines[k])[1]
        }),
    decreases n,
{
    if n > 0 {
        let part = lines.take(n);
        assert(part.drop_last() =~= lines.take(n - 1));
        assert(part.last() == lines[n - 1]);
        lemma_rows_read(lines, names, upstream, n - 1);
        let before = rows_read(lines, names, upstream, n - 1)->Ok_0;
        let s = rows_read(lines, names, upstream, n)->Ok_0;
        let raw = lines[n - 1];
        if !holds_row(raw) {
            if s.above is Some {
                let j = choose|j: int| #[trigger]
                    is_row_above(lines, j, n - 1) && words_before_comment(lines[j])[1]
                        == s.above->0;
                assert(is_row_above(lines, j, n));
            }
            assert forall|t: Seq<char>| #[trigger] s.parents.contains_key(t) implies exists|k: int|
                0 <= k < n && holds_row(#[trigger] lines[k]) && words_before_comment(lines[k])[1]
                    == t by {
                let k = choose|k: int|
                    0 <= k < n - 1 && holds_row(#[trigger] lines[k]) && words_before_comment(
                        lines[k],
                    )[1] == t;
                assert(0 <= k < n && holds_row(lines[k]));
            }
        } else {
            let parts = words_before_comment(raw);
            assert(is_row_above(lines, n - 1, n));
            assert(s.above == Some(parts[1]));
            assert(!before.parents.contains_key(parts[1]));
            if parts.len() == 2 {
                let j = choose|j: int| #[trigger]
                    is_row_above(lines, j, n - 1) && words_before_comment(lines[j])[1]
                        == before.above->0;
                assert(is_row_above(lines, j, n - 1));
            }
            assert(row_is_taken(lines, names, upstream, s.parents, n - 1));
            assert forall|k: int| 0 <= k < n && holds_row(#[trigger] lines[k]) implies row_is_taken(
                lines,
                names,
                upstream,
                s.parents,
                k,
            ) by {
                if k < n - 1 {
                    assert(row_is_taken(lines, names, upstream, before.parents, k));
                }
            }
            assert forall|t: Seq<char>| #[trigger] s.parents.contains_key(t) implies exists|k: int|
                0 <= k < n && holds_row(#[trigger] lines[k]) && words_before_comment(lines[k])[1]
                    == t by {
                if t == parts[1] {
                    assert(holds_row(lines[n - 1]));
                } else {
                    assert(before.parents.contains_key(t));
                    let k = choose|k: int|
                        0 <= k < n - 1 && holds_row(#[trigger] lines[k]) && words_before_comment(
                            lines[k],
                        )[1] == t;
                    assert(0 <= k < n && holds_row(lines[k]));
                }
            }
            assert forall|j: int, k: int|
                0 <= j < k < n && holds_row(#[trigger] lines[j]) && holds_row(
                    #[trigger] lines[k],
                ) implies words_before_comment(lines[j])[1] != words_before_comment(
                lines[k],
            )[1] by {
                if k == n - 1 {
                    assert(row_is_taken(lines, names, upstream, before.parents, j));
                }
            }
        }
    }
}

/// The row on line `k` is taken at its word: it gives a branch of the stack the parent that it spells
/// out, or the branch of the row above where it spells out none; and that is the upstream or a branch
/// of the stack.
pub open spec fn row_is_taken(
    lines: Seq<Seq<char>>,
    names: Seq<Seq<char>>,
    upstream: Seq<char>,
    parents: Map<Seq<char>, Seq<char>>,
    k: int,
) -> bool {
    let parts = words_before_comment(lines[k]);
    &&& parts.len() == 2 || (parts.len() == 4 && parts[2] == "parent"@)
    &&& parts[0] == "branch"@
    &&& names.contains(parts[1])
    &&& parents.contains_key(parts[1])
    &&& parents[parts[1]] == upstream || names.contains(parents[parts[1]])
    &&& parts.len() == 4 ==> parents[parts[1]] == parts[3]
    &&& parts.len() == 2 ==> exists|j: int| #[trigger]
        is_row_above(lines, j, k) && words_before_comment(lines[j])[1] == parents[parts[1]]
}

/// A text that is accepted means what its rows say: every branch of the stack has exactly one row,
/// every row is about a branch of the stack, and each gives its branch the parent that it spells out,
/// or the branch of the row above.
pub proof fn law_edited_rows_are_taken_at_their_word(
    text: Seq<char>,
    names: Seq<Seq<char>>,
    upstream: Seq<char>,
)
    requires
        parsed_parents(text, names, upstream) is Ok,
    ensures
        ({
            let lines = lines_of(text);
            let parents = parsed_parents(text, names, upstream)->Ok_0;
            &&& forall|t: Seq<char>| #[trigger] parents.contains_key(t) <==> names.contains(t)
            &&& forall|k: int|
                0 <= k < lines.len() && holds_row(#[trigger] lines[k]) ==> row_is_taken(
                    lines,
                    names,
                    upstream,
                    parents,
                    k,
                )
            &&& forall|t: Seq<char>| #[trigger]
                names.contains(t) ==> exists|k: int|
                    0 <= k < lines.len() && holds_row(#[trigger] lines[k]) && words_before_comment(
                        lines[k],
                    )[1] == t
            &&& forall|j: int, k: int|
                0 <= j < k < lines.len() && holds_row(#[trigger] lines[j]) && holds_row(
                    #[trigger] lines[k],
                ) ==> words_before_comment(lines[j])[1] != words_before_comment(lines[k])[1]
        }),
{
    let lines = lines_of(text);
    assert(lines.take(lines.len() as int) =~= lines);
    lemma_rows_read(lines, names, upstream, lines.len() as int);
    let parents = parsed_parents(text, names, upstream)->Ok_0;
    assert forall|t: Seq<char>| #[trigger] parents.contains_key(t) <==> names.contains(t) by {
        if names.contains(t) && !parents.contains_key(t) {
            lemma_without_parent(names, parents, t);
        }
        if parents.contains_key(t) {
            let k = choose|k: int|
                0 <= k < lines.len() && holds_row(#[trigger] lines[k]) && words_before_comment(
                    lines[k],
                )[1] == t;
            assert(row_is_taken(lines, names, upstream, parents, k));
        }
    }
    assert forall|t: Seq<char>| #[trigger] names.contains(t) implies exists|k: int|
        0 <= k < lines.len() && holds_row(#[trigger] lines[k]) && words_before_comment(lines[k])[1]
            == t by {
        assert(parents.contains_key(t));
    }
}

proof fn lemma_without_parent(
    names: Seq<Seq<char>>,
    parents: Map<Seq<char>, Seq<char>>,
    t: Seq<char>,
)
    ensures
        without_parent(names, parents).contains(t) <==> names.contains(t) && !parents.contains_key(
            t,
        ),
    decreases names.len(),
{
    if names.len() > 0 {
        let rest = names.drop_last();
        lemma_without_parent(rest, parents, t);
        let before = without_parent(rest, parents);
        let all = without_parent(names, parents);
        assert(names[names.len() - 1] == names.last());
        if rest.contains(t) {
            assert(names[rest.index_of(t)] == t);
        } else if names.contains(t) {
            let k = names.index_of(t);
            if k < rest.len() {
                assert(rest[k] == t);
            }
        }
        if before.contains(t) {
            assert(all[before.index_of(t)] == t);
        }
        if all.len() > before.len() {
            assert(all[before.len() as int] == names.last());
            if all.contains(t) {
                let k = all.index_of(t);
                if k < before.len() {
                    assert(before[k] == t);
                }
            }
        }
    }
}

/// A text is refused for missing rows exactly where every row is fine and some branch has none; the
/// branches without one are told.
pub proof fn law_missing_rows_are_told(
    text: Seq<char>,
    names: Seq<Seq<char>>,
    upstream: Seq<char>,
    t: Seq<char>,
)
    ensures
        parsed_parents(text, names, upstream) matches Err(ReorderProblem::Missing(v)) ==> v.len()
            > 0 && (v.contains(t) ==> names.contains(t) && forall|k: int|
            0 <= k < lines_of(text).len() && holds_row(#[trigger] lines_of(text)[k])
                ==> words_before_comment(lines_of(text)[k])[1] != t),
{
    let lines = lines_of(text);
    assert(lines.take(lines.len() as int) =~= lines);
    match parents_of_lines(lines, names, upstream) {
        Ok(s) => {
            lemma_rows_read(lines, names, upstream, lines.len() as int);
            lemma_without_parent(names, s.parents, t);
            assert forall|k: int|
                0 <= k < lines.len() && holds_row(#[trigger] lines[k]) && !s.parents.contains_key(
                    t,
                ) implies words_before_comment(lines[k])[1] != t by {
                assert(row_is_taken(lines, names, upstream, s.parents, k));
            }
        },
        Err(_) => {
            lemma_no_missing_in_rows(lines, names, upstream);
        },
    }
}

proof fn lemma_no_missing_in_rows(
    lines: Seq<Seq<char>>,
    names: Seq<Seq<char>>,
    upstream: Seq<char>,
)
    ensures
        !(parents_of_lines(lines, names, upstream) matches Err(ReorderProblem::Missing(_))),
    decreases lines.len(),
{
    if lines.len() > 0 {
        lemma_no_missing_in_rows(lines.drop_last(), names, upstream);
    }
}

} // verus!
