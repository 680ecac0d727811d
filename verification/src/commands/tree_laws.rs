//! What is promised of `kin tree`: what stands on what, and how it is drawn.

use crate::commands::tree::{
    branch_line, drawing, drawn_branch, drawn_branches, is_root, leads, name_part, roots_among,
    spaced, status_parts, styled_parts, RenderOptions, SegmentView, TreeLineView, TreeStyle, styled,
};
use crate::commands::tree_shape::{
    is_last_of_name, is_node, is_path, is_tree, lemma_path, stands_on, tree_depth, tree_parent,
    TreeBranch,
};
use crate::graph::{descends, parents_first, reaches, Parents};
use crate::lists::{chosen, lemma_chosen_next, lemma_chosen_none};
use crate::stack::{index_named, index_other_on, names_of, parent_in_stack, BranchView};
use crate::stack_laws::{law_index_named, law_index_other_on, law_nearest_on_a_line};
use crate::text::{opt_string, strs};
use vstd::prelude::*;

verus! {

/// In the tree a branch stands on the nearest other branch below it: a branch that it comes from,
/// such that every other branch that it comes from is on the same commit or lies below that one. A
/// branch stands on none exactly where no other lies below it. This holds of branches of different
/// names that are not on the upstream's commit, whose ancestors in the stack lie on one line.
pub proof fn law_tree_parent_is_right_below(
    g: Parents,
    all: Seq<BranchView>,
    upstream: Seq<char>,
    i: int,
)
    requires
        0 <= i < all.len(),
        names_of(all).no_duplicates(),
        forall|j: int, k: int|
            0 <= j < all.len() && 0 <= k < all.len() && descends(
                g,
                all[i].1,
                (#[trigger] all[j]).1,
            ) && descends(g, all[i].1, (#[trigger] all[k]).1) ==> reaches(g, all[j].1, all[k].1)
                || reaches(g, all[k].1, all[j].1),
        forall|k: int| 0 <= k < all.len() ==> (#[trigger] all[k]).1 != upstream,
    ensures
        match tree_parent(g, all, upstream, all[i].0) {
            Some(p) => exists|k: int| {
                &&& 0 <= k < all.len()
                &&& (#[trigger] all[k]).0 == p
                &&& k != i
                &&& descends(g, all[i].1, all[k].1)
                &&& forall|j: int|
                    0 <= j < all.len() && j != i && (#[trigger] all[j]).1 != all[i].1 && descends(
                        g,
                        all[i].1,
                        all[j].1,
                    ) ==> reaches(g, all[k].1, all[j].1)
            },
            None => forall|j: int|
                0 <= j < all.len() && j != i && (#[trigger] all[j]).1 != all[i].1 ==> !descends(
                    g,
                    all[i].1,
                    all[j].1,
                ),
        },
{
    let name = all[i].0;
    law_index_named(all, name);
    assert(names_of(all)[index_named(all, name)] == names_of(all)[i]);
    law_nearest_on_a_line(g, all, name, all[i].1, upstream);
    let parent = parent_in_stack(g, name, all, upstream);
    law_index_other_on(all, parent, name);
    assert forall|j: int| 0 <= j < all.len() && j != i implies (#[trigger] all[j]).0 != name by {
        assert(names_of(all)[j] != names_of(all)[i]);
    }
    let at = index_other_on(all, parent, name);
    if parent != upstream {
        let k = choose|k: int|
            0 <= k < all.len() && (#[trigger] all[k]).0 != name && all[k].1 == parent && all[k].1
                != all[i].1 && descends(g, all[i].1, parent);
        assert(at < all.len());
        assert(all[at].1 == parent);
    }
}

/// The nodes of a tree know each other: a branch is among the children of another exactly where it
/// names it as its parent; the children are in order; and a branch is one level above its parent, or
/// on the lowest where it has none.
pub proof fn law_tree_nodes_know_each_other(
    tree: Map<Seq<char>, TreeBranch>,
    g: Parents,
    order: Seq<Seq<char>>,
    all: Seq<BranchView>,
    upstream: Seq<char>,
    i: int,
    j: int,
)
    requires
        parents_first(g, order),
        names_of(all).no_duplicates(),
        is_tree(tree, g, all, upstream),
        0 <= i < all.len(),
        0 <= j < all.len(),
    ensures
        ({
            let a = tree[all[i].0];
            let b = tree[all[j].0];
            &&& tree.contains_key(all[i].0)
            &&& a.branch@ == all[i]
            &&& strs(a.children@).contains(all[j].0) <==> opt_string(b.parent_name) == Some(
                all[i].0,
            )
            &&& crate::names::in_order(strs(a.children@))
            &&& opt_string(b.parent_name) == Some(all[i].0) ==> b.depth == a.depth + 1
            &&& b.parent_name is None ==> b.depth == 0
            &&& b.is_last_child ==> b.parent_name is Some
            &&& b.is_last_child && i > j ==> opt_string(a.parent_name) != opt_string(b.parent_name)
        }),
{
    lemma_node(tree, g, all, upstream, i);
    lemma_node(tree, g, all, upstream, j);
    assert(names_of(all)[j] == all[j].0);
    assert(names_of(all).contains(all[j].0));
    assert(stands_on(g, all, upstream, all[j].0, all[i].0) <==> tree_parent(
        g,
        all,
        upstream,
        all[j].0,
    ) == Some(all[i].0));
    crate::commands::tree_shape::law_depth_counts_the_branches_below(
        g,
        order,
        all,
        upstream,
        all[j].0,
    );
}

proof fn lemma_node(
    tree: Map<Seq<char>, TreeBranch>,
    g: Parents,
    all: Seq<BranchView>,
    upstream: Seq<char>,
    i: int,
)
    requires
        names_of(all).no_duplicates(),
        is_tree(tree, g, all, upstream),
        0 <= i < all.len(),
    ensures
        tree.contains_key(all[i].0),
        is_node(tree[all[i].0], g, all, upstream, i),
{
    assert(names_of(all)[i] == all[i].0);
    assert(names_of(all).contains(all[i].0));
    assert(is_last_of_name(all, i)) by {
        assert forall|j: int| i < j < all.len() implies (#[trigger] all[j]).0 != all[i].0 by {
            assert(names_of(all)[j] != names_of(all)[i]);
        }
    }
}

/// The roots of a tree are the branches without a parent in it, in their order.
pub proof fn law_roots_stand_on_nothing(
    tree: Map<Seq<char>, TreeBranch>,
    names: Seq<Seq<char>>,
    n: int,
)
    requires
        0 <= n <= names.len(),
    ensures
        roots_among(tree, names.take(n)) == chosen(
            n,
            |k: int|
                tree[names[k]].parent_name is None || !tree.contains_key(
                    tree[names[k]].parent_name->0@,
                ),
            |k: int| names[k],
        ),
    decreases n,
{
    let keep = |k: int|
        tree[names[k]].parent_name is None || !tree.contains_key(tree[names[k]].parent_name->0@);
    let give = |k: int| names[k];
    if n > 0 {
        law_roots_stand_on_nothing(tree, names, n - 1);
        lemma_chosen_next(n - 1, keep, give);
        assert(names.take(n).drop_last() =~= names.take(n - 1));
        assert(names.take(n).last() == names[n - 1]);
        assert(is_root(tree, names[n - 1]) == keep(n - 1));
    } else {
        lemma_chosen_none(keep, give);
    }
}

/// A line of the drawing is about the branch, behind that many characters.
pub open spec fn is_drawn_at(lines: Seq<TreeLineView>, name: Seq<char>, width: nat) -> bool {
    exists|k: int|
        0 <= k < lines.len() && (#[trigger] lines[k]).branch == name && lines[k].parts.len() >= 2
            && lines[k].parts[0].0.len() == width && lines[k].parts[1].0 == name
}

proof fn lemma_drawn_at_side(
    tree: Map<Seq<char>, TreeBranch>,
    names: Seq<Seq<char>>,
    n: nat,
    prefix: Seq<char>,
    current: Option<Seq<char>>,
    o: RenderOptions,
    fuel: nat,
    k: int,
    name: Seq<char>,
    width: nat,
)
    requires
        0 <= k < n <= names.len(),
        is_drawn_at(
            drawn_branch(tree, names[k], prefix, k + 1 == names.len(), current, o, fuel),
            name,
            width,
        ),
    ensures
        is_drawn_at(drawn_branches(tree, names, n, prefix, current, o, fuel), name, width),
    decreases n,
{
    let before = drawn_branches(tree, names, (n - 1) as nat, prefix, current, o, fuel);
    let own = drawn_branch(tree, names[n - 1], prefix, n == names.len(), current, o, fuel);
    let all = before + own;
    if k == n - 1 {
        let i = choose|i: int|
            0 <= i < own.len() && (#[trigger] own[i]).branch == name && own[i].parts.len() >= 2
                && own[i].parts[0].0.len() == width && own[i].parts[1].0 == name;
        assert(all[before.len() + i] == own[i]);
    } else {
        lemma_drawn_at_side(
            tree,
            names,
            (n - 1) as nat,
            prefix,
            current,
            o,
            fuel,
            k,
            name,
            width,
        );
        let i = choose|i: int|
            0 <= i < before.len() && (#[trigger] before[i]).branch == name && before[i].parts.len()
                >= 2 && before[i].parts[0].0.len() == width && before[i].parts[1].0 == name;
        assert(all[i] == before[i]);
    }
}

proof fn lemma_drawn_at(
    tree: Map<Seq<char>, TreeBranch>,
    path: Seq<Seq<char>>,
    prefix: Seq<char>,
    is_last: bool,
    current: Option<Seq<char>>,
    o: RenderOptions,
    fuel: nat,
)
    requires
        0 < path.len() <= fuel,
        leads(tree, path),
    ensures
        is_drawn_at(
            drawn_branch(tree, path[0], prefix, is_last, current, o, fuel),
            path.last(),
            (prefix.len() + 4 * (path.len() - 1) + 3) as nat,
        ),
    decreases path.len(),
{
    reveal_strlit("└─ ");
    reveal_strlit("├─ ");
    reveal_strlit("    ");
    reveal_strlit("│   ");
    let tb = tree[path[0]];
    let children = strs(tb.children@);
    let inner = prefix + (if is_last {
        "    "@
    } else {
        "│   "@
    });
    let own = seq![branch_line(tb, prefix, is_last, current, o)];
    let below = drawn_branches(
        tree,
        children,
        children.len(),
        inner,
        current,
        o,
        (fuel - 1) as nat,
    );
    let all = own + below;
    assert(drawn_branch(tree, path[0], prefix, is_last, current, o, fuel) == all);
    assert(tree.contains_key(path[0]));
    if path.len() == 1 {
        assert(all[0] == own[0]);
        assert(all[0].branch == path[0]);
        assert(all[0].parts[1].0 == path[0]);
    } else {
        let rest = path.skip(1);
        assert(strs(tree[path[0]].children@).contains(path[1]));
        let k = children.index_of(path[1]);
        assert forall|i: int| 0 <= i < rest.len() implies tree.contains_key(#[trigger] rest[i])
            && tree[rest[i]].branch.name@ == rest[i] by {
            assert(rest[i] == path[i + 1]);
        }
        assert forall|i: int, j: int| 0 <= i && j == i + 1 && j < rest.len() implies strs(
            tree[#[trigger] rest[i]].children@,
        ).contains(#[trigger] rest[j]) by {
            assert(rest[i] == path[i + 1] && rest[j] == path[j + 1]);
        }
        lemma_drawn_at(
            tree,
            rest,
            inner,
            k + 1 == children.len(),
            current,
            o,
            (fuel - 1) as nat,
        );
        let width = (inner.len() + 4 * (rest.len() - 1) + 3) as nat;
        assert(rest[0] == children[k]);
        assert(rest.last() == path.last());
        lemma_drawn_at_side(
            tree,
            children,
            children.len(),
            inner,
            current,
            o,
            (fuel - 1) as nat,
            k,
            path.last(),
            width,
        );
        let i = choose|i: int|
            0 <= i < below.len() && (#[trigger] below[i]).branch == path.last()
                && below[i].parts.len() >= 2 && below[i].parts[0].0.len() == width
                && below[i].parts[1].0 == path.last();
        assert(all[i + 1] == below[i]);
    }
}

/// Every branch of a stack is drawn under its name, and set off by its depth: four characters for each
/// branch below it, and three for the connector.
pub proof fn law_branches_are_set_off_by_their_depth(
    tree: Map<Seq<char>, TreeBranch>,
    names: Seq<Seq<char>>,
    g: Parents,
    order: Seq<Seq<char>>,
    all: Seq<BranchView>,
    upstream_id: Seq<char>,
    upstream: Seq<char>,
    current: Option<Seq<char>>,
    o: RenderOptions,
    i: int,
)
    requires
        parents_first(g, order),
        names_of(all).no_duplicates(),
        is_tree(tree, g, all, upstream_id),
        names.no_duplicates(),
        forall|n: Seq<char>| #[trigger] names.contains(n) <==> tree.contains_key(n),
        0 <= i < all.len(),
    ensures
        is_drawn_at(
            drawing(tree, names, upstream, current, o),
            all[i].0,
            (4 * tree[all[i].0].depth + 3) as nat,
        ),
{
    let name = all[i].0;
    assert(names_of(all)[i] == name);
    assert(names_of(all).contains(name));
    let path = lemma_path(g, order, all, upstream_id, name);
    assert forall|k: int| 0 <= k < path.len() implies tree.contains_key(#[trigger] path[k])
        && tree[path[k]].branch.name@ == path[k] by {
        assert(names_of(all).contains(path[k]));
        let m = names_of(all).index_of(path[k]);
        lemma_node(tree, g, all, upstream_id, m);
    }
    assert forall|a: int, b: int| 0 <= a && b == a + 1 && b < path.len() implies strs(
        tree[#[trigger] path[a]].children@,
    ).contains(#[trigger] path[b]) by {
        assert(names_of(all).contains(path[a]));
        let m = names_of(all).index_of(path[a]);
        lemma_node(tree, g, all, upstream_id, m);
        assert(names_of(all).contains(path[b]));
        assert(tree_parent(g, all, upstream_id, path[b]) == Some(path[a]));
        assert(stands_on(g, all, upstream_id, path[b], path[a]));
    }
    assert(leads(tree, path));
    lemma_depth_is_path(g, order, all, upstream_id, path);
    lemma_node(tree, g, all, upstream_id, i);
    lemma_names_cover(all, names, tree, path);
    let root = path[0];
    assert(names_of(all).contains(root));
    let m = names_of(all).index_of(root);
    lemma_node(tree, g, all, upstream_id, m);
    let n = names.len() as int;
    law_roots_stand_on_nothing(tree, names, n);
    assert(names.take(n) =~= names);
    let keep = |k: int|
        tree[names[k]].parent_name is None || !tree.contains_key(tree[names[k]].parent_name->0@);
    let give = |k: int| names[k];
    crate::lists::law_chosen(n, keep, give);
    assert(names.contains(root));
    let at = names.index_of(root);
    assert(keep(at));
    let roots = roots_among(tree, names);
    assert(roots.contains(give(at)));
    let r = roots.index_of(root);
    reveal_strlit("");
    lemma_drawn_at(tree, path, ""@, r + 1 == roots.len(), current, o, names.len());
    let width = (4 * tree[name].depth + 3) as nat;
    lemma_drawn_at_side(
        tree,
        roots,
        roots.len(),
        ""@,
        current,
        o,
        names.len(),
        r,
        name,
        width,
    );
    let below = drawn_branches(tree, roots, roots.len(), ""@, current, o, names.len());
    let lines = drawing(tree, names, upstream, current, o);
    let k = choose|k: int|
        0 <= k < below.len() && (#[trigger] below[k]).branch == name && below[k].parts.len() >= 2
            && below[k].parts[0].0.len() == width && below[k].parts[1].0 == name;
    assert(lines[k + 1] == below[k]);
}

proof fn lemma_names_cover(
    all: Seq<BranchView>,
    names: Seq<Seq<char>>,
    tree: Map<Seq<char>, TreeBranch>,
    path: Seq<Seq<char>>,
)
    requires
        names.no_duplicates(),
        path.no_duplicates(),
        forall|i: int| 0 <= i < path.len() ==> tree.contains_key(#[trigger] path[i]),
        forall|n: Seq<char>| #[trigger] names.contains(n) <==> tree.contains_key(n),
    ensures
        path.len() <= names.len(),
{
    path.unique_seq_to_set();
    names.unique_seq_to_set();
    assert(path.to_set().subset_of(names.to_set())) by {
        assert forall|t: Seq<char>| path.to_set().contains(t) implies names.to_set().contains(t) by {
            let i = path.index_of(t);
            assert(tree.contains_key(path[i]));
            assert(names.contains(t));
        }
    }
    vstd::set_lib::lemma_len_subset(path.to_set(), names.to_set());
}

proof fn lemma_depth_is_path(
    g: Parents,
    order: Seq<Seq<char>>,
    all: Seq<BranchView>,
    upstream: Seq<char>,
    path: Seq<Seq<char>>,
)
    requires
        parents_first(g, order),
        names_of(all).no_duplicates(),
        is_path(g, all, upstream, path),
    ensures
        tree_depth(g, all, upstream, path.last(), all.len()) == path.len() - 1,
    decreases path.len(),
{
    let n = path.len() - 1;
    assert(names_of(all).contains(path[n]));
    crate::commands::tree_shape::law_depth_counts_the_branches_below(
        g,
        order,
        all,
        upstream,
        path[n],
    );
    if n > 0 {
        assert(tree_parent(g, all, upstream, path[n]) == Some(path[n - 1]));
        let below = path.drop_last();
        assert(below[0] == path[0]);
        assert forall|i: int| 0 <= i < below.len() implies names_of(all).contains(
            #[trigger] below[i],
        ) by {
            assert(below[i] == path[i]);
        }
        assert forall|i: int, j: int| 0 <= i && j == i + 1 && j < below.len() implies tree_parent(
            g,
            all,
            upstream,
            #[trigger] below[j],
        ) == Some(#[trigger] below[i]) by {
            assert(below[j] == path[j] && below[i] == path[i]);
        }
        lemma_depth_is_path(g, order, all, upstream, below);
        assert(below.last() == path[n - 1]);
    }
}

/// What is known of a branch is shown where it was asked for, and only then: the pull request, the
/// distance to the remote, how it stands to what is below it with either of those, and its commits,
/// in that order.
pub proof fn law_only_what_was_asked_for_is_shown(tb: TreeBranch, o: RenderOptions)
    ensures
        ({
            let parts = status_parts(tb, o);
            let a: int = if o.show_pr && tb.pr_status is Some {
                1
            } else {
                0
            };
            let b: int = if o.show_remote && tb.remote_sync is Some {
                1
            } else {
                0
            };
            let c: int = if (o.show_pr || o.show_remote) && tb.sync_status is Some {
                1
            } else {
                0
            };
            let d: int = if o.show_commits && tb.commits@.len() > 0 {
                1
            } else {
                0
            };
            &&& parts.len() == a + b + c + d
            &&& a == 1 ==> parts[0] == crate::commands::tree::pr_part(
                tb.pr_status->0.number,
                tb.pr_status->0.is_draft,
            )
            &&& b == 1 ==> parts[a].0 == crate::commands::tree::remote_text_of(tb.remote_sync->0)
            &&& c == 1 ==> parts[a + b] == crate::commands::tree::sync_part(tb.sync_status->0)
            &&& d == 1 ==> parts[a + b + c].1 == TreeStyle::Plain
        }),
{
}

/// The parts of a line stand in their order, each behind one space.
pub proof fn law_parts_are_spaced(parts: Seq<SegmentView>)
    ensures
        spaced(parts).len() == 2 * parts.len(),
        forall|j: int|
            0 <= j < 2 * parts.len() ==> #[trigger] spaced(parts)[j] == if j % 2 == 0 {
                (" "@, TreeStyle::Plain)
            } else {
                parts[j / 2]
            },
    decreases parts.len(),
{
    if parts.len() > 0 {
        let rest = parts.drop_last();
        law_parts_are_spaced(rest);
        let all = spaced(parts);
        let n = parts.len() - 1;
        assert forall|j: int| 0 <= j < 2 * parts.len() implies #[trigger] all[j] == if j % 2 == 0 {
            (" "@, TreeStyle::Plain)
        } else {
            parts[j / 2]
        } by {
            if j < 2 * n {
                assert(all[j] == spaced(rest)[j]);
            }
        }
    }
}

/// The branch that the user is on is set in bold, and no other.
pub proof fn law_current_branch_is_bold(name: Seq<char>, current: Option<Seq<char>>)
    ensures
        name_part(name, current).0 == name,
        name_part(name, current).1 == TreeStyle::Bold <==> current == Some(name),
        current != Some(name) ==> name_part(name, current).1 == TreeStyle::Plain,
{
}

/// A line is written as its parts in their order, one more part behind the others.
pub proof fn law_line_is_its_parts(parts: Seq<SegmentView>, on: Seq<bool>, p: SegmentView, c: bool)
    requires
        on.len() == parts.len(),
    ensures
        styled_parts(Seq::empty(), Seq::empty()) == ""@,
        styled_parts(parts.push(p), on.push(c)) == styled_parts(parts, on) + styled(p.0, p.1, c),
        p.1 == TreeStyle::Plain ==> styled(p.0, p.1, c) == p.0,
{
    assert(parts.push(p).drop_last() =~= parts);
    assert(on.push(c).drop_last() =~= on);
}

/// The line of a branch begins with what it stands behind, and then a corner where it is the last one on
/// its branch, and a fork where others follow; its name comes next.
pub proof fn law_last_branch_has_the_corner(
    tb: TreeBranch,
    prefix: Seq<char>,
    is_last: bool,
    current: Option<Seq<char>>,
    o: RenderOptions,
)
    ensures
        ({
            let line = branch_line(tb, prefix, is_last, current, o);
            &&& line.branch == tb.branch.name@
            &&& line.parts.len() >= 2
            &&& line.parts[0].0 == prefix + if is_last {
                "└─ "@
            } else {
                "├─ "@
            }
            &&& line.parts[1].0 == tb.branch.name@
        }),
{
}

} // verus!
