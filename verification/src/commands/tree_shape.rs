//! The shape of the tree that `kin tree` draws: which branch stands on which.

use crate::graph::{descends, lemma_descends_known, parents_first, CommitGraph, Parents};
use crate::names::{in_order, sorted_texts, NameMap};
use crate::stack::{
    find_branch, find_other_on, find_parent_in_stack, index_named, index_other_on,
    names_of, nearest_below, parent_in_stack, views, BranchView, StackBranch,
};
use crate::text::{copy_opt, opt_string, same, strs};
use vstd::prelude::*;

verus! {

/// A commit of a branch.
#[derive(Clone, Debug)]
pub struct BranchCommit {
    pub hash: String,
    pub subject: String,
}

/// How far a branch and its remote branch are apart.
#[derive(Clone, Debug)]
pub struct RemoteSyncStatus {
    pub ahead: u32,
    pub behind: u32,
}

/// How a branch stands to the one below it.
#[derive(Clone, Copy, Debug, PartialEq, Eq, Structural)]
pub enum SyncStatus {
    InSync,
    NeedsRebase,
    Merged,
}

/// The pull request of a branch.
#[derive(Clone, Debug)]
pub struct PrStatus {
    pub number: u64,
    pub is_draft: bool,
}

/// A branch of the tree.
#[derive(Debug)]
pub struct TreeBranch {
    pub branch: StackBranch,
    pub parent_name: Option<String>,
    /// The branches that stand on it, in order.
    pub children: Vec<String>,
    pub depth: usize,
    /// It comes last among the branches of the stack on the same parent.
    pub is_last_child: bool,
    pub is_current: bool,
    pub commits: Vec<BranchCommit>,
    pub remote_sync: Option<RemoteSyncStatus>,
    pub pr_status: Option<PrStatus>,
    pub sync_status: Option<SyncStatus>,
}

/// The branch that a branch of the stack stands on, unless that is the upstream.
pub open spec fn tree_parent(
    g: Parents,
    all: Seq<BranchView>,
    upstream: Seq<char>,
    name: Seq<char>,
) -> Option<Seq<char>> {
    let id = parent_in_stack(g, name, all, upstream);
    let at = index_other_on(all, id, name);
    if id != upstream && 0 <= at < all.len() {
        Some(all[at].0)
    } else {
        None
    }
}

/// How many branches stand below one, counted up to `fuel`.
pub open spec fn tree_depth(
    g: Parents,
    all: Seq<BranchView>,
    upstream: Seq<char>,
    name: Seq<char>,
    fuel: nat,
) -> nat
    decreases fuel,
{
    match tree_parent(g, all, upstream, name) {
        Some(parent) => if fuel == 0 {
            0
        } else {
            1 + tree_depth(g, all, upstream, parent, (fuel - 1) as nat)
        },
        None => 0,
    }
}

/// The branch stands on `parent`.
pub open spec fn stands_on(
    g: Parents,
    all: Seq<BranchView>,
    upstream: Seq<char>,
    child: Seq<char>,
    parent: Seq<char>,
) -> bool {
    names_of(all).contains(child) && tree_parent(g, all, upstream, child) == Some(parent)
}

/// The node of the branch at `i`.
pub open spec fn is_node(
    tb: TreeBranch,
    g: Parents,
    all: Seq<BranchView>,
    upstream: Seq<char>,
    i: int,
) -> bool {
    let name = all[i].0;
    let parent = tree_parent(g, all, upstream, name);
    &&& tb.branch@ == all[i]
    &&& opt_string(tb.parent_name) == parent
    &&& in_order(strs(tb.children@))
    &&& forall|c: Seq<char>| #[trigger]
        strs(tb.children@).contains(c) <==> stands_on(g, all, upstream, c, name)
    &&& tb.depth == tree_depth(g, all, upstream, name, all.len())
    &&& tb.is_last_child <==> parent is Some && forall|j: int|
        i < j < all.len() ==> tree_parent(g, all, upstream, (#[trigger] all[j]).0) != parent
    &&& !tb.is_current
    &&& tb.commits@.len() == 0
    &&& tb.remote_sync is None
    &&& tb.pr_status is None
    &&& tb.sync_status is None
}

/// No later branch has the name of the branch at `i`.
pub open spec fn is_last_of_name(all: Seq<BranchView>, i: int) -> bool {
    forall|j: int| i < j < all.len() ==> (#[trigger] all[j]).0 != all[i].0
}

/// The tree of a stack.
pub open spec fn is_tree(
    tree: Map<Seq<char>, TreeBranch>,
    g: Parents,
    all: Seq<BranchView>,
    upstream: Seq<char>,
) -> bool {
    &&& forall|n: Seq<char>| #[trigger] tree.contains_key(n) <==> names_of(all).contains(n)
    &&& forall|i: int|
        0 <= i < all.len() && is_last_of_name(all, i) ==> is_node(
            tree[(#[trigger] all[i]).0],
            g,
            all,
            upstream,
            i,
        )
}

proof fn lemma_named(all: Seq<BranchView>, name: Seq<char>)
    ensures
        0 <= index_named(all, name) <= all.len(),
        index_named(all, name) < all.len() ==> all[index_named(all, name)].0 == name,
        forall|k: int|
            0 <= k < all.len() && (#[trigger] all[k]).0 == name ==> index_named(all, name) <= k,
    decreases all.len(),
{
    if all.len() > 0 && all[0].0 != name {
        let rest = all.drop_first();
        lemma_named(rest, name);
        assert forall|k: int| 0 <= k < all.len() && (#[trigger] all[k]).0 == name implies index_named(
            all,
            name,
        ) <= k by {
            assert(rest[k - 1] == all[k]);
        }
    }
}

fn is_parent_text(p: &Option<String>, name: &str) -> (r: bool)
    ensures
        r == (opt_string(*p) == Some(name@)),
{
    match p {
        Some(t) => same(t.as_str(), name),
        None => false,
    }
}

fn find_parents(graph: &CommitGraph, stack_branches: &Vec<StackBranch>, upstream_id: &str) -> (r:
    Vec<Option<String>>)
    ensures
        r@.len() == stack_branches@.len(),
        forall|i: int|
            0 <= i < r@.len() ==> opt_string(#[trigger] r@[i]) == tree_parent(
                graph@,
                views(stack_branches@),
                upstream_id@,
                stack_branches@[i].name@,
            ),
{
    let ghost all = views(stack_branches@);
    let mut out: Vec<Option<String>> = Vec::new();
    let mut i: usize = 0;
    while i < stack_branches.len()
        invariant
            i <= stack_branches@.len(),
            out@.len() == i,
            all == views(stack_branches@),
            forall|k: int|
                0 <= k < i ==> opt_string(#[trigger] out@[k]) == tree_parent(
                    graph@,
                    all,
                    upstream_id@,
                    stack_branches@[k].name@,
                ),
        decreases stack_branches@.len() - i,
    {
        let name = stack_branches[i].name.as_str();
        let id = match find_parent_in_stack(graph, name, stack_branches, upstream_id) {
            Ok(id) => id,
            Err(_) => {
                proof {
                    assert(all[i as int].0 == name@);
                    lemma_named(all, name@);
                }
                upstream_id.to_owned()
            },
        };
        proof {
            assert(all[i as int].0 == name@);
            lemma_named(all, name@);
        }
        let parent = if same(id.as_str(), upstream_id) {
            None
        } else {
            match find_other_on(stack_branches, id.as_str(), name) {
                Some(k) => Some(stack_branches[k].name.clone()),
                None => None,
            }
        };
        out.push(parent);
        i += 1;
    }
    out
}

fn find_depth(
    graph: &CommitGraph,
    stack_branches: &Vec<StackBranch>,
    parents: &Vec<Option<String>>,
    upstream_id: &str,
    from: usize,
) -> (r: usize)
    requires
        parents@.len() == stack_branches@.len(),
        from < parents@.len(),
        forall|i: int|
            0 <= i < parents@.len() ==> opt_string(#[trigger] parents@[i]) == tree_parent(
                graph@,
                views(stack_branches@),
                upstream_id@,
                stack_branches@[i].name@,
            ),
    ensures
        r == tree_depth(
            graph@,
            views(stack_branches@),
            upstream_id@,
            stack_branches@[from as int].name@,
            stack_branches@.len(),
        ),
{
    let ghost all = views(stack_branches@);
    let n: usize = stack_branches.len();
    let mut at: usize = from;
    let mut depth: usize = 0;
    let ghost whole = tree_depth(
        graph@,
        all,
        upstream_id@,
        stack_branches@[from as int].name@,
        n as nat,
    );
    while depth < n
        invariant
            depth <= n,
            n == stack_branches@.len(),
            parents@.len() == n,
            at < n,
            all == views(stack_branches@),
            forall|i: int|
                0 <= i < parents@.len() ==> opt_string(#[trigger] parents@[i]) == tree_parent(
                    graph@,
                    all,
                    upstream_id@,
                    stack_branches@[i].name@,
                ),
            from < n,
            whole == tree_depth(
                graph@,
                all,
                upstream_id@,
                stack_branches@[from as int].name@,
                n as nat,
            ),
            whole == depth + tree_depth(
                graph@,
                all,
                upstream_id@,
                stack_branches@[at as int].name@,
                (n - depth) as nat,
            ),
        decreases n - depth,
    {
        match &parents[at] {
            Some(p) => {
                let next = find_branch(stack_branches, p.as_str());
                proof {
                    let name = stack_branches@[at as int].name@;
                    let id = parent_in_stack(graph@, name, all, upstream_id@);
                    let k = index_other_on(all, id, name);
                    assert(all[k].0 == p@);
                    lemma_named(all, p@);
                }
                match next {
                    Some(k) => {
                        at = k;
                        proof {
                            lemma_named(all, p@);
                            assert(all[k as int].0 == stack_branches@[k as int].name@);
                        }
                        depth += 1;
                    },
                    None => {
                        return depth;
                    },
                }
            },
            None => {
                return depth;
            },
        }
    }
    depth
}

fn find_children(
    graph: &CommitGraph,
    stack_branches: &Vec<StackBranch>,
    parents: &Vec<Option<String>>,
    upstream_id: &str,
    name: &str,
) -> (r: Vec<String>)
    requires
        parents@.len() == stack_branches@.len(),
        forall|i: int|
            0 <= i < parents@.len() ==> opt_string(#[trigger] parents@[i]) == tree_parent(
                graph@,
                views(stack_branches@),
                upstream_id@,
                stack_branches@[i].name@,
            ),
    ensures
        in_order(strs(r@)),
        forall|c: Seq<char>| #[trigger]
            strs(r@).contains(c) <==> stands_on(
                graph@,
                views(stack_branches@),
                upstream_id@,
                c,
                name@,
            ),
{
    let ghost all = views(stack_branches@);
    let ghost names = names_of(all);
    let mut found: Vec<String> = Vec::new();
    let mut i: usize = 0;
    while i < stack_branches.len()
        invariant
            i <= stack_branches@.len(),
            parents@.len() == stack_branches@.len(),
            all == views(stack_branches@),
            names == names_of(all),
            forall|i: int|
                0 <= i < parents@.len() ==> opt_string(#[trigger] parents@[i]) == tree_parent(
                    graph@,
                    all,
                    upstream_id@,
                    stack_branches@[i].name@,
                ),
            forall|c: Seq<char>| #[trigger]
                strs(found@).contains(c) <==> names.take(i as int).contains(c) && tree_parent(
                    graph@,
                    all,
                    upstream_id@,
                    c,
                ) == Some(name@),
        decreases stack_branches@.len() - i,
    {
        let ghost before = strs(found@);
        let ghost seen = names.take(i as int);
        let ghost one = stack_branches@[i as int].name@;
        let hit = is_parent_text(&parents[i], name);
        if hit {
            found.push(stack_branches[i].name.clone());
            assert(strs(found@) =~= before.push(one));
        }
        proof {
            assert(names.take(i + 1) =~= seen.push(one));
            assert(opt_string(parents@[i as int]) == tree_parent(graph@, all, upstream_id@, one));
            assert forall|c: Seq<char>| #[trigger]
                strs(found@).contains(c) <==> names.take(i + 1).contains(c) && tree_parent(
                    graph@,
                    all,
                    upstream_id@,
                    c,
                ) == Some(name@) by {
                assert(before.contains(c) <==> seen.contains(c) && tree_parent(
                    graph@,
                    all,
                    upstream_id@,
                    c,
                ) == Some(name@));
                lemma_push_contains(before, one, c);
                lemma_push_contains(seen, one, c);
            }
        }
        i += 1;
    }
    let r = sorted_texts(&found);
    proof {
        assert(names.take(names.len() as int) =~= names);
        assert forall|c: Seq<char>| #[trigger]
            strs(r@).contains(c) <==> stands_on(graph@, all, upstream_id@, c, name@) by {
            assert(strs(r@).contains(c) <==> strs(found@).contains(c));
        }
    }
    r
}

proof fn lemma_push_contains(s: Seq<Seq<char>>, x: Seq<char>, c: Seq<char>)
    ensures
        s.push(x).contains(c) <==> s.contains(c) || c == x,
{
    if s.contains(c) {
        assert(s.push(x)[s.index_of(c)] == c);
    }
    assert(s.push(x)[s.len() as int] == x);
    if s.push(x).contains(c) {
        let k = s.push(x).index_of(c);
        if k < s.len() {
            assert(s[k] == c);
        }
    }
}

/// Builds the tree of a stack.
pub fn build_tree_structure(
    graph: &CommitGraph,
    stack_branches: &Vec<StackBranch>,
    upstream_id: &str,
) -> (r: NameMap<TreeBranch>)
    ensures
        is_tree(r@, graph@, views(stack_branches@), upstream_id@),
{
    let ghost all = views(stack_branches@);
    let ghost names = names_of(all);
    let parents = find_parents(graph, stack_branches, upstream_id);
    let mut tree: NameMap<TreeBranch> = NameMap::new();
    let mut i: usize = 0;
    while i < stack_branches.len()
        invariant
            i <= stack_branches@.len(),
            parents@.len() == stack_branches@.len(),
            all == views(stack_branches@),
            names == names_of(all),
            forall|i: int|
                0 <= i < parents@.len() ==> opt_string(#[trigger] parents@[i]) == tree_parent(
                    graph@,
                    all,
                    upstream_id@,
                    stack_branches@[i].name@,
                ),
            forall|n: Seq<char>| #[trigger]
                tree@.contains_key(n) <==> names.take(i as int).contains(n),
            forall|k: int|
                0 <= k < i && is_last_of_name(all, k) ==> is_node(
                    tree@[(#[trigger] all[k]).0],
                    graph@,
                    all,
                    upstream_id@,
                    k,
                ),
        decreases stack_branches@.len() - i,
    {
        let name = stack_branches[i].name.as_str();
        let children = find_children(graph, stack_branches, &parents, upstream_id, name);
        let depth = find_depth(graph, stack_branches, &parents, upstream_id, i);
        let parent_name = copy_opt(&parents[i]);
        let mut last = parent_name.is_some();
        let mut j: usize = i + 1;
        while j < stack_branches.len()
            invariant
                i < j <= stack_branches@.len(),
                parents@.len() == stack_branches@.len(),
                parent_name == parents@[i as int],
                last <==> parent_name is Some && forall|k: int|
                    i < k < j ==> opt_string(#[trigger] parents@[k]) != opt_string(parent_name),
            decreases stack_branches@.len() - j,
        {
            if crate::text::same_opt(&parents[j], &parent_name) {
                last = false;
            }
            j += 1;
        }
        let node = TreeBranch {
            branch: stack_branches[i].copy(),
            parent_name,
            children,
            depth,
            is_last_child: last,
            is_current: false,
            commits: Vec::new(),
            remote_sync: None,
            pr_status: None,
            sync_status: None,
        };
        proof {
            assert(all[i as int].0 == name@);
            assert(opt_string(parents@[i as int]) == tree_parent(graph@, all, upstream_id@, name@));
            let parent = tree_parent(graph@, all, upstream_id@, name@);
            if last {
                assert forall|k: int| i < k < all.len() implies tree_parent(
                    graph@,
                    all,
                    upstream_id@,
                    (#[trigger] all[k]).0,
                ) != parent by {
                    assert(opt_string(parents@[k]) != opt_string(parent_name));
                }
            } else if parent is Some {
                let k = choose|k: int|
                    i < k < all.len() && opt_string(#[trigger] parents@[k]) == opt_string(
                        parent_name,
                    );
                assert(tree_parent(graph@, all, upstream_id@, all[k].0) == parent);
            }
            assert(is_node(node, graph@, all, upstream_id@, i as int));
        }
        let ghost before = tree@;
        tree.insert(stack_branches[i].name.clone(), node);
        proof {
            assert(names.take(i + 1) =~= names.take(i as int).push(name@));
            assert forall|n: Seq<char>| #[trigger]
                tree@.contains_key(n) <==> names.take(i + 1).contains(n) by {
                lemma_push_contains(names.take(i as int), name@, n);
                assert(before.contains_key(n) <==> names.take(i as int).contains(n));
            }
            assert forall|k: int| 0 <= k < i + 1 && is_last_of_name(all, k) implies is_node(
                tree@[(#[trigger] all[k]).0],
                graph@,
                all,
                upstream_id@,
                k,
            ) by {
                if k < i {
                    assert(all[i as int].0 != all[k].0);
                }
            }
        }
        i += 1;
    }
    assert(names.take(names.len() as int) =~= names);
    tree
}

/// The branches from a root of the tree up to one of its branches.
pub open spec fn is_path(
    g: Parents,
    all: Seq<BranchView>,
    upstream: Seq<char>,
    path: Seq<Seq<char>>,
) -> bool {
    &&& path.len() > 0
    &&& tree_parent(g, all, upstream, path[0]) is None
    &&& forall|i: int| 0 <= i < path.len() ==> names_of(all).contains(#[trigger] path[i])
    &&& forall|i: int, j: int|
        0 <= i && j == i + 1 && j < path.len() ==> tree_parent(
            g,
            all,
            upstream,
            #[trigger] path[j],
        ) == Some(#[trigger] path[i])
}

/// The place of the tip of a branch among the commits.
pub open spec fn rank(order: Seq<Seq<char>>, all: Seq<BranchView>, name: Seq<char>) -> int {
    if order.contains(all[index_named(all, name)].1) {
        order.index_of(all[index_named(all, name)].1)
    } else {
        0
    }
}

proof fn lemma_nearest_is_below(
    g: Parents,
    all: Seq<BranchView>,
    name: Seq<char>,
    id: Seq<char>,
    base: Seq<char>,
)
    ensures
        ({
            let best = nearest_below(g, all, name, id, base);
            best == base || descends(g, id, best)
        }),
    decreases all.len(),
{
    if all.len() > 0 {
        lemma_nearest_is_below(g, all.drop_last(), name, id, base);
    }
}

proof fn lemma_other_on(all: Seq<BranchView>, id: Seq<char>, name: Seq<char>)
    ensures
        ({
            let at = index_other_on(all, id, name);
            0 <= at <= all.len() && (at < all.len() ==> all[at].1 == id && all[at].0 != name)
        }),
    decreases all.len(),
{
    if all.len() > 0 && !(all[0].1 == id && all[0].0 != name) {
        lemma_other_on(all.drop_first(), id, name);
    }
}

proof fn lemma_parent_ranks_lower(
    g: Parents,
    order: Seq<Seq<char>>,
    all: Seq<BranchView>,
    upstream: Seq<char>,
    name: Seq<char>,
)
    requires
        parents_first(g, order),
        names_of(all).no_duplicates(),
        names_of(all).contains(name),
    ensures
        tree_parent(g, all, upstream, name) matches Some(p) ==> names_of(all).contains(p) && rank(
            order,
            all,
            p,
        ) < rank(order, all, name),
{
    let names = names_of(all);
    let k = names.index_of(name);
    assert(all[k].0 == name);
    lemma_named(all, name);
    let at = index_named(all, name);
    let id = all[at].1;
    let below = parent_in_stack(g, name, all, upstream);
    lemma_nearest_is_below(g, all, name, id, upstream);
    lemma_other_on(all, below, name);
    let other = index_other_on(all, below, name);
    if below != upstream && other < all.len() {
        let p = all[other].0;
        assert(names[other] == p);
        lemma_named(all, p);
        let first = index_named(all, p);
        assert(names[first] == all[first].0);
        assert(first == other);
        lemma_descends_known(g, order, id, below);
        assert(g.contains_key(id) && g.contains_key(below));
        assert(order.contains(id) && order.contains(below));
    }
}

/// Below every branch of a stack lies a root of the tree, with no branch twice on the way.
pub proof fn lemma_path(
    g: Parents,
    order: Seq<Seq<char>>,
    all: Seq<BranchView>,
    upstream: Seq<char>,
    name: Seq<char>,
) -> (path: Seq<Seq<char>>)
    requires
        parents_first(g, order),
        names_of(all).no_duplicates(),
        names_of(all).contains(name),
    ensures
        is_path(g, all, upstream, path),
        path.last() == name,
        path.len() <= all.len(),
        forall|i: int|
            0 <= i < path.len() ==> rank(order, all, #[trigger] path[i]) <= rank(order, all, name),
        path.no_duplicates(),
    decreases rank(order, all, name),
{
    lemma_parent_ranks_lower(g, order, all, upstream, name);
    match tree_parent(g, all, upstream, name) {
        None => {
            let path = seq![name];
            assert(all.len() > 0) by {
                let k = names_of(all).index_of(name);
            }
            path
        },
        Some(p) => {
            lemma_rank_is_not_negative(order, all, p);
            let below = lemma_path(g, order, all, upstream, p);
            let path = below.push(name);
            assert(path[0] == below[0]);
            assert forall|i: int| 0 <= i < path.len() implies names_of(all).contains(
                #[trigger] path[i],
            ) by {
                if i < below.len() {
                    assert(path[i] == below[i]);
                }
            }
            assert forall|i: int, j: int| 0 <= i && j == i + 1 && j < path.len() implies tree_parent(
                g,
                all,
                upstream,
                #[trigger] path[j],
            ) == Some(#[trigger] path[i]) by {
                if j < below.len() {
                    assert(path[i] == below[i] && path[j] == below[j]);
                } else {
                    assert(path[i] == below.last());
                }
            }
            assert forall|i: int| 0 <= i < path.len() implies rank(
                order,
                all,
                #[trigger] path[i],
            ) <= rank(order, all, name) by {
                if i < below.len() {
                    assert(path[i] == below[i]);
                }
            }
            assert(!below.contains(name)) by {
                if below.contains(name) {
                    let k = below.index_of(name);
                    assert(rank(order, all, below[k]) <= rank(order, all, p));
                }
            }
            assert(path.no_duplicates());
            lemma_no_longer(path, names_of(all));
            path
        },
    }
}

proof fn lemma_rank_is_not_negative(order: Seq<Seq<char>>, all: Seq<BranchView>, name: Seq<char>)
    ensures
        rank(order, all, name) >= 0,
{
}

/// Texts that are all different and come from a list are no more than the list has.
proof fn lemma_no_longer(path: Seq<Seq<char>>, names: Seq<Seq<char>>)
    requires
        path.no_duplicates(),
        forall|i: int| 0 <= i < path.len() ==> names.contains(#[trigger] path[i]),
    ensures
        path.len() <= names.len(),
{
    path.unique_seq_to_set();
    vstd::seq_lib::seq_to_set_is_finite(names);
    vstd::seq_lib::seq_to_set_is_finite(path);
    names.lemma_cardinality_of_set();
    assert forall|t: Seq<char>| path.to_set().contains(t) implies names.to_set().contains(t) by {
        let k = path.index_of(t);
        assert(names.contains(path[k]));
    }
    assert(path.to_set().subset_of(names.to_set()));
    vstd::set_lib::lemma_len_subset(path.to_set(), names.to_set());
}

/// A branch lies one deeper in the tree than the branch that it stands on.
pub proof fn law_depth_counts_the_branches_below(
    g: Parents,
    order: Seq<Seq<char>>,
    all: Seq<BranchView>,
    upstream: Seq<char>,
    name: Seq<char>,
)
    requires
        parents_first(g, order),
        names_of(all).no_duplicates(),
        names_of(all).contains(name),
    ensures
        tree_depth(g, all, upstream, name, all.len()) == match tree_parent(g, all, upstream, name) {
            Some(p) => 1 + tree_depth(g, all, upstream, p, all.len()),
            None => 0,
        },
{
    lemma_parent_ranks_lower(g, order, all, upstream, name);
    let path = lemma_path(g, order, all, upstream, name);
    lemma_depth_of_path(g, all, upstream, path, all.len());
    match tree_parent(g, all, upstream, name) {
        Some(p) => {
            let n = path.len() - 1;
            assert(path[n] == name);
            if n == 0 {
                assert(false);
            }
            assert(path[n - 1] == p);
            let below = path.drop_last();
            assert(below[0] == path[0]);
            assert forall|i: int| 0 <= i < below.len() implies names_of(all).contains(
                #[trigger] below[i],
            ) by {
                assert(below[i] == path[i]);
            }
            assert forall|i: int, j: int|
                0 <= i && j == i + 1 && j < below.len() implies tree_parent(
                g,
                all,
                upstream,
                #[trigger] below[j],
            ) == Some(#[trigger] below[i]) by {
                assert(below[i] == path[i] && below[j] == path[j]);
            }
            lemma_depth_of_path(g, all, upstream, below, all.len());
        },
        None => {},
    }
}

proof fn lemma_depth_of_path(
    g: Parents,
    all: Seq<BranchView>,
    upstream: Seq<char>,
    path: Seq<Seq<char>>,
    fuel: nat,
)
    requires
        is_path(g, all, upstream, path),
        path.len() <= fuel + 1,
    ensures
        tree_depth(g, all, upstream, path.last(), fuel) == path.len() - 1,
    decreases path.len(),
{
    let n = path.len() - 1;
    if n > 0 {
        let below = path.drop_last();
        assert(below[0] == path[0]);
        assert forall|i: int| 0 <= i < below.len() implies names_of(all).contains(
            #[trigger] below[i],
        ) by {
            assert(below[i] == path[i]);
        }
        assert forall|i: int, j: int| 0 <= i && j == i + 1 && j < below.len() implies tree_parent(
            g,
            all,
            upstream,
            #[trigger] below[j],
        ) == Some(#[trigger] below[i]) by {
            assert(below[i] == path[i] && below[j] == path[j]);
        }
        assert(tree_parent(g, all, upstream, path[n]) == Some(path[n - 1]));
        lemma_depth_of_path(g, all, upstream, below, (fuel - 1) as nat);
    }
}

} // verus!
