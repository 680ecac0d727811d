//! The component of a stack: the branches that hang together, forks and all.

use crate::graph::{reaches, reaches_commit, CommitGraph, Parents};
use crate::lists::{chosen, law_chosen, lemma_chosen_same, lemma_filter_is_chosen};
use crate::stack::{
    find_branch, index_named, is_stack_member, lemma_filter_next, sort_branches_topologically,
    topological, views, BranchView, StackBranch,
};
use crate::text::same;
use vstd::prelude::*;

verus! {

/// The branches that some stack can hold: those that come from the merge base and are not merged
/// into the upstream.
pub open spec fn is_stackable(
    g: Parents,
    merge_base: Seq<char>,
    upstream: Seq<char>,
    upstream_name: Seq<char>,
) -> spec_fn(BranchView) -> bool {
    |b: BranchView|
        b.0 != upstream_name && reaches(g, b.1, merge_base) && !reaches(g, upstream, b.1)
}

/// One of the two branches stands on the other, or both point at one commit.
pub open spec fn related(g: Parents, a: BranchView, b: BranchView) -> bool {
    reaches(g, a.1, b.1) || reaches(g, b.1, a.1)
}

/// A way from branch to branch, each related to the one before it.
pub open spec fn is_way(g: Parents, all: Seq<BranchView>, way: Seq<BranchView>) -> bool {
    &&& way.len() > 0
    &&& forall|i: int| 0 <= i < way.len() ==> all.contains(#[trigger] way[i])
    &&& forall|i: int| 0 < i < way.len() ==> related(g, way[i - 1], #[trigger] way[i])
}

/// There is a way between the two branches.
pub open spec fn connected(
    g: Parents,
    all: Seq<BranchView>,
    a: BranchView,
    b: BranchView,
) -> bool {
    exists|way: Seq<BranchView>|
        #[trigger] is_way(g, all, way) && way[0] == a && way.last() == b
}

/// The branches that hang together with `a`.
pub open spec fn component_of(g: Parents, all: Seq<BranchView>, a: BranchView) -> Seq<BranchView> {
    all.filter(|b: BranchView| connected(g, all, a, b))
}

proof fn lemma_one_step(g: Parents, all: Seq<BranchView>, a: BranchView, b: BranchView, c: BranchView)
    requires
        connected(g, all, a, b),
        all.contains(c),
        related(g, b, c),
    ensures
        connected(g, all, a, c),
{
    let way = choose|way: Seq<BranchView>|
        #[trigger] is_way(g, all, way) && way[0] == a && way.last() == b;
    let longer = way.push(c);
    assert forall|i: int| 0 <= i < longer.len() implies all.contains(#[trigger] longer[i]) by {
        if i < way.len() {
            assert(longer[i] == way[i]);
        }
    }
    assert forall|i: int| 0 < i < longer.len() implies related(
        g,
        longer[i - 1],
        #[trigger] longer[i],
    ) by {
        if i < way.len() {
            assert(longer[i] == way[i]);
        }
    }
    assert(is_way(g, all, longer));
}

/// Whoever is connected to `b` over a way of which the first branches are connected to `a`.
proof fn lemma_along(g: Parents, all: Seq<BranchView>, a: BranchView, way: Seq<BranchView>, n: int)
    requires
        is_way(g, all, way),
        0 <= n < way.len(),
        connected(g, all, a, way[0]),
    ensures
        connected(g, all, a, way[n]),
    decreases n,
{
    if n > 0 {
        lemma_along(g, all, a, way, n - 1);
        lemma_one_step(g, all, a, way[n - 1], way[n]);
    }
}

proof fn lemma_transitive(
    g: Parents,
    all: Seq<BranchView>,
    a: BranchView,
    b: BranchView,
    c: BranchView,
)
    requires
        connected(g, all, a, b),
        connected(g, all, b, c),
    ensures
        connected(g, all, a, c),
{
    let way = choose|way: Seq<BranchView>|
        #[trigger] is_way(g, all, way) && way[0] == b && way.last() == c;
    lemma_along(g, all, a, way, way.len() - 1);
}

proof fn lemma_symmetric(g: Parents, all: Seq<BranchView>, a: BranchView, b: BranchView)
    requires
        connected(g, all, a, b),
    ensures
        connected(g, all, b, a),
{
    let way = choose|way: Seq<BranchView>|
        #[trigger] is_way(g, all, way) && way[0] == a && way.last() == b;
    let back = way.reverse();
    assert forall|i: int| 0 <= i < back.len() implies all.contains(#[trigger] back[i]) by {
        assert(back[i] == way[way.len() - 1 - i]);
    }
    assert forall|i: int| 0 < i < back.len() implies related(g, back[i - 1], #[trigger] back[i]) by {
        assert(back[i - 1] == way[way.len() - i]);
        assert(back[i] == way[way.len() - i - 1]);
    }
    assert(is_way(g, all, back));
}

proof fn lemma_itself(g: Parents, all: Seq<BranchView>, a: BranchView)
    requires
        all.contains(a),
    ensures
        connected(g, all, a, a),
{
    let way = seq![a];
    assert(is_way(g, all, way));
}

/// Any member anchors the same component.
pub proof fn law_any_member_anchors(
    g: Parents,
    all: Seq<BranchView>,
    a: BranchView,
    b: BranchView,
)
    requires
        component_of(g, all, a).contains(b),
    ensures
        component_of(g, all, b) == component_of(g, all, a),
{
    let near_a = |x: BranchView| connected(g, all, a, x);
    let near_b = |x: BranchView| connected(g, all, b, x);
    let found = all.filter(near_a);
    all.lemma_filter_pred(near_a, found.index_of(b));
    assert forall|x: BranchView| #[trigger]
        connected(g, all, a, x) == connected(g, all, b, x) by {
        if connected(g, all, a, x) {
            lemma_symmetric(g, all, a, b);
            lemma_transitive(g, all, b, a, x);
        }
        if connected(g, all, b, x) {
            lemma_transitive(g, all, a, b, x);
        }
    }
    assert(near_a =~= near_b);
}

/// A component is no narrower than the stack: every branch on the line of the anchor is in it.
pub proof fn law_component_widens_the_stack(
    g: Parents,
    all: Seq<BranchView>,
    merge_base: Seq<char>,
    upstream: Seq<char>,
    a: BranchView,
    b: BranchView,
)
    requires
        all.contains(a),
        all.contains(b),
        is_stack_member(g, b.1, merge_base, upstream, a.1),
    ensures
        component_of(g, all, a).contains(b),
{
    lemma_itself(g, all, a);
    lemma_one_step(g, all, a, a, b);
    let near_a = |x: BranchView| connected(g, all, a, x);
    all.lemma_filter_contains(near_a, all.index_of(b));
}

/// How many of the marks are not set.
spec fn unset(marks: Seq<bool>) -> nat
    decreases marks.len(),
{
    if marks.len() == 0 {
        0
    } else if marks.last() {
        unset(marks.drop_last())
    } else {
        unset(marks.drop_last()) + 1
    }
}

proof fn lemma_set_one(marks: Seq<bool>, i: int)
    requires
        0 <= i < marks.len(),
        !marks[i],
    ensures
        unset(marks.update(i, true)) + 1 == unset(marks),
    decreases marks.len(),
{
    let after = marks.update(i, true);
    if i == marks.len() - 1 {
        assert(after.drop_last() =~= marks.drop_last());
    } else {
        assert(after.drop_last() =~= marks.drop_last().update(i, true));
        lemma_set_one(marks.drop_last(), i);
    }
}

/// No branch outside the marked ones is related to one of the first `n` marked ones.
spec fn closed_up_to(g: Parents, all: Seq<BranchView>, marks: Seq<bool>, n: int) -> bool {
    forall|i: int, j: int|
        0 <= i < n && 0 <= j < all.len() && marks[i] && #[trigger] related(g, all[i], all[j])
            ==> marks[j]
}

/// What is connected to the anchor lies among marks that nothing leads out of.
proof fn lemma_closed(
    g: Parents,
    all: Seq<BranchView>,
    marks: Seq<bool>,
    way: Seq<BranchView>,
    n: int,
    at: int,
    to: int,
)
    requires
        marks.len() == all.len(),
        closed_up_to(g, all, marks, all.len() as int),
        forall|i: int, j: int|
            0 <= i < all.len() && 0 <= j < all.len() && all[i] == all[j] ==> marks[i] == marks[j],
        is_way(g, all, way),
        0 <= n < way.len(),
        0 <= at < all.len(),
        all[at] == way[0],
        marks[at],
        0 <= to < all.len(),
        all[to] == way[n],
    ensures
        marks[to],
    decreases n,
{
    if n > 0 {
        let from = all.index_of(way[n - 1]);
        assert(all.contains(way[n - 1]));
        lemma_closed(g, all, marks, way, n - 1, at, from);
        assert(related(g, all[from], all[to]));
    }
}

fn candidates(
    graph: &CommitGraph,
    locals: &Vec<StackBranch>,
    merge_base: &str,
    upstream_id: &str,
    upstream_name: &str,
) -> (r: Vec<StackBranch>)
    ensures
        views(r@) == views(locals@).filter(
            is_stackable(graph@, merge_base@, upstream_id@, upstream_name@),
        ),
{
    let ghost keep = is_stackable(graph@, merge_base@, upstream_id@, upstream_name@);
    let ghost all = views(locals@);
    let mut out: Vec<StackBranch> = Vec::new();
    let mut i: usize = 0;
    proof {
        reveal(Seq::filter);
        assert(all.take(0) =~= Seq::<BranchView>::empty());
        assert(views(out@) =~= Seq::<BranchView>::empty());
    }
    while i < locals.len()
        invariant
            i <= locals@.len(),
            all == views(locals@),
            keep == is_stackable(graph@, merge_base@, upstream_id@, upstream_name@),
            views(out@) == all.take(i as int).filter(keep),
        decreases locals@.len() - i,
    {
        let b = &locals[i];
        let ghost before = out@;
        proof {
            lemma_filter_next(all, i as int, keep);
        }
        if !same(b.name.as_str(), upstream_name) && reaches_commit(graph, b.id.as_str(), merge_base)
            && !reaches_commit(graph, upstream_id, b.id.as_str()) {
            out.push(b.copy());
            assert(views(out@) =~= views(before).push(b@));
        }
        i += 1;
    }
    assert(all.take(all.len() as int) =~= all);
    out
}

fn are_related(graph: &CommitGraph, a: &StackBranch, b: &StackBranch) -> (r: bool)
    ensures
        r == related(graph@, a@, b@),
{
    reaches_commit(graph, a.id.as_str(), b.id.as_str()) || reaches_commit(
        graph,
        b.id.as_str(),
        a.id.as_str(),
    )
}

/// Marks the branches that are connected to the one at `at`.
fn mark_connected(graph: &CommitGraph, all: &Vec<StackBranch>, at: usize) -> (r: Vec<bool>)
    requires
        at < all@.len(),
    ensures
        r@.len() == all@.len(),
        forall|j: int|
            0 <= j < all@.len() ==> #[trigger] r@[j] == connected(
                graph@,
                views(all@),
                all@[at as int]@,
                all@[j]@,
            ),
{
    let ghost g = graph@;
    let ghost bs = views(all@);
    let ghost a = bs[at as int];
    let n: usize = all.len();
    let mut marks: Vec<bool> = Vec::new();
    let mut k: usize = 0;
    while k < n
        invariant
            k <= n,
            at < n,
            marks@.len() == k,
            forall|j: int| 0 <= j < k ==> #[trigger] marks@[j] == (j == at),
        decreases n - k,
    {
        marks.push(k == at);
        k += 1;
    }
    proof {
        assert(bs.contains(bs[at as int]));
        lemma_itself(g, bs, a);
    }
    let mut changed = true;
    while changed
        invariant
            n == all@.len(),
            n == marks@.len(),
            at < n,
            g == graph@,
            bs == views(all@),
            a == bs[at as int],
            marks@[at as int],
            forall|j: int| 0 <= j < n && #[trigger] marks@[j] ==> connected(g, bs, a, bs[j]),
            !changed ==> closed_up_to(g, bs, marks@, n as int),
        decreases
                unset(marks@),
                if changed {
                    1int
                } else {
                    0int
                },
    {
        let ghost start = marks@;
        changed = false;
        let mut i: usize = 0;
        while i < n
            invariant
                i <= n,
                n == all@.len(),
                n == marks@.len(),
                at < n,
                g == graph@,
                bs == views(all@),
                a == bs[at as int],
                marks@[at as int],
                forall|j: int| 0 <= j < n && #[trigger] marks@[j] ==> connected(g, bs, a, bs[j]),
                changed ==> unset(marks@) < unset(start),
                !changed ==> marks@ == start && closed_up_to(g, bs, marks@, i as int),
            decreases n - i,
        {
            let mut j: usize = 0;
            while j < n && marks[i]
                invariant
                    i < n,
                    j <= n,
                    n == all@.len(),
                    n == marks@.len(),
                    at < n,
                    g == graph@,
                    bs == views(all@),
                    a == bs[at as int],
                    marks@[at as int],
                    forall|x: int|
                        0 <= x < n && #[trigger] marks@[x] ==> connected(g, bs, a, bs[x]),
                    changed ==> unset(marks@) < unset(start),
                    !changed ==> marks@ == start && closed_up_to(g, bs, marks@, i as int),
                    !changed && marks@[i as int] ==> forall|x: int|
                        0 <= x < j && #[trigger] related(g, bs[i as int], bs[x]) ==> marks@[x],
                decreases n - j,
            {
                assert(bs[i as int] == all@[i as int]@ && bs[j as int] == all@[j as int]@);
                if !marks[j] && are_related(graph, &all[i], &all[j]) {
                    proof {
                        assert(bs.contains(bs[j as int]));
                        lemma_one_step(g, bs, a, bs[i as int], bs[j as int]);
                        lemma_set_one(marks@, j as int);
                    }
                    marks.set(j, true);
                    changed = true;
                }
                j += 1;
            }
            i += 1;
        }
    }
    proof {
        assert forall|j: int| 0 <= j < n implies #[trigger] marks@[j] == connected(
            g,
            bs,
            all@[at as int]@,
            all@[j]@,
        ) by {
            assert(bs[j] == all@[j]@);
            if connected(g, bs, a, bs[j]) {
                let way = choose|way: Seq<BranchView>|
                    #[trigger] is_way(g, bs, way) && way[0] == a && way.last() == bs[j];
                assert forall|x: int, y: int|
                    0 <= x < n && 0 <= y < n && bs[x] == bs[y] implies marks@[x] == marks@[y] by {
                    assert(related(g, bs[x], bs[y]));
                    assert(related(g, bs[y], bs[x]));
                }
                lemma_closed(g, bs, marks@, way, way.len() - 1, at as int, j);
            }
        }
    }
    marks
}

/// The branches that hang together with the anchor over branches that stand on one another, from
/// the bottom up; none where no stack can hold the anchor.
pub fn collect_stack_component(
    graph: &CommitGraph,
    locals: &Vec<StackBranch>,
    anchor: &str,
    merge_base: &str,
    upstream_id: &str,
    upstream_name: &str,
) -> (r: Vec<StackBranch>)
    ensures
        ({
            let all = views(locals@).filter(
                is_stackable(graph@, merge_base@, upstream_id@, upstream_name@),
            );
            let at = index_named(all, anchor@);
            views(r@) == if at < all.len() {
                topological(graph@, component_of(graph@, all, all[at]))
            } else {
                Seq::empty()
            }
        }),
{
    let all = candidates(graph, locals, merge_base, upstream_id, upstream_name);
    let ghost bs = views(all@);
    let mut out: Vec<StackBranch> = Vec::new();
    assert(views(out@) =~= Seq::<BranchView>::empty());
    let at = match find_branch(&all, anchor) {
        Some(i) => i,
        None => return out,
    };
    let marks = mark_connected(graph, &all, at);
    let ghost a = bs[at as int];
    let ghost keep = |b: BranchView| connected(graph@, bs, a, b);
    let mut i: usize = 0;
    proof {
        reveal(Seq::filter);
        assert(bs.take(0) =~= Seq::<BranchView>::empty());
    }
    while i < all.len()
        invariant
            i <= all@.len() == marks@.len(),
            bs == views(all@),
            at < all@.len(),
            a == bs[at as int],
            keep == (|b: BranchView| connected(graph@, bs, a, b)),
            forall|j: int|
                0 <= j < all@.len() ==> #[trigger] marks@[j] == connected(
                    graph@,
                    views(all@),
                    all@[at as int]@,
                    all@[j]@,
                ),
            views(out@) == bs.take(i as int).filter(keep),
        decreases all@.len() - i,
    {
        let b = &all[i];
        let ghost before = out@;
        proof {
            lemma_filter_next(bs, i as int, keep);
            assert(bs[i as int] == b@);
        }
        if marks[i] {
            out.push(b.copy());
            assert(views(out@) =~= views(before).push(b@));
        }
        i += 1;
    }
    assert(bs.take(bs.len() as int) =~= bs);
    sort_branches_topologically(graph, &mut out);
    out
}

/// The branches that a component is made from are the local ones, other than the upstream, that come
/// from the merge base and are not merged into the upstream, in their order.
pub proof fn law_component_is_made_of_unmerged_branches(
    g: Parents,
    locals: Seq<BranchView>,
    merge_base: Seq<char>,
    upstream: Seq<char>,
    upstream_name: Seq<char>,
)
    ensures
        locals.filter(is_stackable(g, merge_base, upstream, upstream_name)) == chosen(
            locals.len() as int,
            |k: int|
                locals[k].0 != upstream_name && reaches(g, locals[k].1, merge_base) && !reaches(
                    g,
                    upstream,
                    locals[k].1,
                ),
            |k: int| locals[k],
        ),
{
    let keep = is_stackable(g, merge_base, upstream, upstream_name);
    lemma_filter_is_chosen(locals, locals.len() as int, keep);
    lemma_chosen_same(
        locals.len() as int,
        |k: int| keep(locals[k]),
        |k: int| locals[k],
        |k: int|
            locals[k].0 != upstream_name && reaches(g, locals[k].1, merge_base) && !reaches(
                g,
                upstream,
                locals[k].1,
            ),
        |k: int| locals[k],
    );
}

/// A component is what hangs together: it holds its anchor; with each of its branches it holds every
/// other that stands on it, below it or on the same commit; and it holds no branch that some set with
/// these two properties lacks.
pub proof fn law_component_hangs_together(
    g: Parents,
    all: Seq<BranchView>,
    at: int,
    i: int,
    j: int,
    closed: spec_fn(BranchView) -> bool,
)
    requires
        0 <= at < all.len(),
        0 <= i < all.len(),
        0 <= j < all.len(),
    ensures
        ({
            let found = component_of(g, all, all[at]);
            &&& found.contains(all[at])
            &&& found.contains(all[i]) && (reaches(g, all[i].1, all[j].1) || reaches(
                g,
                all[j].1,
                all[i].1,
            )) ==> found.contains(all[j])
            &&& closed(all[at]) && (forall|x: int, y: int|
                0 <= x < all.len() && 0 <= y < all.len() && closed(#[trigger] all[x]) && (reaches(
                    g,
                    all[x].1,
                    (#[trigger] all[y]).1,
                ) || reaches(g, all[y].1, all[x].1)) ==> closed(all[y])) && found.contains(all[i])
                ==> closed(all[i])
            &&& forall|b: BranchView| #[trigger] found.contains(b) ==> all.contains(b)
        }),
{
    let a = all[at];
    let keep = |b: BranchView| connected(g, all, a, b);
    let found = component_of(g, all, a);
    let way = seq![a];
    assert(all.contains(way[0]));
    assert(is_way(g, all, way));
    assert(way.last() == a);
    lemma_in_component(g, all, a, a);
    lemma_in_component(g, all, a, all[i]);
    lemma_in_component(g, all, a, all[j]);
    assert(all.contains(all[at]) && all.contains(all[i]) && all.contains(all[j]));
    if connected(g, all, a, all[i]) && related(g, all[i], all[j]) {
        lemma_one_step(g, all, a, all[i], all[j]);
    }
    assert forall|b: BranchView| #[trigger] found.contains(b) implies all.contains(b) by {
        lemma_in_component(g, all, a, b);
    }
    if closed(all[at]) && (forall|x: int, y: int|
        0 <= x < all.len() && 0 <= y < all.len() && closed(#[trigger] all[x]) && (reaches(
            g,
            all[x].1,
            (#[trigger] all[y]).1,
        ) || reaches(g, all[y].1, all[x].1)) ==> closed(all[y])) && found.contains(all[i]) {
        let way = choose|way: Seq<BranchView>|
            #[trigger] is_way(g, all, way) && way[0] == a && way.last() == all[i];
        lemma_closed_along(g, all, way, closed, way.len() - 1);
    }
}

proof fn lemma_in_component(g: Parents, all: Seq<BranchView>, a: BranchView, b: BranchView)
    ensures
        component_of(g, all, a).contains(b) <==> all.contains(b) && connected(g, all, a, b),
{
    let keep = |b: BranchView| connected(g, all, a, b);
    let n = all.len() as int;
    lemma_filter_is_chosen(all, n, keep);
    let at = |k: int| keep(all[k]);
    let give = |k: int| all[k];
    law_chosen(n, at, give);
    if component_of(g, all, a).contains(b) {
        let k = choose|k: int| 0 <= k < n && at(k) && #[trigger] give(k) == b;
        assert(all[k] == b);
    }
    if all.contains(b) && connected(g, all, a, b) {
        let k = all.index_of(b);
        assert(at(k));
        assert(component_of(g, all, a).contains(give(k)));
    }
}

proof fn lemma_closed_along(
    g: Parents,
    all: Seq<BranchView>,
    way: Seq<BranchView>,
    closed: spec_fn(BranchView) -> bool,
    n: int,
)
    requires
        is_way(g, all, way),
        0 <= n < way.len(),
        closed(way[0]),
        forall|x: int, y: int|
            0 <= x < all.len() && 0 <= y < all.len() && closed(#[trigger] all[x]) && (reaches(
                g,
                all[x].1,
                (#[trigger] all[y]).1,
            ) || reaches(g, all[y].1, all[x].1)) ==> closed(all[y]),
    ensures
        closed(way[n]),
    decreases n,
{
    if n > 0 {
        lemma_closed_along(g, all, way, closed, n - 1);
        assert(all.contains(way[n - 1]) && all.contains(way[n]));
        let x = all.index_of(way[n - 1]);
        let y = all.index_of(way[n]);
        assert(related(g, way[n - 1], way[n]));
        assert(all[x] == way[n - 1] && all[y] == way[n]);
    }
}

} // verus!
