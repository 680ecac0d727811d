//! What is promised of a stack: which branches belong to it, what stands on what, and in which order.

use crate::graph::{
    descends, law_descent_is_strict, law_descent_is_transitive, parents_first, reaches, Parents,
};
use crate::lists::{chosen, law_chosen, lemma_filter_is_chosen};
use crate::oid::is_zero_oid;
use crate::stack::{
    above, at_or_below, base_map, comes_from, distinct, immediate_successors, in_stack,
    index_named, index_other_on, law_base_is_the_closest_unmerged_branch,
    law_every_branch_has_a_base, lowest_of, names_of, nearest_below, on_path, parent_id_map,
    parent_in_stack, parent_name_map, stack_tips, topmost_of, with_descendants, BranchView,
};
use vstd::prelude::*;

verus! {

/// What a filter leaves is in the list and passes, and what is in the list and passes is left.
proof fn lemma_filter_holds<A>(s: Seq<A>, keep: spec_fn(A) -> bool, b: A)
    ensures
        s.filter(keep).contains(b) <==> s.contains(b) && keep(b),
{
    lemma_filter_is_chosen(s, s.len() as int, keep);
    let at = |k: int| keep(s[k]);
    let give = |k: int| s[k];
    law_chosen(s.len() as int, at, give);
    if s.filter(keep).contains(b) {
        let k = choose|k: int| 0 <= k < s.len() && at(k) && #[trigger] give(k) == b;
        assert(s[k] == b);
    }
    if s.contains(b) && keep(b) {
        let k = s.index_of(b);
        assert(at(k));
        assert(s.filter(keep).contains(give(k)));
    }
}

/// The stack of a head holds exactly the local branches, other than the upstream, that come from the
/// merge base, are not merged into the upstream, and lie on the head's line, above it, below it or on
/// it; and it keeps their order.
pub proof fn law_stack_of_a_head(
    g: Parents,
    locals: Seq<BranchView>,
    merge_base: Seq<char>,
    head: Seq<char>,
    upstream: Seq<char>,
    upstream_name: Seq<char>,
)
    ensures
        locals.filter(in_stack(g, merge_base, head, upstream, upstream_name)) == chosen(
            locals.len() as int,
            |k: int|
                locals[k].0 != upstream_name && reaches(g, locals[k].1, merge_base) && !reaches(
                    g,
                    upstream,
                    locals[k].1,
                ) && (reaches(g, locals[k].1, head) || reaches(g, head, locals[k].1)),
            |k: int| locals[k],
        ),
{
    let keep = in_stack(g, merge_base, head, upstream, upstream_name);
    lemma_filter_is_chosen(locals, locals.len() as int, keep);
    crate::lists::lemma_chosen_same(
        locals.len() as int,
        |k: int| keep(locals[k]),
        |k: int| locals[k],
        |k: int|
            locals[k].0 != upstream_name && reaches(g, locals[k].1, merge_base) && !reaches(
                g,
                upstream,
                locals[k].1,
            ) && (reaches(g, locals[k].1, head) || reaches(g, head, locals[k].1)),
        |k: int| locals[k],
    );
}

/// The stack that is found from the merge base holds exactly the local branches, other than the
/// upstream, that are not merged into it and lie on the head's line. Where the head itself is merged,
/// those above it count that come from the merge base.
pub proof fn law_stack_from_the_merge_base(
    g: Parents,
    locals: Seq<BranchView>,
    merge_base: Seq<char>,
    head: Seq<char>,
    upstream: Seq<char>,
    upstream_name: Seq<char>,
    b: BranchView,
)
    ensures
        ({
            let found = locals.filter(at_or_below(g, head, upstream, upstream_name))
                + locals.filter(above(g, merge_base, head, upstream, upstream_name));
            found.contains(b) <==> locals.contains(b) && b.0 != upstream_name && !reaches(
                g,
                upstream,
                b.1,
            ) && (descends(g, b.1, head) || reaches(g, head, b.1)) && (reaches(g, upstream, head)
                ==> reaches(g, b.1, merge_base))
        }),
        ({
            let low = locals.filter(at_or_below(g, head, upstream, upstream_name));
            let high = locals.filter(above(g, merge_base, head, upstream, upstream_name));
            &&& low.contains(b) ==> reaches(g, head, b.1)
            &&& high.contains(b) ==> !low.contains(b)
            &&& high.contains(b) && !reaches(g, upstream, head) ==> descends(g, b.1, head)
        }),
{
    let low = at_or_below(g, head, upstream, upstream_name);
    let high = above(g, merge_base, head, upstream, upstream_name);
    let a = locals.filter(low);
    let c = locals.filter(high);
    lemma_filter_holds(locals, low, b);
    lemma_filter_holds(locals, high, b);
    let found = a + c;
    if a.contains(b) {
        assert(found[a.index_of(b)] == b);
    }
    if c.contains(b) {
        assert(found[a.len() + c.index_of(b)] == b);
    }
    if found.contains(b) {
        let k = found.index_of(b);
        if k < a.len() {
            assert(a[k] == b);
        } else {
            assert(c[k - a.len()] == b);
        }
    }
    if reaches(g, upstream, head) && reaches(g, head, b.1) {
        if upstream != head && head != b.1 {
            law_descent_is_transitive(g, upstream, head, b.1);
        }
    }
    if !reaches(g, upstream, head) && descends(g, b.1, head) && reaches(g, upstream, b.1) {
        if upstream != b.1 {
            law_descent_is_transitive(g, upstream, b.1, head);
        }
    }
}

/// Each text is kept, once.
pub proof fn law_distinct(s: Seq<Seq<char>>)
    ensures
        distinct(s).no_duplicates(),
        forall|t: Seq<char>| #[trigger] distinct(s).contains(t) <==> s.contains(t),
    decreases s.len(),
{
    if s.len() > 0 {
        let rest = s.drop_last();
        law_distinct(rest);
        let before = distinct(rest);
        let all = distinct(s);
        assert forall|t: Seq<char>| #[trigger] all.contains(t) <==> s.contains(t) by {
            assert(before.contains(t) <==> rest.contains(t));
            if rest.contains(t) {
                assert(s[rest.index_of(t)] == t);
            }
            assert(s[s.len() - 1] == s.last());
            if s.contains(t) {
                let k = s.index_of(t);
                if k < rest.len() {
                    assert(rest[k] == t);
                }
            }
            if before.contains(t) {
                assert(all[before.index_of(t)] == t);
            }
            if all.len() > before.len() {
                assert(all[before.len() as int] == s.last());
                if all.contains(t) {
                    let k = all.index_of(t);
                    if k < before.len() {
                        assert(before[k] == t);
                    }
                }
            }
        }
    }
}

proof fn lemma_names_of_filtered(
    s: Seq<BranchView>,
    keep: spec_fn(BranchView) -> bool,
    name: Seq<char>,
)
    ensures
        distinct(names_of(s.filter(keep))).contains(name) <==> exists|i: int|
            0 <= i < s.len() && (#[trigger] s[i]).0 == name && keep(s[i]),
        distinct(names_of(s.filter(keep))).no_duplicates(),
{
    let some = s.filter(keep);
    let names = names_of(some);
    law_distinct(names);
    if names.contains(name) {
        let k = names.index_of(name);
        assert(some.contains(some[k]));
        lemma_filter_holds(s, keep, some[k]);
        let i = s.index_of(some[k]);
        assert(s[i].0 == name);
    }
    if exists|i: int| 0 <= i < s.len() && (#[trigger] s[i]).0 == name && keep(s[i]) {
        let i = choose|i: int| 0 <= i < s.len() && (#[trigger] s[i]).0 == name && keep(s[i]);
        assert(s.contains(s[i]));
        lemma_filter_holds(s, keep, s[i]);
        let k = some.index_of(s[i]);
        assert(names[k] == name);
    }
}

/// The branches right above a commit are exactly those that come from it while no other branch that
/// comes from it lies between. The id that no object has counts as below everything.
pub proof fn law_successors_are_right_above(
    g: Parents,
    current: Seq<char>,
    stack: Seq<BranchView>,
    name: Seq<char>,
)
    ensures
        immediate_successors(g, current, stack).contains(name) <==> exists|i: int| {
            &&& 0 <= i < stack.len()
            &&& (#[trigger] stack[i]).0 == name
            &&& stack[i].1 != current
            &&& is_zero_oid(current) || descends(g, stack[i].1, current)
            &&& forall|k: int|
                0 <= k < stack.len() && (#[trigger] stack[k]).1 != current && (is_zero_oid(current)
                    || descends(g, stack[k].1, current)) && stack[k].1 != stack[i].1 ==> !descends(
                    g,
                    stack[i].1,
                    stack[k].1,
                )
        },
        immediate_successors(g, current, stack).no_duplicates(),
{
    let from = comes_from(g, current);
    let candidates = stack.filter(from);
    let low = lowest_of(g, candidates);
    lemma_names_of_filtered(candidates, low, name);
    if immediate_successors(g, current, stack).contains(name) {
        let c = choose|c: int|
            0 <= c < candidates.len() && (#[trigger] candidates[c]).0 == name && low(candidates[c]);
        let b = candidates[c];
        assert(candidates.contains(b));
        lemma_filter_holds(stack, from, b);
        let i = stack.index_of(b);
        assert forall|k: int|
            0 <= k < stack.len() && (#[trigger] stack[k]).1 != current && (is_zero_oid(current)
                || descends(g, stack[k].1, current)) && stack[k].1 != stack[i].1 implies !descends(
            g,
            stack[i].1,
            stack[k].1,
        ) by {
            assert(stack.contains(stack[k]));
            lemma_filter_holds(stack, from, stack[k]);
            let m = candidates.index_of(stack[k]);
            assert(candidates[m].1 == stack[k].1);
        }
        assert(stack[i].0 == name);
    }
    if exists|i: int| {
        &&& 0 <= i < stack.len()
        &&& (#[trigger] stack[i]).0 == name
        &&& stack[i].1 != current
        &&& is_zero_oid(current) || descends(g, stack[i].1, current)
        &&& forall|k: int|
            0 <= k < stack.len() && (#[trigger] stack[k]).1 != current && (is_zero_oid(current)
                || descends(g, stack[k].1, current)) && stack[k].1 != stack[i].1 ==> !descends(
                g,
                stack[i].1,
                stack[k].1,
            )
    } {
        let i = choose|i: int| {
            &&& 0 <= i < stack.len()
            &&& (#[trigger] stack[i]).0 == name
            &&& stack[i].1 != current
            &&& is_zero_oid(current) || descends(g, stack[i].1, current)
            &&& forall|k: int|
                0 <= k < stack.len() && (#[trigger] stack[k]).1 != current && (is_zero_oid(current)
                    || descends(g, stack[k].1, current)) && stack[k].1 != stack[i].1 ==> !descends(
                    g,
                    stack[i].1,
                    stack[k].1,
                )
        };
        assert(stack.contains(stack[i]));
        lemma_filter_holds(stack, from, stack[i]);
        let c = candidates.index_of(stack[i]);
        assert forall|k: int|
            0 <= k < candidates.len() && (#[trigger] candidates[k]).1
                != stack[i].1 implies !descends(g, stack[i].1, candidates[k].1) by {
            assert(candidates.contains(candidates[k]));
            lemma_filter_holds(stack, from, candidates[k]);
            let m = stack.index_of(candidates[k]);
            assert(stack[m].1 == candidates[k].1);
        }
        assert(low(candidates[c]));
        assert(candidates[c].0 == name);
    }
}

/// The tips of a stack are exactly the branches that no branch of it on another commit comes from.
pub proof fn law_tips_have_nothing_above(g: Parents, stack: Seq<BranchView>, name: Seq<char>)
    ensures
        stack_tips(g, stack).contains(name) <==> exists|i: int|
            0 <= i < stack.len() && (#[trigger] stack[i]).0 == name && forall|k: int|
                0 <= k < stack.len() && (#[trigger] stack[k]).1 != stack[i].1 ==> !descends(
                    g,
                    stack[k].1,
                    stack[i].1,
                ),
        stack_tips(g, stack).no_duplicates(),
{
    let top = topmost_of(g, stack);
    lemma_names_of_filtered(stack, top, name);
    assert forall|i: int| 0 <= i < stack.len() implies top(#[trigger] stack[i]) == forall|k: int|
        0 <= k < stack.len() && (#[trigger] stack[k]).1 != stack[i].1 ==> !descends(
            g,
            stack[k].1,
            stack[i].1,
        ) by {}
}

/// The first branch of a name: it has that name and none before it does; where no branch has the
/// name, the number of branches.
pub proof fn law_index_named(all: Seq<BranchView>, name: Seq<char>)
    ensures
        0 <= index_named(all, name) <= all.len(),
        index_named(all, name) < all.len() ==> all[index_named(all, name)].0 == name,
        forall|k: int| 0 <= k < index_named(all, name) ==> (#[trigger] all[k]).0 != name,
    decreases all.len(),
{
    if all.len() > 0 && all[0].0 != name {
        let rest = all.drop_first();
        law_index_named(rest, name);
        assert forall|k: int| 0 <= k < index_named(all, name) implies (#[trigger] all[k]).0
            != name by {
            if k > 0 {
                assert(rest[k - 1] == all[k]);
            }
        }
    }
}

/// The first branch on a commit under another name, or the number of branches.
pub proof fn law_index_other_on(all: Seq<BranchView>, id: Seq<char>, name: Seq<char>)
    ensures
        0 <= index_other_on(all, id, name) <= all.len(),
        index_other_on(all, id, name) < all.len() ==> all[index_other_on(all, id, name)].1 == id
            && all[index_other_on(all, id, name)].0 != name,
        forall|k: int|
            0 <= k < index_other_on(all, id, name) ==> (#[trigger] all[k]).1 != id || all[k].0
                == name,
    decreases all.len(),
{
    if all.len() > 0 && !(all[0].1 == id && all[0].0 != name) {
        let rest = all.drop_first();
        law_index_other_on(rest, id, name);
        assert forall|k: int| 0 <= k < index_other_on(all, id, name) implies (
        #[trigger] all[k]).1 != id || all[k].0 == name by {
            if k > 0 {
                assert(rest[k - 1] == all[k]);
            }
        }
    }
}

/// What depends on a commit: what was there stays in front; every branch on another commit that comes
/// from it is there by its name, nothing else is added, and no name is added twice.
pub proof fn law_descendants_are_collected(
    g: Parents,
    root: Seq<char>,
    all: Seq<BranchView>,
    have: Seq<BranchView>,
    n: int,
)
    requires
        0 <= n <= all.len(),
    ensures
        ({
            let found = with_descendants(g, root, all.take(n), have);
            &&& have.len() <= found.len()
            &&& found.take(have.len() as int) == have
            &&& forall|k: int|
                0 <= k < n && (#[trigger] all[k]).1 != root && descends(g, all[k].1, root)
                    ==> names_of(found).contains(all[k].0)
            &&& forall|i: int|
                have.len() <= i < found.len() ==> (#[trigger] found[i]).1 != root && descends(
                    g,
                    found[i].1,
                    root,
                ) && all.contains(found[i]) && !names_of(found.take(i)).contains(found[i].0)
        }),
    decreases n,
{
    if n > 0 {
        law_descendants_are_collected(g, root, all, have, n - 1);
        let part = all.take(n);
        assert(part.drop_last() =~= all.take(n - 1));
        let before = with_descendants(g, root, all.take(n - 1), have);
        let found = with_descendants(g, root, part, have);
        let b = all[n - 1];
        assert(part.last() == b);
        assert(found.take(have.len() as int) =~= before.take(have.len() as int));
        assert forall|k: int|
            0 <= k < n && (#[trigger] all[k]).1 != root && descends(
                g,
                all[k].1,
                root,
            ) implies names_of(found).contains(all[k].0) by {
            if names_of(before).contains(all[k].0) {
                let i = names_of(before).index_of(all[k].0);
                assert(names_of(found)[i] == all[k].0);
            } else {
                assert(names_of(found)[before.len() as int] == b.0);
            }
        }
        assert forall|i: int| have.len() <= i < found.len() implies (#[trigger] found[i]).1 != root
            && descends(g, found[i].1, root) && all.contains(found[i]) && !names_of(
            found.take(i),
        ).contains(found[i].0) by {
            if i < before.len() {
                assert(found[i] == before[i]);
                assert(found.take(i) =~= before.take(i));
            } else {
                assert(found.take(i) =~= before);
            }
        }
    } else {
        assert(all.take(0) =~= Seq::<BranchView>::empty());
        assert(have.take(have.len() as int) =~= have);
    }
}

/// The path to a tip is made of exactly the branches of the stack at or below the tip and at or above
/// the merge base, in their order.
pub proof fn law_path_lies_between(
    g: Parents,
    stack: Seq<BranchView>,
    tip: Seq<char>,
    merge_base: Seq<char>,
)
    ensures
        stack.filter(on_path(g, tip, merge_base)) == chosen(
            stack.len() as int,
            |k: int| reaches(g, tip, stack[k].1) && reaches(g, stack[k].1, merge_base),
            |k: int| stack[k],
        ),
{
    let keep = on_path(g, tip, merge_base);
    lemma_filter_is_chosen(stack, stack.len() as int, keep);
    crate::lists::lemma_chosen_same(
        stack.len() as int,
        |k: int| keep(stack[k]),
        |k: int| stack[k],
        |k: int| reaches(g, tip, stack[k].1) && reaches(g, stack[k].1, merge_base),
        |k: int| stack[k],
    );
}

/// The commit that a branch stands on: the merge base, or the tip of another branch of the stack that
/// it comes from.
proof fn lemma_parent_is_a_tip(
    g: Parents,
    all: Seq<BranchView>,
    name: Seq<char>,
    id: Seq<char>,
    merge_base: Seq<char>,
)
    ensures
        ({
            let parent = nearest_below(g, all, name, id, merge_base);
            parent == merge_base || exists|k: int|
                0 <= k < all.len() && (#[trigger] all[k]).0 != name && all[k].1 == parent
                    && descends(g, id, parent)
        }),
    decreases all.len(),
{
    if all.len() > 0 {
        let rest = all.drop_last();
        lemma_parent_is_a_tip(g, rest, name, id, merge_base);
        let best = nearest_below(g, rest, name, id, merge_base);
        let parent = nearest_below(g, all, name, id, merge_base);
        if parent == best && best != merge_base {
            let k = choose|k: int|
                0 <= k < rest.len() && (#[trigger] rest[k]).0 != name && rest[k].1 == best
                    && descends(g, id, best);
            assert(all[k] == rest[k]);
        } else if parent != merge_base {
            assert(all[all.len() - 1].1 == parent);
        }
    }
}

/// The parent of a branch is the nearest one below it. It is the merge base or the tip of another
/// branch of the stack that the branch comes from, and no tip of another branch lies between the two.
/// This holds where the branches below it come from the merge base.
pub proof fn law_parent_is_right_below(
    g: Parents,
    order: Seq<Seq<char>>,
    all: Seq<BranchView>,
    i: int,
    merge_base: Seq<char>,
)
    requires
        parents_first(g, order),
        0 <= i < all.len(),
        names_of(all).no_duplicates(),
        forall|k: int|
            0 <= k < all.len() && descends(g, all[i].1, (#[trigger] all[k]).1) ==> descends(
                g,
                all[k].1,
                merge_base,
            ),
    ensures
        ({
            let parent = parent_in_stack(g, all[i].0, all, merge_base);
            &&& parent == merge_base || exists|k: int|
                0 <= k < all.len() && k != i && (#[trigger] all[k]).1 == parent
            &&& parent == merge_base || descends(g, all[i].1, parent)
            &&& forall|k: int|
                0 <= k < all.len() && descends(g, all[i].1, (#[trigger] all[k]).1) ==> reaches(
                    g,
                    all[k].1,
                    merge_base,
                ) && !descends(g, all[k].1, parent)
        }),
{
    let name = all[i].0;
    let id = all[i].1;
    law_index_named(all, name);
    let at = index_named(all, name);
    assert(names_of(all)[at] == names_of(all)[i]);
    lemma_parent_is_a_tip(g, all, name, id, merge_base);
    crate::stack::law_parent_is_nearest(g, order, all, name, id, merge_base);
    let parent = parent_in_stack(g, name, all, merge_base);
    if parent != merge_base {
        let k = choose|k: int|
            0 <= k < all.len() && (#[trigger] all[k]).0 != name && all[k].1 == parent && descends(
                g,
                id,
                parent,
            );
        assert(k != i);
    }
    assert forall|k: int| 0 <= k < all.len() && descends(
        g,
        id,
        (#[trigger] all[k]).1,
    ) implies reaches(g, all[k].1, merge_base) && !descends(g, all[k].1, parent) by {
        if all[k].0 == name {
            assert(names_of(all)[k] == names_of(all)[i]);
            law_descent_is_strict(g, order, id, id);
        }
    }
}

/// The commits that the branches of a part of the stack stand on are noted for exactly those
/// branches: for each, the commit that it stands on in the stack.
pub proof fn law_parent_ids_are_those_of_the_stack(
    g: Parents,
    sub: Seq<BranchView>,
    all: Seq<BranchView>,
    merge_base: Seq<char>,
    n: int,
    name: Seq<char>,
)
    requires
        0 <= n <= sub.len(),
    ensures
        parent_id_map(g, sub, all, merge_base, n).contains_key(name) <==> exists|k: int|
            0 <= k < n && (#[trigger] sub[k]).0 == name,
        parent_id_map(g, sub, all, merge_base, n).contains_key(name) ==> parent_id_map(
            g,
            sub,
            all,
            merge_base,
            n,
        )[name] == nearest_below(g, all, name, all[index_named(all, name)].1, merge_base),
    decreases n,
{
    if n > 0 {
        law_parent_ids_are_those_of_the_stack(g, sub, all, merge_base, n - 1, name);
        let before = parent_id_map(g, sub, all, merge_base, n - 1);
        if before.contains_key(name) {
            let k = choose|k: int| 0 <= k < n - 1 && (#[trigger] sub[k]).0 == name;
            assert(0 <= k < n && sub[k].0 == name);
        }
        if sub[n - 1].0 == name {
            assert(0 <= n - 1 < n && sub[n - 1].0 == name);
        }
    }
}

/// A parent has a name where another branch of the part is on that commit, or where it is the tip of
/// the current branch; the name is one of those.
pub proof fn law_parent_names_stand_for_parents(
    g: Parents,
    sub: Seq<BranchView>,
    all: Seq<BranchView>,
    merge_base: Seq<char>,
    head: Seq<char>,
    current: Seq<char>,
    n: int,
    name: Seq<char>,
)
    requires
        0 <= n <= sub.len(),
    ensures
        ({
            let names = parent_name_map(g, sub, all, merge_base, head, current, n);
            let parent = nearest_below(g, all, name, all[index_named(all, name)].1, merge_base);
            let listed = exists|k: int| 0 <= k < n && (#[trigger] sub[k]).0 == name;
            let beside = exists|k: int|
                0 <= k < sub.len() && (#[trigger] sub[k]).1 == parent && sub[k].0 != name;
            &&& names.contains_key(name) <==> listed && (beside || parent == head)
            &&& names.contains_key(name) && beside ==> exists|k: int|
                0 <= k < sub.len() && (#[trigger] sub[k]).1 == parent && sub[k].0 != name
                    && names[name] == sub[k].0 && forall|j: int|
                    0 <= j < k ==> (#[trigger] sub[j]).1 != parent || sub[j].0 == name
            &&& names.contains_key(name) && !beside ==> names[name] == current
        }),
    decreases n,
{
    let parent = nearest_below(g, all, name, all[index_named(all, name)].1, merge_base);
    law_index_other_on(sub, parent, name);
    if n > 0 {
        law_parent_names_stand_for_parents(
            g,
            sub,
            all,
            merge_base,
            head,
            current,
            n - 1,
            name,
        );
        let before = parent_name_map(g, sub, all, merge_base, head, current, n - 1);
        if exists|k: int| 0 <= k < n - 1 && (#[trigger] sub[k]).0 == name {
            let k = choose|k: int| 0 <= k < n - 1 && (#[trigger] sub[k]).0 == name;
            assert(0 <= k < n && sub[k].0 == name);
        }
        if sub[n - 1].0 == name {
            assert(0 <= n - 1 < n && sub[n - 1].0 == name);
        }
    }
    let at = index_other_on(sub, parent, name);
    if at < sub.len() {
        assert(sub[at].1 == parent && sub[at].0 != name);
    }
}

/// Each branch of a list is based on the closest branch below it that is not merged into the upstream,
/// or on the upstream where there is none; nothing else has a base. This holds of branches of
/// different names whose ancestors in the list lie on one line.
pub proof fn law_bases_are_right_below(
    g: Parents,
    order: Seq<Seq<char>>,
    all: Seq<BranchView>,
    i: int,
    upstream_id: Seq<char>,
    upstream_name: Seq<char>,
)
    requires
        parents_first(g, order),
        0 <= i < all.len(),
        names_of(all).no_duplicates(),
        forall|j: int, k: int|
            0 <= j < all.len() && 0 <= k < all.len() && descends(
                g,
                all[i].1,
                (#[trigger] all[j]).1,
            ) && descends(g, all[i].1, (#[trigger] all[k]).1) ==> reaches(g, all[j].1, all[k].1)
                || reaches(g, all[k].1, all[j].1),
    ensures
        ({
            let bases = base_map(g, all, upstream_id, upstream_name, all.len() as int);
            &&& bases.contains_key(all[i].0)
            &&& forall|name: Seq<char>| #[trigger]
                bases.contains_key(name) ==> names_of(all).contains(name)
            &&& (bases[all[i].0] == upstream_name && forall|k: int|
                0 <= k < all.len() && descends(g, all[i].1, (#[trigger] all[k]).1) ==> reaches(
                    g,
                    upstream_id,
                    all[k].1,
                )) || exists|c: int| {
                &&& 0 <= c < all.len()
                &&& bases[all[i].0] == (#[trigger] all[c]).0
                &&& descends(g, all[i].1, all[c].1)
                &&& !reaches(g, upstream_id, all[c].1)
                &&& forall|k: int|
                    0 <= k < all.len() && descends(g, all[i].1, (#[trigger] all[k]).1) && !reaches(
                        g,
                        upstream_id,
                        all[k].1,
                    ) ==> !descends(g, all[k].1, all[c].1)
            }
        }),
{
    let bases = base_map(g, all, upstream_id, upstream_name, all.len() as int);
    let b = all[i];
    law_every_branch_has_a_base(
        g,
        all,
        upstream_id,
        upstream_name,
        all.len() as int,
        b.0,
    );
    assert(0 <= i < all.len() && all[i].0 == b.0);
    assert forall|name: Seq<char>| #[trigger] bases.contains_key(name) implies names_of(
        all,
    ).contains(name) by {
        law_every_branch_has_a_base(
            g,
            all,
            upstream_id,
            upstream_name,
            all.len() as int,
            name,
        );
        let k = choose|k: int| 0 <= k < all.len() && (#[trigger] all[k]).0 == name;
        assert(names_of(all)[k] == name);
    }
    law_base_is_the_closest_unmerged_branch(g, order, all, b, upstream_id, upstream_name);
    law_descent_is_strict(g, order, b.1, b.1);
    assert forall|k: int| 0 <= k < all.len() && descends(g, b.1, (#[trigger] all[k]).1) implies all[k].0
        != b.0 by {
        if all[k].0 == b.0 {
            assert(names_of(all)[k] == names_of(all)[i]);
        }
    }
}

/// Where the branches below a commit lie on one line and none is on the base, the nearest of them is
/// found: every other is the same commit or lies below it. The base is given only where there is none.
pub proof fn law_nearest_on_a_line(
    g: Parents,
    all: Seq<BranchView>,
    name: Seq<char>,
    id: Seq<char>,
    base: Seq<char>,
)
    requires
        forall|j: int, k: int|
            0 <= j < all.len() && 0 <= k < all.len() && descends(g, id, (#[trigger] all[j]).1)
                && descends(g, id, (#[trigger] all[k]).1) ==> reaches(g, all[j].1, all[k].1)
                || reaches(g, all[k].1, all[j].1),
        forall|k: int| 0 <= k < all.len() ==> (#[trigger] all[k]).1 != base,
    ensures
        ({
            let parent = nearest_below(g, all, name, id, base);
            &&& parent != base ==> exists|k: int|
                0 <= k < all.len() && (#[trigger] all[k]).0 != name && all[k].1 == parent && all[k].1
                    != id && descends(g, id, parent)
            &&& forall|k: int|
                0 <= k < all.len() && (#[trigger] all[k]).0 != name && all[k].1 != id && descends(
                    g,
                    id,
                    all[k].1,
                ) ==> parent != base && reaches(g, parent, all[k].1)
        }),
    decreases all.len(),
{
    if all.len() > 0 {
        let rest = all.drop_last();
        let n = rest.len() as int;
        let x = all[n];
        assert forall|j: int, k: int|
            0 <= j < rest.len() && 0 <= k < rest.len() && descends(g, id, (#[trigger] rest[j]).1)
                && descends(g, id, (#[trigger] rest[k]).1) implies reaches(
            g,
            rest[j].1,
            rest[k].1,
        ) || reaches(g, rest[k].1, rest[j].1) by {
            assert(rest[j] == all[j] && rest[k] == all[k]);
        }
        assert forall|k: int| 0 <= k < rest.len() implies (#[trigger] rest[k]).1 != base by {
            assert(rest[k] == all[k]);
        }
        law_nearest_on_a_line(g, rest, name, id, base);
        let best = nearest_below(g, rest, name, id, base);
        let parent = nearest_below(g, all, name, id, base);
        if parent != base {
            if parent == best {
                let k = choose|k: int|
                    0 <= k < rest.len() && (#[trigger] rest[k]).0 != name && rest[k].1 == best
                        && rest[k].1 != id && descends(g, id, best);
                assert(all[k] == rest[k]);
            } else {
                assert(all[n].1 == parent);
            }
        }
        assert forall|k: int|
            0 <= k < all.len() && (#[trigger] all[k]).0 != name && all[k].1 != id && descends(
                g,
                id,
                all[k].1,
            ) implies parent != base && reaches(g, parent, all[k].1) by {
            if k < n {
                assert(rest[k] == all[k]);
                if parent != best && best != all[k].1 {
                    law_descent_is_transitive(g, parent, best, all[k].1);
                }
            } else if best != base && parent == best {
                let m = choose|k: int|
                    0 <= k < rest.len() && (#[trigger] rest[k]).0 != name && rest[k].1 == best
                        && rest[k].1 != id && descends(g, id, best);
                assert(all[m] == rest[m]);
                assert(reaches(g, all[m].1, all[n].1) || reaches(g, all[n].1, all[m].1));
            }
        }
    }
}

} // verus!
