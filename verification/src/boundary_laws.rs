//! What is promised of the boundary between what the upstream has taken and what it has not.

use crate::boundary::{
    cherry_ids, first_parent_chain, is_landed, merged_names, old_base_at, unmerged_from, LocalRef,
};
use crate::graph::{
    descends, is_chain, is_parent, law_descent_is_transitive, parents_first, reaches, Parents,
};
use crate::oid::{full_oid, is_oid_text};
use crate::text::words_of;
use vstd::prelude::*;

verus! {

/// `p` is the first parent of `c`.
pub open spec fn is_first_parent(g: Parents, c: Seq<char>, p: Seq<char>) -> bool {
    g.contains_key(c) && g[c].len() > 0 && g[c][0] == p
}

/// Each commit of the line is the first parent of the next.
pub open spec fn is_first_parent_line(g: Parents, line: Seq<Seq<char>>) -> bool {
    forall|i: int, j: int|
        0 <= i && j == i + 1 && j < line.len() ==> is_first_parent(
            g,
            #[trigger] line[j],
            #[trigger] line[i],
        )
}

proof fn lemma_chain_is_a_line(g: Parents, base: Seq<char>, tip: Seq<char>, steps: nat)
    ensures
        first_parent_chain(g, base, tip, steps) matches Some(chain) ==> {
            let line = seq![base] + chain;
            is_first_parent_line(g, line) && line.last() == tip && !chain.contains(base)
        },
    decreases steps,
{
    if tip == base {
        assert((seq![base] + Seq::<Seq<char>>::empty()) =~= seq![base]);
    } else if steps > 0 && g.contains_key(tip) && g[tip].len() > 0 {
        let below = g[tip][0];
        lemma_chain_is_a_line(g, base, below, (steps - 1) as nat);
        match first_parent_chain(g, base, below, (steps - 1) as nat) {
            Some(rest) => {
                let lower = seq![base] + rest;
                let chain = rest.push(tip);
                let line = seq![base] + chain;
                assert(line =~= lower.push(tip));
                assert forall|i: int, j: int| 0 <= i && j == i + 1 && j < line.len() implies is_first_parent(
            g,
            #[trigger] line[j],
            #[trigger] line[i],
        ) by {
                    if j < lower.len() {
                        assert(line[j] == lower[j] && line[i] == lower[i]);
                    } else {
                        assert(line[i] == lower.last());
                    }
                }
                if chain.contains(base) {
                    let k = chain.index_of(base);
                    if k < rest.len() {
                        assert(rest[k] == base);
                        assert(rest.contains(base));
                    }
                }
            },
            None => {},
        }
    }
}

proof fn lemma_line_is_walked(
    g: Parents,
    order: Seq<Seq<char>>,
    line: Seq<Seq<char>>,
    steps: nat,
)
    requires
        parents_first(g, order),
        line.len() > 0,
        is_first_parent_line(g, line),
        g.contains_key(line.last()) ==> order.index_of(line.last()) < steps,
    ensures
        first_parent_chain(g, line[0], line.last(), steps) is Some,
    decreases line.len(),
{
    let base = line[0];
    let tip = line.last();
    if tip != base {
        let n = line.len() - 1;
        let lower = line.drop_last();
        assert(line[n] == tip && line[n - 1] == g[tip][0]);
        assert(lower.last() == line[n - 1]);
        assert forall|i: int, j: int| 0 <= i && j == i + 1 && j < lower.len() implies is_first_parent(
            g,
            #[trigger] lower[j],
            #[trigger] lower[i],
        ) by {
            assert(lower[j] == line[j] && lower[i] == line[i]);
        }
        let at = order.index_of(tip);
        assert(order.contains(tip));
        assert(order[at] == tip);
        assert(order.take(at).contains(g[order[at]][0]));
        let k = order.take(at).index_of(g[tip][0]);
        assert(order[k] == g[tip][0]);
        assert(order.index_of(g[tip][0]) == k);
        lemma_line_is_walked(g, order, lower, (steps - 1) as nat);
    }
}

proof fn lemma_chain_is_the_line(
    g: Parents,
    line: Seq<Seq<char>>,
    steps: nat,
)
    requires
        line.len() > 0,
        is_first_parent_line(g, line),
        !line.skip(1).contains(line[0]),
        first_parent_chain(g, line[0], line.last(), steps) is Some,
    ensures
        first_parent_chain(g, line[0], line.last(), steps) == Some(line.skip(1)),
    decreases line.len(),
{
    let base = line[0];
    let tip = line.last();
    let n = line.len() - 1;
    if tip == base {
        if n > 0 {
            assert(line.skip(1)[n - 1] == tip);
        }
        assert(line.skip(1) =~= Seq::<Seq<char>>::empty());
    } else {
        let lower = line.drop_last();
        assert(line[n] == tip && line[n - 1] == g[tip][0]);
        assert(lower.last() == line[n - 1]);
        assert forall|i: int, j: int| 0 <= i && j == i + 1 && j < lower.len() implies is_first_parent(
            g,
            #[trigger] lower[j],
            #[trigger] lower[i],
        ) by {
            assert(lower[j] == line[j] && lower[i] == line[i]);
        }
        if lower.skip(1).contains(base) {
            let k = lower.skip(1).index_of(base);
            assert(line.skip(1)[k] == base);
        }
        lemma_chain_is_the_line(g, lower, (steps - 1) as nat);
        assert(lower.skip(1).push(tip) =~= line.skip(1));
    }
}

/// The chain between two commits is the line of first parents between them: where there is such a
/// line, the chain is found and is that line above its lowest commit; where there is none, none is
/// found.
pub proof fn law_chain_is_the_line_of_first_parents(
    g: Parents,
    order: Seq<Seq<char>>,
    base: Seq<char>,
    tip: Seq<char>,
)
    requires
        parents_first(g, order),
    ensures
        match first_parent_chain(g, base, tip, order.len()) {
            Some(chain) => is_first_parent_line(g, seq![base] + chain) && (seq![base]
                + chain).last() == tip && !chain.contains(base),
            None => forall|line: Seq<Seq<char>>|
                line.len() > 0 && line[0] == base && line.last() == tip
                    ==> !#[trigger] is_first_parent_line(g, line),
        },
        forall|line: Seq<Seq<char>>|
            line.len() > 0 && line[0] == base && line.last() == tip && !line.skip(1).contains(base)
                && #[trigger] is_first_parent_line(g, line) ==> first_parent_chain(
                g,
                base,
                tip,
                order.len(),
            ) == Some(line.skip(1)),
{
    lemma_chain_is_a_line(g, base, tip, order.len());
    assert forall|line: Seq<Seq<char>>|
        line.len() > 0 && line[0] == base && line.last() == tip && #[trigger] is_first_parent_line(
            g,
            line,
        ) implies first_parent_chain(g, base, tip, order.len()) is Some by {
        if g.contains_key(tip) {
            assert(order.contains(tip));
        }
        lemma_line_is_walked(g, order, line, order.len());
    }
    assert forall|line: Seq<Seq<char>>|
        line.len() > 0 && line[0] == base && line.last() == tip && !line.skip(1).contains(base)
            && #[trigger] is_first_parent_line(g, line) implies first_parent_chain(
        g,
        base,
        tip,
        order.len(),
    ) == Some(line.skip(1)) by {
        lemma_chain_is_the_line(g, line, order.len());
    }
}

/// No commit stands twice on a line of first parents.
proof fn lemma_line_is_distinct(
    g: Parents,
    order: Seq<Seq<char>>,
    line: Seq<Seq<char>>,
    i: int,
    j: int,
)
    requires
        parents_first(g, order),
        is_first_parent_line(g, line),
        0 <= i < j < line.len(),
    ensures
        order.contains(line[i]),
        order.contains(line[j]),
        order.index_of(line[i]) < order.index_of(line[j]),
    decreases j - i,
{
    let a = j - 1;
    assert(is_first_parent(g, line[j], line[a]));
    let at = order.index_of(line[j]);
    assert(order.contains(line[j]));
    assert(order[at] == line[j]);
    assert(order.take(at).contains(g[order[at]][0]));
    let k = order.take(at).index_of(line[a]);
    assert(order[k] == line[a]);
    assert(order.index_of(line[a]) == k);
    if i < a {
        lemma_line_is_distinct(g, order, line, i, a);
    }
}

/// The sync starts at the first commit that has not landed. On the line of first parents from the
/// merge base up to the top, the old base is the commit from which on nothing has landed, in the
/// upstream's history or as a patch, and which has landed itself or is the merge base. So no commit
/// that has not landed is dropped, and none that has landed last is replayed. There is no old base
/// exactly where the top has landed or is the merge base.
pub proof fn law_sync_starts_at_the_first_unmerged(
    g: Parents,
    order: Seq<Seq<char>>,
    line: Seq<Seq<char>>,
    upstream: Seq<char>,
    equivalent: Seq<Seq<char>>,
    k: int,
)
    requires
        parents_first(g, order),
        line.len() > 0,
        is_first_parent_line(g, line),
        ({
            let chain = first_parent_chain(g, line[0], line.last(), order.len());
            chain is Some && unmerged_from(g, chain->0, upstream, equivalent, k)
        }),
    ensures
        ({
            let chain = first_parent_chain(g, line[0], line.last(), order.len())->0;
            match old_base_at(chain, line[0], k) {
                None => line.len() == 1 || reaches(g, upstream, line.last())
                    || equivalent.contains(line.last()),
                Some(base) => exists|i: int| {
                    &&& 0 <= i < line.len() - 1
                    &&& #[trigger] line[i] == base
                    &&& i == 0 || reaches(g, upstream, base) || equivalent.contains(base)
                    &&& forall|j: int|
                        i < j < line.len() ==> !reaches(g, upstream, #[trigger] line[j])
                            && !equivalent.contains(line[j])
                },
            }
        }),
{
    law_chain_is_the_line_of_first_parents(g, order, line[0], line.last());
    if line.skip(1).contains(line[0]) {
        let m = line.skip(1).index_of(line[0]);
        lemma_line_is_distinct(g, order, line, 0, m + 1);
        assert(line[m + 1] == line[0]);
    }
    let chain = line.skip(1);
    if k < chain.len() {
        assert forall|j: int| k < j < line.len() implies !reaches(g, upstream, #[trigger] line[j])
            && !equivalent.contains(line[j]) by {
            assert(chain[j - 1] == line[j]);
        }
        if k > 0 {
            assert(chain[k - 1] == line[k]);
        }
        assert(line[k] == old_base_at(chain, line[0], k)->0);
    } else if k > 0 {
        assert(chain[k - 1] == line.last());
    }
}

/// The old base of a sync reaches every commit of the line that is not replayed and none that is.
pub proof fn law_sync_replays_only_what_has_not_landed(
    g: Parents,
    order: Seq<Seq<char>>,
    line: Seq<Seq<char>>,
    upstream: Seq<char>,
    equivalent: Seq<Seq<char>>,
    k: int,
    j: int,
)
    requires
        parents_first(g, order),
        line.len() > 0,
        is_first_parent_line(g, line),
        0 <= j < line.len(),
        ({
            let chain = first_parent_chain(g, line[0], line.last(), order.len());
            chain is Some && unmerged_from(g, chain->0, upstream, equivalent, k)
        }),
    ensures
        ({
            let chain = first_parent_chain(g, line[0], line.last(), order.len())->0;
            old_base_at(chain, line[0], k) matches Some(base) ==> line.contains(base) && (j
                > line.index_of(base) ==> !reaches(g, upstream, line[j]) && !equivalent.contains(
                line[j],
            )) && (j > 0 && j == line.index_of(base) ==> reaches(g, upstream, line[j])
                || equivalent.contains(line[j]))
        }),
{
    law_sync_starts_at_the_first_unmerged(g, order, line, upstream, equivalent, k);
    let chain = first_parent_chain(g, line[0], line.last(), order.len())->0;
    match old_base_at(chain, line[0], k) {
        Some(base) => {
            let i = choose|i: int| {
                &&& 0 <= i < line.len() - 1
                &&& #[trigger] line[i] == base
                &&& i == 0 || reaches(g, upstream, base) || equivalent.contains(base)
                &&& forall|j: int|
                    i < j < line.len() ==> !reaches(g, upstream, #[trigger] line[j])
                        && !equivalent.contains(line[j])
            };
            let m = line.index_of(base);
            if m < i {
                lemma_line_is_distinct(g, order, line, m, i);
            } else if i < m {
                lemma_line_is_distinct(g, order, line, i, m);
            }
        },
        None => {},
    }
}

/// The merged branches of a sync are exactly the local branches between the merge base and the top
/// whose tips have landed, without the upstream, what is the same reference and what tracks it.
pub proof fn law_merged_branches_have_landed(
    g: Parents,
    locals: Seq<LocalRef>,
    top: Seq<char>,
    upstream: Seq<char>,
    merge_base: Seq<char>,
    upstream_name: Seq<char>,
    upstream_ref: Option<Seq<char>>,
    equivalent: Seq<Seq<char>>,
    name: Seq<char>,
)
    ensures
        merged_names(
            g,
            locals,
            top,
            upstream,
            merge_base,
            upstream_name,
            upstream_ref,
            equivalent,
        ).contains(name) <==> exists|i: int| {
            &&& 0 <= i < locals.len()
            &&& (#[trigger] locals[i]).name@ == name
            &&& name != upstream_name
            &&& upstream_ref != Some(locals[i].ref_name@)
            &&& locals[i].upstream_ref matches Some(u) ==> upstream_ref != Some(u@)
            &&& reaches(g, top, locals[i].id@)
            &&& reaches(g, locals[i].id@, merge_base)
            &&& reaches(g, upstream, locals[i].id@) || equivalent.contains(locals[i].id@)
        },
        merged_names(
            g,
            locals,
            top,
            upstream,
            merge_base,
            upstream_name,
            upstream_ref,
            equivalent,
        ).len() <= locals.len(),
    decreases locals.len(),
{
    if locals.len() > 0 {
        let rest = locals.drop_last();
        let n = locals.len() - 1;
        law_merged_branches_have_landed(
            g,
            rest,
            top,
            upstream,
            merge_base,
            upstream_name,
            upstream_ref,
            equivalent,
            name,
        );
        let before = merged_names(
            g,
            rest,
            top,
            upstream,
            merge_base,
            upstream_name,
            upstream_ref,
            equivalent,
        );
        let all = merged_names(
            g,
            locals,
            top,
            upstream,
            merge_base,
            upstream_name,
            upstream_ref,
            equivalent,
        );
        assert forall|i: int| 0 <= i < n implies #[trigger] rest[i] == locals[i] by {}
        assert forall|i: int| 0 <= i < n implies #[trigger] locals[i] == rest[i] by {}
        if all.len() > before.len() {
            assert(all[before.len() as int] == locals[n].name@);
            if before.contains(name) {
                assert(all[before.index_of(name)] == name);
            }
            if all.contains(name) {
                let k = all.index_of(name);
                if k < before.len() {
                    assert(before[k] == name);
                }
            }
        }
    }
}

/// A branch counts as merged exactly where the upstream has its tip, or where there is a line of
/// first parents from the merge base up to it, at least one commit long, of which every commit above
/// the merge base has landed, in the upstream's history or as a patch.
pub proof fn law_merged_branch_has_landed_whole(
    g: Parents,
    order: Seq<Seq<char>>,
    upstream: Seq<char>,
    base: Seq<char>,
    tip: Seq<char>,
    equivalent: Seq<Seq<char>>,
)
    requires
        parents_first(g, order),
    ensures
        is_landed(g, order.len(), upstream, base, tip, equivalent) <==> reaches(g, upstream, tip)
            || exists|line: Seq<Seq<char>>| {
            &&& line.len() > 1
            &&& line[0] == base
            &&& line.last() == tip
            &&& #[trigger] is_first_parent_line(g, line)
            &&& forall|j: int|
                0 < j < line.len() ==> reaches(g, upstream, #[trigger] line[j])
                    || equivalent.contains(line[j])
        },
{
    law_chain_is_the_line_of_first_parents(g, order, base, tip);
    let found = first_parent_chain(g, base, tip, order.len());
    if is_landed(g, order.len(), upstream, base, tip, equivalent) && !reaches(g, upstream, tip) {
        let chain = found->0;
        let line = seq![base] + chain;
        assert forall|j: int| 0 < j < line.len() implies reaches(g, upstream, #[trigger] line[j])
            || equivalent.contains(line[j]) by {
            assert(line[j] == chain[j - 1]);
        }
        assert(line[0] == base);
        assert(is_first_parent_line(g, line));
    }
    if exists|line: Seq<Seq<char>>| {
        &&& line.len() > 1
        &&& line[0] == base
        &&& line.last() == tip
        &&& #[trigger] is_first_parent_line(g, line)
        &&& forall|j: int|
            0 < j < line.len() ==> reaches(g, upstream, #[trigger] line[j]) || equivalent.contains(
                line[j],
            )
    } {
        let line = choose|line: Seq<Seq<char>>| {
            &&& line.len() > 1
            &&& line[0] == base
            &&& line.last() == tip
            &&& #[trigger] is_first_parent_line(g, line)
            &&& forall|j: int|
                0 < j < line.len() ==> reaches(g, upstream, #[trigger] line[j])
                    || equivalent.contains(line[j])
        };
        if line.skip(1).contains(base) {
            let m = line.skip(1).index_of(base);
            lemma_line_is_distinct(g, order, line, 0, m + 1);
            assert(line[m + 1] == base);
        }
        let chain = line.skip(1);
        assert(found == Some(chain));
        assert forall|i: int| 0 <= i < chain.len() implies reaches(g, upstream, #[trigger] chain[i])
            || equivalent.contains(chain[i]) by {
            assert(chain[i] == line[i + 1]);
        }
    }
}

/// What `git cherry` marks with `-` is exactly what is taken to have landed as a patch, each commit
/// once.
pub proof fn law_cherry_marks_are_read(lines: Seq<Seq<char>>, id: Seq<char>)
    ensures
        cherry_ids(lines).contains(id) <==> exists|k: int| {
            let parts = words_of(#[trigger] lines[k]);
            0 <= k < lines.len() && parts.len() >= 2 && parts[0] == "-"@ && is_oid_text(parts[1])
                && full_oid(parts[1]) == id
        },
        cherry_ids(lines).no_duplicates(),
    decreases lines.len(),
{
    if lines.len() > 0 {
        let rest = lines.drop_last();
        let n = lines.len() - 1;
        law_cherry_marks_are_read(rest, id);
        let before = cherry_ids(rest);
        let all = cherry_ids(lines);
        assert forall|i: int| 0 <= i < n implies #[trigger] rest[i] == lines[i] by {}
        assert forall|i: int| 0 <= i < n implies #[trigger] lines[i] == rest[i] by {}
        assert(lines[n] == lines.last());
        if all.len() > before.len() {
            assert(all[before.len() as int] == all.last());
            if before.contains(id) {
                assert(all[before.index_of(id)] == id);
            }
            if all.contains(id) {
                let k = all.index_of(id);
                if k < before.len() {
                    assert(before[k] == id);
                }
            }
        }
    }
}

/// A commit of a line of first parents descends from every commit below it.
pub proof fn lemma_line_descends(g: Parents, line: Seq<Seq<char>>, i: int, j: int)
    requires
        is_first_parent_line(g, line),
        0 <= i < j < line.len(),
    ensures
        descends(g, line[j], line[i]),
    decreases j - i,
{
    let a = j - 1;
    assert(is_first_parent(g, line[j], line[a]));
    let step = seq![line[j], line[a]];
    assert(g[line[j]][0] == line[a]);
    assert(is_parent(g, line[j], line[a]));
    assert(is_chain(g, step));
    assert(step[0] == line[j] && step.last() == line[a]);
    if i < a {
        lemma_line_descends(g, line, i, a);
        law_descent_is_transitive(g, line[j], line[a], line[i]);
    }
}

} // verus!
