//! Which branches make up a stack, and how they stand to each other.

use crate::graph::{
    descends, law_descent_is_strict, law_descent_is_transitive, lemma_descends_known,
    parents_first, reaches, reaches_commit, CommitGraph, Parents,
};
use crate::names::{lemma_text_map_empty, lemma_text_map_insert, text_map, NameMap};
use crate::oid::{is_zero_oid, zero_oid};
use crate::text::{
    cat2, cat3, has_text, lemma_text_lt_irreflexive, lemma_text_lt_total, lemma_text_lt_transitive,
    less, opt_text, same, strs, text_lt,
};
use vstd::prelude::*;

verus! {

/// A local branch: its name and the commit at its tip.
#[derive(Debug)]
pub struct StackBranch {
    pub name: String,
    pub id: String,
}

/// Name and tip of a branch.
pub type BranchView = (Seq<char>, Seq<char>);

impl View for StackBranch {
    type V = BranchView;

    open spec fn view(&self) -> BranchView {
        (self.name@, self.id@)
    }
}

impl StackBranch {
    pub fn copy(&self) -> (r: StackBranch)
        ensures
            r == *self,
    {
        StackBranch { name: self.name.clone(), id: self.id.clone() }
    }
}

/// Names and tips of a list of branches.
pub open spec fn views(v: Seq<StackBranch>) -> Seq<BranchView> {
    Seq::new(v.len(), |i: int| v[i]@)
}

/// The names of a list of branches.
pub open spec fn names_of(v: Seq<BranchView>) -> Seq<Seq<char>> {
    Seq::new(v.len(), |i: int| v[i].0)
}

/// A copy of each branch.
pub fn copy_branches(v: &Vec<StackBranch>) -> (r: Vec<StackBranch>)
    ensures
        r@ == v@,
{
    let mut out: Vec<StackBranch> = Vec::new();
    let mut i: usize = 0;
    while i < v.len()
        invariant
            i <= v@.len(),
            out@ == v@.take(i as int),
        decreases v@.len() - i,
    {
        out.push(v[i].copy());
        i += 1;
    }
    assert(v@.take(v@.len() as int) == v@);
    out
}

/// Why a question about a stack has no answer.
#[derive(Debug)]
pub enum StackError {
    /// The branch whose descendants are asked for is not in the stack.
    RootNotInStack(String),
    /// The branch whose parent is asked for is not in the stack.
    NotInStack(String),
}

impl StackError {
    pub open spec fn text(self) -> Seq<char> {
        match self {
            StackError::RootNotInStack(name) => "Branch '"@ + name@
                + "' not found in stack. Cannot move the upstream branch itself."@,
            StackError::NotInStack(name) => "Branch '"@ + name@ + "' not found in stack."@,
        }
    }

    pub fn message(&self) -> (r: String)
        ensures
            r@ == self.text(),
    {
        match self {
            StackError::RootNotInStack(name) => cat3(
                "Branch '",
                name.as_str(),
                "' not found in stack. Cannot move the upstream branch itself.",
            ),
            StackError::NotInStack(name) => cat3("Branch '", name.as_str(), "' not found in stack."),
        }
    }
}

proof fn lemma_views_push(v: Seq<StackBranch>, b: StackBranch)
    ensures
        views(v.push(b)) == views(v).push(b@),
{
    assert(views(v.push(b)) =~= views(v).push(b@));
}

/// One more element of a filtered sequence.
pub proof fn lemma_filter_next<A>(s: Seq<A>, i: int, keep: spec_fn(A) -> bool)
    requires
        0 <= i < s.len(),
    ensures
        s.take(i + 1).filter(keep) == if keep(s[i]) {
            s.take(i).filter(keep).push(s[i])
        } else {
            s.take(i).filter(keep)
        },
{
    reveal(Seq::filter);
    assert(s.take(i + 1).drop_last() =~= s.take(i));
}

proof fn lemma_filter_none<A>(s: Seq<A>, keep: spec_fn(A) -> bool)
    ensures
        s.take(0).filter(keep) == Seq::<A>::empty(),
        s.take(s.len() as int) == s,
{
    reveal(Seq::filter);
    assert(s.take(0) =~= Seq::<A>::empty());
    assert(s.take(s.len() as int) =~= s);
}

/// A commit belongs to the stack of `head`: it comes from the merge base, is not merged into the
/// upstream, and lies on the line of `head`.
pub open spec fn is_stack_member(
    g: Parents,
    id: Seq<char>,
    merge_base: Seq<char>,
    upstream: Seq<char>,
    head: Seq<char>,
) -> bool {
    &&& reaches(g, id, merge_base)
    &&& !reaches(g, upstream, id)
    &&& descends(g, id, head) || descends(g, head, id) || id == head
}

fn stack_member(
    graph: &CommitGraph,
    id: &str,
    merge_base: &str,
    upstream: &str,
    head: &str,
) -> (r: bool)
    ensures
        r == is_stack_member(graph@, id@, merge_base@, upstream@, head@),
{
    reaches_commit(graph, id, merge_base) && !reaches_commit(graph, upstream, id) && (
    graph.descendant_of(id, head) || graph.descendant_of(head, id) || same(id, head))
}

/// The branches, other than the upstream, that belong to the stack of `head`.
pub open spec fn in_stack(
    g: Parents,
    merge_base: Seq<char>,
    head: Seq<char>,
    upstream: Seq<char>,
    upstream_name: Seq<char>,
) -> spec_fn(BranchView) -> bool {
    |b: BranchView|
        b.0 != upstream_name && is_stack_member(g, b.1, merge_base, upstream, head)
}

/// The branches of the stack of `head`, in the order of the local branches. `merge_base` is the
/// merge base of `head` and the upstream.
pub fn get_stack_branches(
    graph: &CommitGraph,
    locals: &Vec<StackBranch>,
    merge_base: &str,
    head_id: &str,
    upstream_id: &str,
    upstream_name: &str,
) -> (r: Vec<StackBranch>)
    ensures
        views(r@) == views(locals@).filter(
            in_stack(graph@, merge_base@, head_id@, upstream_id@, upstream_name@),
        ),
{
    let ghost keep = in_stack(graph@, merge_base@, head_id@, upstream_id@, upstream_name@);
    let ghost all = views(locals@);
    let mut out: Vec<StackBranch> = Vec::new();
    let mut i: usize = 0;
    proof {
        lemma_filter_none(all, keep);
    }
    while i < locals.len()
        invariant
            i <= locals@.len(),
            all == views(locals@),
            keep == in_stack(graph@, merge_base@, head_id@, upstream_id@, upstream_name@),
            views(out@) == all.take(i as int).filter(keep),
        decreases locals@.len() - i,
    {
        let b = &locals[i];
        proof {
            lemma_filter_next(all, i as int, keep);
            lemma_views_push(out@, *b);
        }
        if !same(b.name.as_str(), upstream_name) && stack_member(
            graph,
            b.id.as_str(),
            merge_base,
            upstream_id,
            head_id,
        ) {
            out.push(b.copy());
        }
        i += 1;
    }
    proof {
        lemma_filter_none(all, keep);
    }
    out
}

/// Branches at or below `head` whose tip is not merged into the upstream.
pub open spec fn at_or_below(
    g: Parents,
    head: Seq<char>,
    upstream: Seq<char>,
    upstream_name: Seq<char>,
) -> spec_fn(BranchView) -> bool {
    |b: BranchView|
        b.0 != upstream_name && reaches(g, head, b.1) && !reaches(g, upstream, b.1)
}

/// Branches above `head`. Where `head` itself is merged into the upstream, every unmerged branch on
/// its line that comes from the merge base counts.
pub open spec fn above(
    g: Parents,
    merge_base: Seq<char>,
    head: Seq<char>,
    upstream: Seq<char>,
    upstream_name: Seq<char>,
) -> spec_fn(BranchView) -> bool {
    |b: BranchView|
        b.0 != upstream_name && !at_or_below(g, head, upstream, upstream_name)(b) && if reaches(
            g,
            upstream,
            head,
        ) {
            is_stack_member(g, b.1, merge_base, upstream, head)
        } else {
            descends(g, b.1, head)
        }
}

/// The branches of the stack of `head`: first those at or below it, then those above it.
pub fn get_stack_branches_from_merge_base(
    graph: &CommitGraph,
    locals: &Vec<StackBranch>,
    merge_base: &str,
    head_id: &str,
    upstream_id: &str,
    upstream_name: &str,
) -> (r: Vec<StackBranch>)
    ensures
        views(r@) == views(locals@).filter(
            at_or_below(graph@, head_id@, upstream_id@, upstream_name@),
        ) + views(locals@).filter(
            above(graph@, merge_base@, head_id@, upstream_id@, upstream_name@),
        ),
{
    let head_is_on_upstream = reaches_commit(graph, upstream_id, head_id);
    let ghost low = at_or_below(graph@, head_id@, upstream_id@, upstream_name@);
    let ghost high = above(graph@, merge_base@, head_id@, upstream_id@, upstream_name@);
    let ghost all = views(locals@);
    let mut branches: Vec<StackBranch> = Vec::new();
    let mut tops: Vec<StackBranch> = Vec::new();
    let mut i: usize = 0;
    proof {
        lemma_filter_none(all, low);
        lemma_filter_none(all, high);
    }
    while i < locals.len()
        invariant
            i <= locals@.len(),
            all == views(locals@),
            head_is_on_upstream == reaches(graph@, upstream_id@, head_id@),
            low == at_or_below(graph@, head_id@, upstream_id@, upstream_name@),
            high == above(graph@, merge_base@, head_id@, upstream_id@, upstream_name@),
            views(branches@) == all.take(i as int).filter(low),
            views(tops@) == all.take(i as int).filter(high),
        decreases locals@.len() - i,
    {
        let b = &locals[i];
        let id = b.id.as_str();
        proof {
            lemma_filter_next(all, i as int, low);
            lemma_filter_next(all, i as int, high);
            lemma_views_push(branches@, *b);
            lemma_views_push(tops@, *b);
        }
        if !same(b.name.as_str(), upstream_name) {
            if reaches_commit(graph, head_id, id) && !reaches_commit(graph, upstream_id, id) {
                branches.push(b.copy());
            } else {
                let in_stack = if head_is_on_upstream {
                    stack_member(graph, id, merge_base, upstream_id, head_id)
                } else {
                    graph.descendant_of(id, head_id)
                };
                if in_stack {
                    tops.push(b.copy());
                }
            }
        }
        i += 1;
    }
    proof {
        lemma_filter_none(all, low);
        lemma_filter_none(all, high);
        assert(views(branches@ + tops@) =~= views(branches@) + views(tops@));
    }
    branches.append(&mut tops);
    branches
}

/// Every branch that `get_stack_branches` finds is found by `get_stack_branches_from_merge_base`.
pub proof fn law_stack_discoveries_agree(
    g: Parents,
    merge_base: Seq<char>,
    head: Seq<char>,
    upstream: Seq<char>,
    upstream_name: Seq<char>,
    b: BranchView,
)
    requires
        in_stack(g, merge_base, head, upstream, upstream_name)(b),
    ensures
        at_or_below(g, head, upstream, upstream_name)(b) || above(
            g,
            merge_base,
            head,
            upstream,
            upstream_name,
        )(b),
{
}

/// A branch above an unmerged `head` is itself unmerged, so nothing that is merged into the
/// upstream is ever taken for a part of the stack.
pub proof fn law_stack_branches_are_unmerged(
    g: Parents,
    merge_base: Seq<char>,
    head: Seq<char>,
    upstream: Seq<char>,
    upstream_name: Seq<char>,
    b: BranchView,
)
    requires
        at_or_below(g, head, upstream, upstream_name)(b) || above(
            g,
            merge_base,
            head,
            upstream,
            upstream_name,
        )(b),
    ensures
        !reaches(g, upstream, b.1),
        b.0 != upstream_name,
{
    if !at_or_below(g, head, upstream, upstream_name)(b) && !reaches(g, upstream, head) {
        if reaches(g, upstream, b.1) && upstream != b.1 {
            law_descent_is_transitive(g, upstream, b.1, head);
        }
    }
}

/// The texts of a list, each at its first place only.
pub open spec fn distinct(s: Seq<Seq<char>>) -> Seq<Seq<char>>
    decreases s.len(),
{
    if s.len() == 0 {
        s
    } else if distinct(s.drop_last()).contains(s.last()) {
        distinct(s.drop_last())
    } else {
        distinct(s.drop_last()).push(s.last())
    }
}

proof fn lemma_names_push(s: Seq<BranchView>, b: BranchView)
    ensures
        names_of(s.push(b)) == names_of(s).push(b.0),
        distinct(names_of(s.push(b))) == if distinct(names_of(s)).contains(b.0) {
            distinct(names_of(s))
        } else {
            distinct(names_of(s)).push(b.0)
        },
{
    assert(names_of(s.push(b)) =~= names_of(s).push(b.0));
    assert(names_of(s.push(b)).drop_last() =~= names_of(s));
}

proof fn lemma_strs_push(v: Seq<String>, s: String)
    ensures
        strs(v.push(s)) == strs(v).push(s@),
{
    assert(strs(v.push(s)) =~= strs(v).push(s@));
}

/// Branches on another commit than `current` that come from it. The id that no object has stands
/// for the root of everything.
pub open spec fn comes_from(g: Parents, current: Seq<char>) -> spec_fn(BranchView) -> bool {
    |b: BranchView| b.1 != current && (is_zero_oid(current) || descends(g, b.1, current))
}

/// Branches that come from no other of the candidates.
pub open spec fn lowest_of(g: Parents, candidates: Seq<BranchView>) -> spec_fn(BranchView) -> bool {
    |b: BranchView|
        forall|k: int|
            0 <= k < candidates.len() && (#[trigger] candidates[k]).1 != b.1 ==> !descends(
                g,
                b.1,
                candidates[k].1,
            )
}

/// Branches that no other branch of the stack comes from.
pub open spec fn topmost_of(g: Parents, all: Seq<BranchView>) -> spec_fn(BranchView) -> bool {
    |b: BranchView|
        forall|k: int|
            0 <= k < all.len() && (#[trigger] all[k]).1 != b.1 ==> !descends(g, all[k].1, b.1)
}

/// Whether one of `list` on another commit lies below `id` (or, with `up`, above it).
fn has_relative(graph: &CommitGraph, list: &Vec<StackBranch>, id: &str, up: bool) -> (r: bool)
    ensures
        r == exists|k: int|
            0 <= k < views(list@).len() && (#[trigger] views(list@)[k]).1 != id@ && if up {
                descends(graph@, views(list@)[k].1, id@)
            } else {
                descends(graph@, id@, views(list@)[k].1)
            },
{
    let ghost all = views(list@);
    let mut j: usize = 0;
    while j < list.len()
        invariant
            j <= list@.len(),
            all == views(list@),
            forall|k: int|
                0 <= k < j && (#[trigger] all[k]).1 != id@ ==> !(if up {
                    descends(graph@, all[k].1, id@)
                } else {
                    descends(graph@, id@, all[k].1)
                }),
        decreases list@.len() - j,
    {
        let other = list[j].id.as_str();
        assert(all[j as int].1 == other@);
        if !same(other, id) {
            let hit = if up {
                graph.descendant_of(other, id)
            } else {
                graph.descendant_of(id, other)
            };
            if hit {
                return true;
            }
        }
        j += 1;
    }
    false
}

/// The names of the branches right above `current_id`.
pub open spec fn immediate_successors(
    g: Parents,
    current: Seq<char>,
    stack: Seq<BranchView>,
) -> Seq<Seq<char>> {
    let candidates = stack.filter(comes_from(g, current));
    distinct(names_of(candidates.filter(lowest_of(g, candidates))))
}

pub fn get_immediate_successors(
    graph: &CommitGraph,
    current_id: &str,
    stack_branches: &Vec<StackBranch>,
) -> (r: Vec<String>)
    ensures
        strs(r@) == immediate_successors(graph@, current_id@, views(stack_branches@)),
{
    let zero = zero_oid(current_id);
    let ghost all = views(stack_branches@);
    let ghost from = comes_from(graph@, current_id@);
    let mut candidates: Vec<StackBranch> = Vec::new();
    let mut i: usize = 0;
    proof {
        lemma_filter_none(all, from);
    }
    while i < stack_branches.len()
        invariant
            i <= stack_branches@.len(),
            all == views(stack_branches@),
            zero == is_zero_oid(current_id@),
            from == comes_from(graph@, current_id@),
            views(candidates@) == all.take(i as int).filter(from),
        decreases stack_branches@.len() - i,
    {
        let b = &stack_branches[i];
        proof {
            lemma_filter_next(all, i as int, from);
            lemma_views_push(candidates@, *b);
        }
        if !same(b.id.as_str(), current_id) && (zero || graph.descendant_of(
            b.id.as_str(),
            current_id,
        )) {
            candidates.push(b.copy());
        }
        i += 1;
    }
    let ghost cands = views(candidates@);
    let ghost low = lowest_of(graph@, cands);
    let mut out: Vec<String> = Vec::new();
    let mut j: usize = 0;
    proof {
        lemma_filter_none(all, from);
        lemma_filter_none(cands, low);
        assert(names_of(cands.take(0).filter(low)) =~= Seq::<Seq<char>>::empty());
    }
    while j < candidates.len()
        invariant
            j <= candidates@.len(),
            cands == views(candidates@),
            low == lowest_of(graph@, cands),
            strs(out@) == distinct(names_of(cands.take(j as int).filter(low))),
        decreases candidates@.len() - j,
    {
        let b = &candidates[j];
        assert(cands[j as int] == b@);
        let higher = has_relative(graph, &candidates, b.id.as_str(), false);
        assert(higher == !low(b@));
        proof {
            lemma_filter_next(cands, j as int, low);
            lemma_names_push(cands.take(j as int).filter(low), b@);
            lemma_strs_push(out@, b.name);
        }
        if !higher && !has_text(&out, b.name.as_str()) {
            out.push(b.name.clone());
        }
        j += 1;
    }
    proof {
        lemma_filter_none(cands, low);
    }
    out
}

/// The names of the branches that nothing in the stack comes from.
pub open spec fn stack_tips(g: Parents, stack: Seq<BranchView>) -> Seq<Seq<char>> {
    distinct(names_of(stack.filter(topmost_of(g, stack))))
}

pub fn get_stack_tips(graph: &CommitGraph, stack_branches: &Vec<StackBranch>) -> (r: Vec<String>)
    ensures
        strs(r@) == stack_tips(graph@, views(stack_branches@)),
{
    let ghost all = views(stack_branches@);
    let ghost top = topmost_of(graph@, all);
    let mut out: Vec<String> = Vec::new();
    let mut j: usize = 0;
    proof {
        lemma_filter_none(all, top);
        assert(names_of(all.take(0).filter(top)) =~= Seq::<Seq<char>>::empty());
    }
    while j < stack_branches.len()
        invariant
            j <= stack_branches@.len(),
            all == views(stack_branches@),
            top == topmost_of(graph@, all),
            strs(out@) == distinct(names_of(all.take(j as int).filter(top))),
        decreases stack_branches@.len() - j,
    {
        let b = &stack_branches[j];
        assert(all[j as int] == b@);
        let lower = has_relative(graph, stack_branches, b.id.as_str(), true);
        assert(lower == !top(b@));
        proof {
            lemma_filter_next(all, j as int, top);
            lemma_names_push(all.take(j as int).filter(top), b@);
            lemma_strs_push(out@, b.name);
        }
        if !lower && !has_text(&out, b.name.as_str()) {
            out.push(b.name.clone());
        }
        j += 1;
    }
    proof {
        lemma_filter_none(all, top);
    }
    out
}

/// `have`, followed by the branches that come from `root` and whose names are not there yet.
pub open spec fn with_descendants(
    g: Parents,
    root: Seq<char>,
    all: Seq<BranchView>,
    have: Seq<BranchView>,
) -> Seq<BranchView>
    decreases all.len(),
{
    if all.len() == 0 {
        have
    } else {
        let before = with_descendants(g, root, all.drop_last(), have);
        let b = all.last();
        if b.1 != root && descends(g, b.1, root) && !names_of(before).contains(b.0) {
            before.push(b)
        } else {
            before
        }
    }
}

/// Whether a branch of that name is in the list.
pub fn has_branch(list: &Vec<StackBranch>, name: &str) -> (r: bool)
    ensures
        r == names_of(views(list@)).contains(name@),
{
    let mut i: usize = 0;
    while i < list.len()
        invariant
            i <= list@.len(),
            forall|k: int| 0 <= k < i ==> names_of(views(list@))[k] != name@,
        decreases list@.len() - i,
    {
        if same(list[i].name.as_str(), name) {
            assert(names_of(views(list@))[i as int] == name@);
            return true;
        }
        i += 1;
    }
    false
}

pub fn collect_descendants_of_id(
    graph: &CommitGraph,
    root_id: &str,
    all_branches: &Vec<StackBranch>,
    result: &mut Vec<StackBranch>,
)
    ensures
        views(final(result)@) == with_descendants(
            graph@,
            root_id@,
            views(all_branches@),
            views(old(result)@),
        ),
{
    let ghost all = views(all_branches@);
    let ghost have = views(result@);
    let mut i: usize = 0;
    assert(all.take(0) =~= Seq::<BranchView>::empty());
    while i < all_branches.len()
        invariant
            i <= all_branches@.len(),
            all == views(all_branches@),
            views(result@) == with_descendants(graph@, root_id@, all.take(i as int), have),
        decreases all_branches@.len() - i,
    {
        let b = &all_branches[i];
        proof {
            assert(all.take(i + 1).drop_last() =~= all.take(i as int));
            assert(all.take(i + 1).last() == b@);
            lemma_views_push(result@, *b);
        }
        if !same(b.id.as_str(), root_id) && graph.descendant_of(b.id.as_str(), root_id)
            && !has_branch(result, b.name.as_str()) {
            result.push(b.copy());
        }
        i += 1;
    }
    assert(all.take(all.len() as int) =~= all);
}

/// The first place of a branch of that name, or the number of branches.
pub open spec fn index_named(all: Seq<BranchView>, name: Seq<char>) -> int
    decreases all.len(),
{
    if all.len() == 0 || all[0].0 == name {
        0
    } else {
        1 + index_named(all.drop_first(), name)
    }
}

pub proof fn lemma_index_named(all: Seq<BranchView>, name: Seq<char>, at: int)
    requires
        0 <= at <= all.len(),
        forall|k: int| 0 <= k < at ==> (#[trigger] all[k]).0 != name,
        at < all.len() ==> all[at].0 == name,
    ensures
        index_named(all, name) == at,
    decreases all.len(),
{
    if all.len() > 0 && all[0].0 != name {
        let rest = all.drop_first();
        assert forall|k: int| 0 <= k < at - 1 implies (#[trigger] rest[k]).0 != name by {
            assert(rest[k] == all[k + 1]);
        }
        lemma_index_named(rest, name, at - 1);
    }
}

/// The place of the first branch of that name.
pub fn find_branch(all: &Vec<StackBranch>, name: &str) -> (r: Option<usize>)
    ensures
        match r {
            Some(i) => i == index_named(views(all@), name@) && i < all@.len()
                && all@[i as int].name@ == name@,
            None => index_named(views(all@), name@) == all@.len(),
        },
{
    let ghost list = views(all@);
    let mut i: usize = 0;
    while i < all.len()
        invariant
            i <= all@.len(),
            list == views(all@),
            forall|k: int| 0 <= k < i ==> (#[trigger] list[k]).0 != name@,
        decreases all@.len() - i,
    {
        if same(all[i].name.as_str(), name) {
            proof {
                lemma_index_named(list, name@, i as int);
            }
            return Some(i);
        }
        assert(list[i as int].0 != name@);
        i += 1;
    }
    proof {
        lemma_index_named(list, name@, i as int);
    }
    None
}

/// Puts the branch of that name and the branches that come from it behind what is there.
pub fn collect_descendants(
    graph: &CommitGraph,
    root_name: &str,
    all_branches: &Vec<StackBranch>,
    result: &mut Vec<StackBranch>,
) -> (r: Result<(), StackError>)
    ensures
        ({
            let all = views(all_branches@);
            let at = index_named(all, root_name@);
            match r {
                Ok(_) => at < all.len() && views(final(result)@) == with_descendants(
                    graph@,
                    all[at].1,
                    all,
                    views(old(result)@).push(all[at]),
                ),
                Err(StackError::RootNotInStack(name)) => at == all.len() && name@ == root_name@
                    && *final(result) == *old(result),
                Err(StackError::NotInStack(_)) => false,
            }
        }),
{
    match find_branch(all_branches, root_name) {
        None => Err(StackError::RootNotInStack(root_name.to_owned())),
        Some(i) => {
            let root = &all_branches[i];
            proof {
                lemma_views_push(result@, *root);
            }
            result.push(root.copy());
            collect_descendants_of_id(graph, root.id.as_str(), all_branches, result);
            Ok(())
        },
    }
}

/// Branches on the way from the merge base up to `tip`, both ends counted.
pub open spec fn on_path(
    g: Parents,
    tip: Seq<char>,
    merge_base: Seq<char>,
) -> spec_fn(BranchView) -> bool {
    |b: BranchView| reaches(g, tip, b.1) && reaches(g, b.1, merge_base)
}

pub fn collect_path_branches(
    graph: &CommitGraph,
    target_tip_id: &str,
    merge_base: &str,
    stack_branches: &Vec<StackBranch>,
) -> (r: Vec<StackBranch>)
    ensures
        views(r@) == views(stack_branches@).filter(on_path(graph@, target_tip_id@, merge_base@)),
{
    let ghost keep = on_path(graph@, target_tip_id@, merge_base@);
    let ghost all = views(stack_branches@);
    let mut out: Vec<StackBranch> = Vec::new();
    let mut i: usize = 0;
    proof {
        lemma_filter_none(all, keep);
    }
    while i < stack_branches.len()
        invariant
            i <= stack_branches@.len(),
            all == views(stack_branches@),
            keep == on_path(graph@, target_tip_id@, merge_base@),
            views(out@) == all.take(i as int).filter(keep),
        decreases stack_branches@.len() - i,
    {
        let b = &stack_branches[i];
        proof {
            lemma_filter_next(all, i as int, keep);
            lemma_views_push(out@, *b);
        }
        if reaches_commit(graph, target_tip_id, b.id.as_str()) && reaches_commit(
            graph,
            b.id.as_str(),
            merge_base,
        ) {
            out.push(b.copy());
        }
        i += 1;
    }
    proof {
        lemma_filter_none(all, keep);
    }
    out
}

/// The branch at place `i` comes from no other branch of the list.
pub open spec fn ready(g: Parents, s: Seq<BranchView>, i: int) -> bool {
    0 <= i < s.len() && forall|j: int| 0 <= j < s.len() ==> !descends(g, s[i].1, #[trigger] s[j].1)
}

/// The branch at place `i` has the first name of those that come from no other of the list.
pub open spec fn least_ready(g: Parents, s: Seq<BranchView>, i: int) -> bool {
    ready(g, s, i) && forall|j: int| #[trigger]
        ready(g, s, j) ==> s[i].0 == s[j].0 || text_lt(s[i].0, s[j].0)
}

/// The first such place.
pub open spec fn first_least(g: Parents, s: Seq<BranchView>, i: int) -> bool {
    least_ready(g, s, i) && forall|j: int| 0 <= j < i ==> !#[trigger] least_ready(g, s, j)
}

/// Place `i` comes next in the order: of the branches on the same commit as the first least one, it
/// stands first.
pub open spec fn is_pick(g: Parents, s: Seq<BranchView>, i: int) -> bool {
    exists|k: int| #[trigger]
        first_least(g, s, k) && 0 <= i < s.len() && s[i].1 == s[k].1 && (forall|j: int|
            0 <= j < i ==> (#[trigger] s[j]).1 != s[k].1)
}

pub open spec fn pick(g: Parents, s: Seq<BranchView>) -> int {
    choose|i: int| is_pick(g, s, i)
}

/// The branches of a list, ancestors first, and by name where neither comes from the other.
pub open spec fn topological(g: Parents, s: Seq<BranchView>) -> Seq<BranchView>
    decreases s.len(),
{
    let i = pick(g, s);
    if 0 <= i < s.len() {
        seq![s[i]] + topological(g, s.remove(i))
    } else {
        Seq::empty()
    }
}

proof fn lemma_pick_unique(g: Parents, s: Seq<BranchView>, a: int, b: int)
    requires
        is_pick(g, s, a),
        is_pick(g, s, b),
    ensures
        a == b,
{
    let k = choose|k: int| #[trigger]
        first_least(g, s, k) && 0 <= a < s.len() && s[a].1 == s[k].1 && (forall|j: int|
            0 <= j < a ==> (#[trigger] s[j]).1 != s[k].1);
    let m = choose|k: int| #[trigger]
        first_least(g, s, k) && 0 <= b < s.len() && s[b].1 == s[k].1 && (forall|j: int|
            0 <= j < b ==> (#[trigger] s[j]).1 != s[k].1);
    if k < m {
        assert(least_ready(g, s, k));
    }
    if m < k {
        assert(least_ready(g, s, m));
    }
}

/// The height of a branch's commit in an order with parents first.
spec fn rank(order: Seq<Seq<char>>, id: Seq<char>) -> int {
    if order.contains(id) {
        order.index_of(id)
    } else {
        -1
    }
}

spec fn lowest_place(order: Seq<Seq<char>>, s: Seq<BranchView>) -> int
    decreases s.len(),
{
    if s.len() <= 1 {
        0
    } else {
        let i = lowest_place(order, s.drop_last());
        if rank(order, s.last().1) < rank(order, s[i].1) {
            s.len() - 1
        } else {
            i
        }
    }
}

proof fn lemma_lowest_place(order: Seq<Seq<char>>, s: Seq<BranchView>)
    requires
        s.len() > 0,
    ensures
        0 <= lowest_place(order, s) < s.len(),
        forall|j: int|
            0 <= j < s.len() ==> rank(order, s[lowest_place(order, s)].1) <= rank(
                order,
                #[trigger] s[j].1,
            ),
    decreases s.len(),
{
    if s.len() > 1 {
        lemma_lowest_place(order, s.drop_last());
        let i = lowest_place(order, s.drop_last());
        assert forall|j: int| 0 <= j < s.len() implies rank(
            order,
            s[lowest_place(order, s)].1,
        ) <= rank(order, #[trigger] s[j].1) by {
            if j < s.len() - 1 {
                assert(s.drop_last()[j].1 == s[j].1);
            }
        }
    }
}

/// In a list that is not empty, some branch comes from no other.
proof fn lemma_some_ready(g: Parents, order: Seq<Seq<char>>, s: Seq<BranchView>)
    requires
        parents_first(g, order),
        s.len() > 0,
    ensures
        ready(g, s, lowest_place(order, s)),
{
    lemma_lowest_place(order, s);
    let i = lowest_place(order, s);
    assert forall|j: int| 0 <= j < s.len() implies !descends(g, s[i].1, #[trigger] s[j].1) by {
        lemma_descends_known(g, order, s[i].1, s[j].1);
    }
}

/// The branches at the given places.
spec fn at_places(all: Seq<BranchView>, places: Seq<usize>) -> Seq<BranchView> {
    Seq::new(places.len(), |k: int| all[places[k] as int])
}

/// What a pick takes comes from no branch of the list.
proof fn lemma_pick_is_ready(g: Parents, s: Seq<BranchView>, i: int)
    requires
        is_pick(g, s, i),
    ensures
        ready(g, s, i),
{
    let k = choose|k: int| #[trigger]
        first_least(g, s, k) && 0 <= i < s.len() && s[i].1 == s[k].1 && (forall|j: int|
            0 <= j < i ==> (#[trigger] s[j]).1 != s[k].1);
    assert(ready(g, s, k));
}

/// Every list that is not empty has a pick.
proof fn lemma_pick_exists(g: Parents, order: Seq<Seq<char>>, s: Seq<BranchView>)
    requires
        parents_first(g, order),
        s.len() > 0,
    ensures
        is_pick(g, s, pick(g, s)),
        0 <= pick(g, s) < s.len(),
{
    lemma_some_ready(g, order, s);
    let k = lemma_first_least(g, s, lowest_place(order, s), s.len() as int);
    let i = lemma_first_on(s, s[k].1, k);
    assert(is_pick(g, s, i));
}

/// The first place of a commit.
proof fn lemma_first_on(s: Seq<BranchView>, id: Seq<char>, at: int) -> (r: int)
    requires
        0 <= at < s.len(),
        s[at].1 == id,
    ensures
        0 <= r <= at,
        s[r].1 == id,
        forall|j: int| 0 <= j < r ==> (#[trigger] s[j]).1 != id,
    decreases at,
{
    if exists|j: int| 0 <= j < at && (#[trigger] s[j]).1 == id {
        let j = choose|j: int| 0 <= j < at && (#[trigger] s[j]).1 == id;
        lemma_first_on(s, id, j)
    } else {
        at
    }
}

/// The first least place among the first `n`, seen from one that is ready.
proof fn lemma_first_least(g: Parents, s: Seq<BranchView>, at: int, n: int) -> (r: int)
    requires
        0 <= n <= s.len(),
        ready(g, s, at),
    ensures
        n == s.len() ==> first_least(g, s, r),
        ready(g, s, r),
        forall|j: int|
            0 <= j < n && #[trigger] ready(g, s, j) ==> s[r].0 == s[j].0 || text_lt(s[r].0, s[j].0),
        forall|j: int|
            0 <= j < r && j < n && #[trigger] ready(g, s, j) ==> text_lt(s[r].0, s[j].0),
        r < n || forall|j: int| 0 <= j < n && #[trigger] ready(g, s, j) ==> text_lt(s[r].0, s[j].0),
    decreases n,
{
    if n == 0 {
        at
    } else {
        let p = lemma_first_least(g, s, at, n - 1);
        lemma_text_lt_total(s[p].0, s[n - 1].0);
        let r = if ready(g, s, n - 1) && (text_lt(s[n - 1].0, s[p].0) || (s[n - 1].0 == s[p].0 && p
            >= n)) {
            n - 1
        } else {
            p
        };
        assert forall|j: int| 0 <= j < n && #[trigger] ready(g, s, j) implies s[r].0 == s[j].0
            || text_lt(s[r].0, s[j].0) by {
            if j < n - 1 && r == n - 1 && text_lt(s[r].0, s[p].0) && text_lt(s[p].0, s[j].0) {
                lemma_text_lt_transitive(s[r].0, s[p].0, s[j].0);
            }
        }
        assert forall|j: int| 0 <= j < r && j < n && #[trigger] ready(g, s, j) implies text_lt(
            s[r].0,
            s[j].0,
        ) by {
            if r == n - 1 && text_lt(s[r].0, s[p].0) && text_lt(s[p].0, s[j].0) {
                lemma_text_lt_transitive(s[r].0, s[p].0, s[j].0);
            }
        }
        if n == s.len() {
            assert(least_ready(g, s, r));
            assert forall|j: int| 0 <= j < r implies !#[trigger] least_ready(g, s, j) by {
                if ready(g, s, j) {
                    assert(text_lt(s[r].0, s[j].0));
                    lemma_text_lt_irreflexive(s[r].0);
                    if text_lt(s[j].0, s[r].0) {
                        lemma_text_lt_transitive(s[r].0, s[j].0, s[r].0);
                    }
                }
            }
        }
        r
    }
}

/// Whether the branch at place `rest[k]` comes from none of the remaining ones.
fn is_ready(come: &Vec<Vec<bool>>, rest: &Vec<usize>, k: usize, Ghost(g): Ghost<Parents>, Ghost(
    all,
): Ghost<Seq<BranchView>>) -> (r: bool)
    requires
        k < rest@.len(),
        come@.len() == all.len(),
        forall|j: int| 0 <= j < rest@.len() ==> (#[trigger] rest@[j]) < all.len(),
        forall|a: int| 0 <= a < all.len() ==> (#[trigger] come@[a])@.len() == all.len(),
        forall|a: int, b: int|
            0 <= a < all.len() && 0 <= b < all.len() ==> #[trigger] come@[a]@[b] == descends(
                g,
                all[a].1,
                all[b].1,
            ),
    ensures
        r == ready(g, at_places(all, rest@), k as int),
{
    let ghost s = at_places(all, rest@);
    let a: usize = rest[k];
    assert(come@[a as int]@.len() == all.len());
    let mut j: usize = 0;
    while j < rest.len()
        invariant
            j <= rest@.len(),
            k < rest@.len(),
            a == rest@[k as int],
            a < all.len(),
            s == at_places(all, rest@),
            come@.len() == all.len(),
            come@[a as int]@.len() == all.len(),
            forall|i: int| 0 <= i < rest@.len() ==> (#[trigger] rest@[i]) < all.len(),
            forall|b: int|
                0 <= b < all.len() ==> #[trigger] come@[a as int]@[b] == descends(
                    g,
                    all[a as int].1,
                    all[b].1,
                ),
            forall|i: int| 0 <= i < j ==> !descends(g, s[k as int].1, #[trigger] s[i].1),
        decreases rest@.len() - j,
    {
        let b: usize = rest[j];
        assert(s[j as int] == all[b as int]);
        assert(s[k as int] == all[a as int]);
        if come[a][b] {
            return false;
        }
        j += 1;
    }
    true
}

/// Puts ancestors before the branches that come from them, and orders the rest by name.
pub fn sort_branches_topologically(graph: &CommitGraph, branches: &mut Vec<StackBranch>)
    ensures
        views(final(branches)@) == topological(graph@, views(old(branches)@)),
{
    let ghost all = views(branches@);
    let ghost g = graph@;
    let known = graph.len();
    let n: usize = branches.len();
    let mut come: Vec<Vec<bool>> = Vec::new();
    let mut rest: Vec<usize> = Vec::new();
    let mut a: usize = 0;
    while a < n
        invariant
            a <= n == branches@.len(),
            all == views(branches@),
            g == graph@,
            come@.len() == a,
            rest@.len() == a,
            forall|k: int| 0 <= k < a ==> #[trigger] rest@[k] == k,
            forall|x: int| 0 <= x < a ==> (#[trigger] come@[x])@.len() == n,
            forall|x: int, y: int|
                0 <= x < a && 0 <= y < n ==> #[trigger] come@[x]@[y] == descends(
                    g,
                    all[x].1,
                    all[y].1,
                ),
        decreases n - a,
    {
        let mut row: Vec<bool> = Vec::new();
        let mut b: usize = 0;
        while b < n
            invariant
                b <= n == branches@.len(),
                a < n,
                all == views(branches@),
                g == graph@,
                row@.len() == b,
                forall|y: int|
                    0 <= y < b ==> #[trigger] row@[y] == descends(g, all[a as int].1, all[y].1),
            decreases n - b,
        {
            row.push(graph.descendant_of(branches[a].id.as_str(), branches[b].id.as_str()));
            b += 1;
        }
        come.push(row);
        rest.push(a);
        a += 1;
    }
    let mut out: Vec<StackBranch> = Vec::new();
    proof {
        assert(at_places(all, rest@) =~= all);
        assert(Seq::<BranchView>::empty() + topological(g, all) =~= topological(g, all));
        assert(views(out@) =~= Seq::<BranchView>::empty());
    }
    while rest.len() > 0
        invariant
            n == branches@.len() == all.len(),
            all == views(branches@),
            g == graph@,
            parents_first(g, graph.order()),
            come@.len() == n,
            forall|k: int| 0 <= k < rest@.len() ==> (#[trigger] rest@[k]) < n,
            forall|x: int| 0 <= x < n ==> (#[trigger] come@[x])@.len() == n,
            forall|x: int, y: int|
                0 <= x < n && 0 <= y < n ==> #[trigger] come@[x]@[y] == descends(
                    g,
                    all[x].1,
                    all[y].1,
                ),
            views(out@) + topological(g, at_places(all, rest@)) == topological(g, all),
        decreases rest@.len(),
    {
        let ghost s = at_places(all, rest@);
        let mut best: Option<usize> = None;
        let mut k: usize = 0;
        while k < rest.len()
            invariant
                k <= rest@.len(),
                n == branches@.len() == all.len(),
                all == views(branches@),
                s == at_places(all, rest@),
                come@.len() == n,
                forall|i: int| 0 <= i < rest@.len() ==> (#[trigger] rest@[i]) < n,
                forall|x: int| 0 <= x < n ==> (#[trigger] come@[x])@.len() == n,
                forall|x: int, y: int|
                    0 <= x < n && 0 <= y < n ==> #[trigger] come@[x]@[y] == descends(
                        g,
                        all[x].1,
                        all[y].1,
                    ),
                match best {
                    None => forall|j: int| 0 <= j < k ==> !#[trigger] ready(g, s, j),
                    Some(b) => {
                        &&& b < k
                        &&& ready(g, s, b as int)
                        &&& forall|j: int|
                            0 <= j < k && #[trigger] ready(g, s, j) ==> s[b as int].0 == s[j].0
                                || text_lt(s[b as int].0, s[j].0)
                        &&& forall|j: int|
                            0 <= j < b && #[trigger] ready(g, s, j) ==> text_lt(
                                s[b as int].0,
                                s[j].0,
                            )
                    },
                },
            decreases rest@.len() - k,
        {
            if is_ready(&come, &rest, k, Ghost(g), Ghost(all)) {
                match best {
                    None => {
                        best = Some(k);
                    },
                    Some(b) => {
                        let here = &branches[rest[k]];
                        let there = &branches[rest[b]];
                        assert(s[k as int] == here@);
                        assert(s[b as int] == there@);
                        proof {
                            lemma_text_lt_total(s[b as int].0, s[k as int].0);
                            if text_lt(s[k as int].0, s[b as int].0) {
                                assert forall|j: int| 0 <= j < k && #[trigger] ready(
                                    g,
                                    s,
                                    j,
                                ) implies text_lt(s[k as int].0, s[j].0) by {
                                    if s[b as int].0 != s[j].0 {
                                        lemma_text_lt_transitive(
                                            s[k as int].0,
                                            s[b as int].0,
                                            s[j].0,
                                        );
                                    }
                                }
                            }
                        }
                        if less(here.name.as_str(), there.name.as_str()) {
                            best = Some(k);
                        }
                    },
                }
            }
            k += 1;
        }
        proof {
            lemma_some_ready(g, graph.order(), s);
            lemma_lowest_place(graph.order(), s);
        }
        let least: usize = match best {
            Some(b) => b,
            None => 0,
        };
        proof {
            assert(least_ready(g, s, least as int));
            assert forall|j: int| 0 <= j < least implies !#[trigger] least_ready(g, s, j) by {
                if ready(g, s, j) {
                    lemma_text_lt_irreflexive(s[j].0);
                    if text_lt(s[j].0, s[least as int].0) {
                        lemma_text_lt_transitive(s[least as int].0, s[j].0, s[least as int].0);
                        lemma_text_lt_irreflexive(s[least as int].0);
                    }
                }
            }
            assert(first_least(g, s, least as int));
        }
        let mut first: usize = 0;
        while !same(branches[rest[first]].id.as_str(), branches[rest[least]].id.as_str())
            invariant
                first <= least < rest@.len(),
                n == branches@.len() == all.len(),
                all == views(branches@),
                s == at_places(all, rest@),
                forall|i: int| 0 <= i < rest@.len() ==> (#[trigger] rest@[i]) < n,
                forall|j: int| 0 <= j < first ==> (#[trigger] s[j]).1 != s[least as int].1,
            decreases least - first,
        {
            assert(s[first as int] == branches@[rest@[first as int] as int]@);
            assert(s[least as int] == branches@[rest@[least as int] as int]@);
            first += 1;
        }
        proof {
            assert(s[first as int] == branches@[rest@[first as int] as int]@);
            assert(s[least as int] == branches@[rest@[least as int] as int]@);
            assert(is_pick(g, s, first as int));
            lemma_pick_unique(g, s, first as int, pick(g, s));
        }
        let place: usize = rest[first];
        let taken = branches[place].copy();
        let ghost before = out@;
        let ghost places = rest@;
        out.push(taken);
        rest.remove(first);
        proof {
            lemma_views_push(before, taken);
            assert(at_places(all, rest@) =~= s.remove(first as int));
            assert(views(out@) + topological(g, s.remove(first as int)) =~= views(before) + (
            seq![s[first as int]] + topological(g, s.remove(first as int))));
        }
    }
    proof {
        assert(at_places(all, rest@) =~= Seq::<BranchView>::empty());
        assert(topological(g, Seq::<BranchView>::empty()) =~= Seq::<BranchView>::empty());
        assert(views(out@) + Seq::<BranchView>::empty() =~= views(out@));
    }
    *branches = out;
}

/// Sorting keeps each branch of the list and puts no branch before one that it comes from.
pub proof fn law_topological(g: Parents, order: Seq<Seq<char>>, s: Seq<BranchView>)
    requires
        parents_first(g, order),
    ensures
        topological(g, s).to_multiset() == s.to_multiset(),
        topological(g, s).len() == s.len(),
        forall|i: int, j: int|
            0 <= i < j < s.len() ==> !descends(
                g,
                (#[trigger] topological(g, s)[i]).1,
                (#[trigger] topological(g, s)[j]).1,
            ),
    decreases s.len(),
{
    broadcast use vstd::seq_lib::group_to_multiset_ensures;

    if s.len() > 0 {
        lemma_pick_exists(g, order, s);
        let i = pick(g, s);
        lemma_pick_is_ready(g, s, i);
        let rest = s.remove(i);
        let sorted = topological(g, rest);
        law_topological(g, order, rest);
        let t = topological(g, s);
        assert(t =~= seq![s[i]] + sorted);
        s.remove_ensures(i);
        assert(t.remove(0) =~= sorted);
        assert(t.to_multiset() =~= s.to_multiset()) by {
            assert(t.to_multiset().remove(s[i]) == sorted.to_multiset());
            assert(s.to_multiset().remove(s[i]) == rest.to_multiset());
            assert(t.contains(t[0]));
            assert(s.contains(s[i]));
            assert(t.to_multiset() =~= sorted.to_multiset().insert(s[i]));
            assert(s.to_multiset() =~= rest.to_multiset().insert(s[i]));
        }
        assert forall|a: int, b: int| 0 <= a < b < s.len() implies !descends(
            g,
            (#[trigger] t[a]).1,
            (#[trigger] t[b]).1,
        ) by {
            if a == 0 {
                assert(sorted.contains(sorted[b - 1]));
                assert(sorted.to_multiset().contains(t[b]));
                assert(rest.to_multiset().contains(t[b]));
                assert(rest.contains(t[b]));
                let c = choose|c: int| 0 <= c < rest.len() && rest[c] == t[b];
                let d = if c < i {
                    c
                } else {
                    c + 1
                };
                assert(s[d] == t[b]);
                assert(!descends(g, s[i].1, s[d].1));
            } else {
                assert(t[a] == sorted[a - 1] && t[b] == sorted[b - 1]);
            }
        }
    } else {
        assert(topological(g, s) =~= s);
    }
}

/// The tip nearest below `id`: walking the list, a branch that `id` comes from takes the place of
/// the merge base, or of a tip that it comes from.
pub open spec fn nearest_below(
    g: Parents,
    all: Seq<BranchView>,
    name: Seq<char>,
    id: Seq<char>,
    merge_base: Seq<char>,
) -> Seq<char>
    decreases all.len(),
{
    if all.len() == 0 {
        merge_base
    } else {
        let best = nearest_below(g, all.drop_last(), name, id, merge_base);
        let b = all.last();
        if b.0 != name && b.1 != id && descends(g, id, b.1) && (best == merge_base || descends(
            g,
            b.1,
            best,
        )) {
            b.1
        } else {
            best
        }
    }
}

/// The parent of the branch of that name.
pub open spec fn parent_in_stack(
    g: Parents,
    name: Seq<char>,
    all: Seq<BranchView>,
    merge_base: Seq<char>,
) -> Seq<char> {
    nearest_below(g, all, name, all[index_named(all, name)].1, merge_base)
}

/// The commit that a branch of the stack stands on: the nearest tip below it, or the merge base.
pub fn find_parent_in_stack(
    graph: &CommitGraph,
    branch_name: &str,
    all_branches: &Vec<StackBranch>,
    merge_base: &str,
) -> (r: Result<String, StackError>)
    ensures
        ({
            let all = views(all_branches@);
            let at = index_named(all, branch_name@);
            match r {
                Ok(id) => at < all.len() && id@ == parent_in_stack(
                    graph@,
                    branch_name@,
                    all,
                    merge_base@,
                ),
                Err(StackError::NotInStack(name)) => at == all.len() && name@ == branch_name@,
                Err(StackError::RootNotInStack(_)) => false,
            }
        }),
{
    let at = match find_branch(all_branches, branch_name) {
        Some(i) => i,
        None => return Err(StackError::NotInStack(branch_name.to_owned())),
    };
    let id = all_branches[at].id.as_str();
    let ghost all = views(all_branches@);
    let mut best = merge_base.to_owned();
    let mut i: usize = 0;
    assert(all.take(0) =~= Seq::<BranchView>::empty());
    while i < all_branches.len()
        invariant
            i <= all_branches@.len(),
            all == views(all_branches@),
            best@ == nearest_below(graph@, all.take(i as int), branch_name@, id@, merge_base@),
        decreases all_branches@.len() - i,
    {
        let b = &all_branches[i];
        proof {
            assert(all.take(i + 1).drop_last() =~= all.take(i as int));
            assert(all.take(i + 1).last() == b@);
        }
        if !same(b.name.as_str(), branch_name) && !same(b.id.as_str(), id) && graph.descendant_of(
            id,
            b.id.as_str(),
        ) && (same(best.as_str(), merge_base) || graph.descendant_of(b.id.as_str(), best.as_str()))
        {
            best = b.id.clone();
        }
        i += 1;
    }
    assert(all.take(all.len() as int) =~= all);
    Ok(best)
}

/// Where every branch that `id` comes from lies above the merge base, the parent is the merge base
/// or the tip of such a branch, and none of them lies between the parent and `id`.
pub proof fn law_parent_is_nearest(
    g: Parents,
    order: Seq<Seq<char>>,
    all: Seq<BranchView>,
    name: Seq<char>,
    id: Seq<char>,
    merge_base: Seq<char>,
)
    requires
        parents_first(g, order),
        forall|k: int|
            0 <= k < all.len() && descends(g, id, (#[trigger] all[k]).1) ==> descends(
                g,
                all[k].1,
                merge_base,
            ),
    ensures
        ({
            let parent = nearest_below(g, all, name, id, merge_base);
            &&& parent == merge_base || (descends(g, id, parent) && descends(g, parent, merge_base))
            &&& forall|k: int|
                0 <= k < all.len() && (#[trigger] all[k]).0 != name && descends(g, id, all[k].1)
                    ==> !descends(g, all[k].1, parent)
        }),
    decreases all.len(),
{
    if all.len() > 0 {
        let before = all.drop_last();
        assert forall|k: int| 0 <= k < before.len() && descends(
            g,
            id,
            (#[trigger] before[k]).1,
        ) implies descends(g, before[k].1, merge_base) by {
            assert(before[k] == all[k]);
        }
        law_parent_is_nearest(g, order, before, name, id, merge_base);
        let best = nearest_below(g, before, name, id, merge_base);
        let parent = nearest_below(g, all, name, id, merge_base);
        assert forall|k: int|
            0 <= k < all.len() && (#[trigger] all[k]).0 != name && descends(
                g,
                id,
                all[k].1,
            ) implies !descends(g, all[k].1, parent) by {
            law_descent_is_strict(g, order, id, all[k].1);
            law_descent_is_strict(g, order, all[k].1, parent);
            if k < before.len() {
                assert(before[k] == all[k]);
                if descends(g, all[k].1, parent) && parent != best {
                    if best != merge_base {
                        law_descent_is_transitive(g, all[k].1, parent, best);
                    }
                    assert(descends(g, parent, merge_base));
                    if best == merge_base {
                        law_descent_is_transitive(g, all[k].1, parent, merge_base);
                    }
                }
            } else {
                assert(all[k] == all.last());
                assert(descends(g, all[k].1, merge_base));
            }
        }
    }
}

/// A branch on which another one can be based: one that the other comes from, and that is not merged
/// into the upstream.
pub open spec fn can_be_base(
    g: Parents,
    candidate: BranchView,
    b: BranchView,
    upstream_id: Seq<char>,
) -> bool {
    &&& candidate.0 != b.0
    &&& descends(g, b.1, candidate.1)
    &&& !reaches(g, upstream_id, candidate.1)
}

/// The nearest branch of the list on which the branch can be based.
pub open spec fn nearest_ancestor(
    g: Parents,
    all: Seq<BranchView>,
    b: BranchView,
    upstream_id: Seq<char>,
) -> Option<BranchView>
    decreases all.len(),
{
    if all.len() == 0 {
        None
    } else {
        let best = nearest_ancestor(g, all.drop_last(), b, upstream_id);
        let x = all.last();
        if can_be_base(g, x, b, upstream_id) && (best matches Some(c) ==> descends(g, x.1, c.1)) {
            Some(x)
        } else {
            best
        }
    }
}

/// The name of the nearest branch on which the branch can be based, or the upstream's.
pub open spec fn base_name(
    g: Parents,
    all: Seq<BranchView>,
    b: BranchView,
    upstream_id: Seq<char>,
    upstream_name: Seq<char>,
) -> Seq<char> {
    match nearest_ancestor(g, all, b, upstream_id) {
        Some(c) => c.0,
        None => upstream_name,
    }
}

/// The base of each of the first `n` branches, by name.
pub open spec fn base_map(
    g: Parents,
    all: Seq<BranchView>,
    upstream_id: Seq<char>,
    upstream_name: Seq<char>,
    n: int,
) -> Map<Seq<char>, Seq<char>>
    decreases n,
{
    if n <= 0 {
        Map::empty()
    } else {
        base_map(g, all, upstream_id, upstream_name, n - 1).insert(
            all[n - 1].0,
            base_name(g, all, all[n - 1], upstream_id, upstream_name),
        )
    }
}

/// Names and tips of branches that carry something more.
pub open spec fn first_views(v: Seq<(StackBranch, String)>) -> Seq<BranchView> {
    Seq::new(v.len(), |i: int| v[i].0@)
}

/// For each branch, the nearest branch of the list that it comes from and that is not merged into
/// the upstream, or the upstream itself. `upstream_id` is the upstream's tip.
pub fn compute_base_map(
    graph: &CommitGraph,
    branches: &Vec<(StackBranch, String)>,
    upstream_id: &str,
    upstream_name: &str,
) -> (r: NameMap<String>)
    ensures
        text_map(r@) == base_map(
            graph@,
            first_views(branches@),
            upstream_id@,
            upstream_name@,
            branches@.len() as int,
        ),
{
    let ghost all = first_views(branches@);
    let mut out: NameMap<String> = NameMap::new();
    let mut i: usize = 0;
    proof {
        lemma_text_map_empty();
    }
    while i < branches.len()
        invariant
            i <= branches@.len(),
            all == first_views(branches@),
            text_map(out@) == base_map(graph@, all, upstream_id@, upstream_name@, i as int),
        decreases branches@.len() - i,
    {
        let sb = &branches[i].0;
        let mut best: Option<usize> = None;
        let mut j: usize = 0;
        assert(all.take(0) =~= Seq::<BranchView>::empty());
        while j < branches.len()
            invariant
                j <= branches@.len(),
                all == first_views(branches@),
                match best {
                    None => nearest_ancestor(
                        graph@,
                        all.take(j as int),
                        sb@,
                        upstream_id@,
                    ) is None,
                    Some(b) => b < j && nearest_ancestor(
                        graph@,
                        all.take(j as int),
                        sb@,
                        upstream_id@,
                    ) == Some(all[b as int]),
                },
            decreases branches@.len() - j,
        {
            let candidate = &branches[j].0;
            proof {
                assert(all.take(j + 1).drop_last() =~= all.take(j as int));
                assert(all.take(j + 1).last() == candidate@);
                assert(all[j as int] == candidate@);
            }
            if !same(candidate.name.as_str(), sb.name.as_str()) && graph.descendant_of(
                sb.id.as_str(),
                candidate.id.as_str(),
            ) && !reaches_commit(graph, upstream_id, candidate.id.as_str()) {
                match best {
                    None => {
                        best = Some(j);
                    },
                    Some(b) => {
                        assert(all[b as int] == branches@[b as int].0@);
                        if graph.descendant_of(candidate.id.as_str(), branches[b].0.id.as_str()) {
                            best = Some(j);
                        }
                    },
                }
            }
            j += 1;
        }
        assert(all.take(all.len() as int) =~= all);
        assert(all[i as int] == sb@);
        let base = match best {
            Some(b) => branches[b].0.name.clone(),
            None => upstream_name.to_owned(),
        };
        proof {
            lemma_text_map_insert(out@, sb.name@, base);
        }
        out.insert(sb.name.clone(), base);
        i += 1;
    }
    out
}

proof fn lemma_nearest_ancestor(
    g: Parents,
    all: Seq<BranchView>,
    b: BranchView,
    upstream_id: Seq<char>,
)
    requires
        forall|j: int, k: int|
            0 <= j < all.len() && 0 <= k < all.len() && can_be_base(
                g,
                #[trigger] all[j],
                b,
                upstream_id,
            ) && can_be_base(g, #[trigger] all[k], b, upstream_id) ==> reaches(g, all[j].1, all[k].1)
                || reaches(g, all[k].1, all[j].1),
    ensures
        match nearest_ancestor(g, all, b, upstream_id) {
            None => forall|k: int|
                0 <= k < all.len() ==> !can_be_base(g, #[trigger] all[k], b, upstream_id),
            Some(c) => all.contains(c) && can_be_base(g, c, b, upstream_id) && forall|k: int|
                0 <= k < all.len() && can_be_base(g, #[trigger] all[k], b, upstream_id) ==> reaches(
                    g,
                    c.1,
                    all[k].1,
                ),
        },
    decreases all.len(),
{
    if all.len() > 0 {
        let rest = all.drop_last();
        let x = all.last();
        let n = rest.len() as int;
        assert forall|j: int, k: int|
            0 <= j < rest.len() && 0 <= k < rest.len() && can_be_base(
                g,
                #[trigger] rest[j],
                b,
                upstream_id,
            ) && can_be_base(g, #[trigger] rest[k], b, upstream_id) implies reaches(
            g,
            rest[j].1,
            rest[k].1,
        ) || reaches(g, rest[k].1, rest[j].1) by {
            assert(rest[j] == all[j] && rest[k] == all[k]);
        }
        lemma_nearest_ancestor(g, rest, b, upstream_id);
        let best = nearest_ancestor(g, rest, b, upstream_id);
        let now = nearest_ancestor(g, all, b, upstream_id);
        assert(all[n] == x);
        if best is Some {
            let i = rest.index_of(best->0);
            assert(all[i] == best->0);
            assert(all.contains(best->0));
        }
        if now is None {
            assert forall|k: int| 0 <= k < all.len() implies !can_be_base(
                g,
                #[trigger] all[k],
                b,
                upstream_id,
            ) by {
                if k < n {
                    assert(rest[k] == all[k]);
                }
            }
        } else {
            let c = now->0;
            let old_best = best->0;
            assert forall|k: int|
                0 <= k < all.len() && can_be_base(g, #[trigger] all[k], b, upstream_id) implies reaches(
                g,
                c.1,
                all[k].1,
            ) by {
                if k < n {
                    assert(rest[k] == all[k]);
                    assert(reaches(g, old_best.1, rest[k].1));
                    if c != old_best && old_best.1 != rest[k].1 {
                        law_descent_is_transitive(g, c.1, old_best.1, rest[k].1);
                    }
                } else if c != x {
                    let i = rest.index_of(best->0);
                    assert(can_be_base(g, all[i], b, upstream_id));
                    assert(reaches(g, all[i].1, all[n].1) || reaches(g, all[n].1, all[i].1));
                }
            }
        }
    }
}

/// The base of a branch is the closest unmerged branch of the list that it comes from: no other one
/// lies between the two. Where all of those are merged, or there are none, it is the upstream.
pub proof fn law_base_is_the_closest_unmerged_branch(
    g: Parents,
    order: Seq<Seq<char>>,
    all: Seq<BranchView>,
    b: BranchView,
    upstream_id: Seq<char>,
    upstream_name: Seq<char>,
)
    requires
        parents_first(g, order),
        forall|j: int, k: int|
            0 <= j < all.len() && 0 <= k < all.len() && descends(g, b.1, (#[trigger] all[j]).1)
                && descends(g, b.1, (#[trigger] all[k]).1) ==> reaches(g, all[j].1, all[k].1)
                || reaches(g, all[k].1, all[j].1),
    ensures
        ({
            let base = base_name(g, all, b, upstream_id, upstream_name);
            ||| (base == upstream_name && forall|k: int|
                0 <= k < all.len() ==> !can_be_base(g, #[trigger] all[k], b, upstream_id))
            ||| exists|i: int| {
                &&& 0 <= i < all.len()
                &&& (#[trigger] all[i]).0 == base
                &&& can_be_base(g, all[i], b, upstream_id)
                &&& forall|k: int|
                    0 <= k < all.len() && can_be_base(g, #[trigger] all[k], b, upstream_id)
                        ==> !descends(g, all[k].1, all[i].1)
            }
        }),
{
    lemma_nearest_ancestor(g, all, b, upstream_id);
    match nearest_ancestor(g, all, b, upstream_id) {
        None => {},
        Some(c) => {
            let i = all.index_of(c);
            assert forall|k: int|
                0 <= k < all.len() && can_be_base(g, #[trigger] all[k], b, upstream_id)
                    implies !descends(g, all[k].1, all[i].1) by {
                assert(reaches(g, c.1, all[k].1));
                law_descent_is_strict(g, order, all[k].1, c.1);
                law_descent_is_strict(g, order, c.1, all[k].1);
            }
            assert(all[i].0 == base_name(g, all, b, upstream_id, upstream_name));
        },
    }
}

/// Every branch of the list has a base, and nothing else has: the one that `base_name` gives, where
/// no two branches have one name.
pub proof fn law_every_branch_has_a_base(
    g: Parents,
    all: Seq<BranchView>,
    upstream_id: Seq<char>,
    upstream_name: Seq<char>,
    n: int,
    name: Seq<char>,
)
    requires
        0 <= n <= all.len(),
    ensures
        base_map(g, all, upstream_id, upstream_name, n).contains_key(name) <==> exists|k: int|
            0 <= k < n && (#[trigger] all[k]).0 == name,
        names_of(all).no_duplicates() ==> forall|k: int|
            0 <= k < n ==> base_map(g, all, upstream_id, upstream_name, n)[(#[trigger] all[k]).0]
                == base_name(g, all, all[k], upstream_id, upstream_name),
    decreases n,
{
    if n > 0 {
        law_every_branch_has_a_base(g, all, upstream_id, upstream_name, n - 1, name);
        let before = base_map(g, all, upstream_id, upstream_name, n - 1);
        let after = base_map(g, all, upstream_id, upstream_name, n);
        if before.contains_key(name) {
            let k = choose|k: int| 0 <= k < n - 1 && (#[trigger] all[k]).0 == name;
            assert(0 <= k < n && all[k].0 == name);
        }
        if after.contains_key(name) && !before.contains_key(name) {
            assert(all[n - 1].0 == name);
        }
        if names_of(all).no_duplicates() {
            assert forall|k: int| 0 <= k < n implies after[(#[trigger] all[k]).0] == base_name(
                g,
                all,
                all[k],
                upstream_id,
                upstream_name,
            ) by {
                if k < n - 1 {
                    assert(names_of(all)[k] != names_of(all)[n - 1]);
                }
            }
        }
    }
}

/// The first branch of the list on that commit under another name.
pub open spec fn index_other_on(all: Seq<BranchView>, id: Seq<char>, name: Seq<char>) -> int
    decreases all.len(),
{
    if all.len() == 0 || (all[0].1 == id && all[0].0 != name) {
        0
    } else {
        1 + index_other_on(all.drop_first(), id, name)
    }
}

/// The first branch of the list on that commit under another name.
pub fn find_other_on(all: &Vec<StackBranch>, id: &str, name: &str) -> (r: Option<usize>)
    ensures
        match r {
            Some(i) => i == index_other_on(views(all@), id@, name@) && i < all@.len(),
            None => index_other_on(views(all@), id@, name@) == all@.len(),
        },
{
    let ghost list = views(all@);
    let mut i: usize = 0;
    assert(list.skip(0) =~= list);
    while i < all.len()
        invariant
            i <= all@.len(),
            list == views(all@),
            index_other_on(list, id@, name@) == i + index_other_on(list.skip(i as int), id@, name@),
        decreases all@.len() - i,
    {
        let ghost tail = list.skip(i as int);
        assert(tail[0] == all@[i as int]@);
        if same(all[i].id.as_str(), id) && !same(all[i].name.as_str(), name) {
            return Some(i);
        }
        assert(tail.drop_first() =~= list.skip(i + 1));
        i += 1;
    }
    None
}

/// The parents of the first `n` branches of a part of the stack, by name.
pub open spec fn parent_id_map(
    g: Parents,
    sub: Seq<BranchView>,
    all: Seq<BranchView>,
    merge_base: Seq<char>,
    n: int,
) -> Map<Seq<char>, Seq<char>>
    decreases n,
{
    if n <= 0 {
        Map::empty()
    } else {
        parent_id_map(g, sub, all, merge_base, n - 1).insert(
            sub[n - 1].0,
            parent_in_stack(g, sub[n - 1].0, all, merge_base),
        )
    }
}

/// The name under which a parent is known: another branch of the part on that commit, or the
/// current branch where the parent is its tip.
pub open spec fn parent_name(
    sub: Seq<BranchView>,
    name: Seq<char>,
    parent: Seq<char>,
    head: Seq<char>,
    current: Seq<char>,
) -> Option<Seq<char>> {
    let at = index_other_on(sub, parent, name);
    if at < sub.len() {
        Some(sub[at].0)
    } else if parent == head {
        Some(current)
    } else {
        None
    }
}

pub open spec fn parent_name_map(
    g: Parents,
    sub: Seq<BranchView>,
    all: Seq<BranchView>,
    merge_base: Seq<char>,
    head: Seq<char>,
    current: Seq<char>,
    n: int,
) -> Map<Seq<char>, Seq<char>>
    decreases n,
{
    if n <= 0 {
        Map::empty()
    } else {
        let before = parent_name_map(g, sub, all, merge_base, head, current, n - 1);
        let name = sub[n - 1].0;
        match parent_name(sub, name, parent_in_stack(g, name, all, merge_base), head, current) {
            Some(p) => before.insert(name, p),
            None => before,
        }
    }
}

/// For each branch of a part of the stack, the commit that it stands on and, where that commit is
/// the tip of a branch of the part or of the current branch, the name of that branch.
pub fn build_parent_maps(
    graph: &CommitGraph,
    sub_stack: &Vec<StackBranch>,
    all_branches_in_stack: &Vec<StackBranch>,
    merge_base: &str,
    head_id: &str,
    current_branch_name: &str,
) -> (r: Result<(NameMap<String>, NameMap<String>), StackError>)
    ensures
        ({
            let sub = views(sub_stack@);
            let all = views(all_branches_in_stack@);
            match r {
                Ok((ids, names)) => {
                    &&& forall|k: int|
                        0 <= k < sub.len() ==> index_named(all, (#[trigger] sub[k]).0) < all.len()
                    &&& text_map(ids@) == parent_id_map(
                        graph@,
                        sub,
                        all,
                        merge_base@,
                        sub.len() as int,
                    )
                    &&& text_map(names@) == parent_name_map(
                        graph@,
                        sub,
                        all,
                        merge_base@,
                        head_id@,
                        current_branch_name@,
                        sub.len() as int,
                    )
                },
                Err(StackError::NotInStack(name)) => exists|k: int|
                    0 <= k < sub.len() && (#[trigger] sub[k]).0 == name@ && index_named(all, sub[k].0)
                        == all.len() && forall|j: int|
                        0 <= j < k ==> index_named(all, (#[trigger] sub[j]).0) < all.len(),
                Err(StackError::RootNotInStack(_)) => false,
            }
        }),
{
    let ghost sub = views(sub_stack@);
    let ghost all = views(all_branches_in_stack@);
    let mut ids: NameMap<String> = NameMap::new();
    let mut names: NameMap<String> = NameMap::new();
    let mut i: usize = 0;
    proof {
        lemma_text_map_empty();
    }
    while i < sub_stack.len()
        invariant
            i <= sub_stack@.len(),
            sub == views(sub_stack@),
            all == views(all_branches_in_stack@),
            forall|k: int| 0 <= k < i ==> index_named(all, (#[trigger] sub[k]).0) < all.len(),
            text_map(ids@) == parent_id_map(graph@, sub, all, merge_base@, i as int),
            text_map(names@) == parent_name_map(
                graph@,
                sub,
                all,
                merge_base@,
                head_id@,
                current_branch_name@,
                i as int,
            ),
        decreases sub_stack@.len() - i,
    {
        let sb = &sub_stack[i];
        assert(sub[i as int] == sb@);
        let parent = match find_parent_in_stack(
            graph,
            sb.name.as_str(),
            all_branches_in_stack,
            merge_base,
        ) {
            Ok(p) => p,
            Err(e) => return Err(e),
        };
        proof {
            lemma_text_map_insert(ids@, sb.name@, parent);
        }
        match find_other_on(sub_stack, parent.as_str(), sb.name.as_str()) {
            Some(j) => {
                let name = sub_stack[j].name.clone();
                proof {
                    lemma_text_map_insert(names@, sb.name@, name);
                }
                names.insert(sb.name.clone(), name);
            },
            None => {
                if same(parent.as_str(), head_id) {
                    let name = current_branch_name.to_owned();
                    proof {
                        lemma_text_map_insert(names@, sb.name@, name);
                    }
                    names.insert(sb.name.clone(), name);
                }
            },
        }
        ids.insert(sb.name.clone(), parent);
        i += 1;
    }
    Ok((ids, names))
}

/// A branch and the line that stands for it in a list to choose from.
#[derive(Debug)]
pub struct VisualBranch {
    pub name: String,
    pub display_name: String,
}

/// The line of a branch: the current one is marked.
pub open spec fn display_line(name: Seq<char>, current: Option<Seq<char>>) -> Seq<char> {
    if current == Some(name) {
        "* "@ + name
    } else {
        "  "@ + name
    }
}

/// The line of a branch in a list to choose from.
pub fn display_name(name: &str, current: Option<&str>) -> (r: String)
    ensures
        r@ == display_line(name@, opt_text(current)),
{
    let is_current = match current {
        Some(c) => same(c, name),
        None => false,
    };
    if is_current {
        cat2("* ", name)
    } else {
        cat2("  ", name)
    }
}

/// The branches in topological order, each with its line.
pub fn visualize_stack(
    graph: &CommitGraph,
    all_branches: &Vec<StackBranch>,
    current_branch_name: Option<&str>,
) -> (r: Vec<VisualBranch>)
    ensures
        ({
            let sorted = topological(graph@, views(all_branches@));
            &&& r@.len() == sorted.len()
            &&& forall|i: int|
                0 <= i < r@.len() ==> (#[trigger] r@[i]).name@ == sorted[i].0 && r@[i].display_name@
                    == display_line(sorted[i].0, opt_text(current_branch_name))
        }),
{
    let mut list = copy_branches(all_branches);
    sort_branches_topologically(graph, &mut list);
    let ghost sorted = views(list@);
    let mut out: Vec<VisualBranch> = Vec::new();
    let mut i: usize = 0;
    while i < list.len()
        invariant
            i <= list@.len(),
            sorted == views(list@),
            out@.len() == i,
            forall|k: int|
                0 <= k < i ==> (#[trigger] out@[k]).name@ == sorted[k].0 && out@[k].display_name@
                    == display_line(sorted[k].0, opt_text(current_branch_name)),
        decreases list@.len() - i,
    {
        let name = list[i].name.clone();
        assert(sorted[i as int].0 == name@);
        let display_name = display_name(name.as_str(), current_branch_name);
        out.push(VisualBranch { name, display_name });
        i += 1;
    }
    out
}

/// Some branch of the list from place `i` on, before place `j`, is one that the branch at place `j`
/// comes from.
pub open spec fn has_ground_between(g: Parents, t: Seq<BranchView>, i: int, j: int) -> bool {
    exists|m: int| i <= m < j && descends(g, t[j].1, (#[trigger] t[m]).1)
}

/// Sorted branches come by name: a branch whose name comes first stands behind another one only where
/// it comes from that one, or from one between them.
pub proof fn law_unrelated_branches_come_by_name(
    g: Parents,
    order: Seq<Seq<char>>,
    s: Seq<BranchView>,
)
    requires
        parents_first(g, order),
        forall|i: int, j: int|
            0 <= i < j < s.len() ==> (#[trigger] s[i]).1 != (#[trigger] s[j]).1,
    ensures
        forall|i: int, j: int|
            0 <= i < j < s.len() && text_lt(
                (#[trigger] topological(g, s)[j]).0,
                (#[trigger] topological(g, s)[i]).0,
            ) ==> has_ground_between(g, topological(g, s), i, j),
    decreases s.len(),
{
    broadcast use vstd::seq_lib::group_to_multiset_ensures;

    if s.len() > 0 {
        lemma_pick_exists(g, order, s);
        let i = pick(g, s);
        let rest = s.remove(i);
        let sorted = topological(g, rest);
        let t = topological(g, s);
        assert(t =~= seq![s[i]] + sorted);
        law_topological(g, order, s);
        law_topological(g, order, rest);
        assert forall|a: int, b: int| 0 <= a < b < rest.len() implies (#[trigger] rest[a]).1 != (
        #[trigger] rest[b]).1 by {
            let x = if a < i {
                a
            } else {
                a + 1
            };
            let y = if b < i {
                b
            } else {
                b + 1
            };
            assert(s[x].1 != s[y].1);
        }
        law_unrelated_branches_come_by_name(g, order, rest);
        let k = choose|k: int| #[trigger]
            first_least(g, s, k) && 0 <= i < s.len() && s[i].1 == s[k].1 && (forall|j: int|
                0 <= j < i ==> (#[trigger] s[j]).1 != s[k].1);
        assert(k == i);
        assert(least_ready(g, s, i));
        assert forall|a: int, b: int|
            0 <= a < b < s.len() && text_lt((#[trigger] t[b]).0, (#[trigger] t[a]).0) implies
            has_ground_between(g, t, a, b) by {
            if a == 0 {
                assert(t.contains(t[b]));
                assert(t.to_multiset().contains(t[b]));
                assert(s.to_multiset().contains(t[b]));
                assert(s.contains(t[b]));
                let d = choose|d: int| 0 <= d < s.len() && s[d] == t[b];
                lemma_text_lt_irreflexive(s[d].0);
                if text_lt(s[i].0, s[d].0) {
                    lemma_text_lt_transitive(s[i].0, s[d].0, s[i].0);
                    lemma_text_lt_irreflexive(s[i].0);
                }
                assert(!ready(g, s, d));
                let e = choose|e: int| 0 <= e < s.len() && descends(g, s[d].1, #[trigger] s[e].1);
                assert(s.contains(s[e]));
                assert(s.to_multiset().contains(s[e]));
                assert(t.to_multiset().contains(s[e]));
                assert(t.contains(s[e]));
                let m = choose|m: int| 0 <= m < t.len() && t[m] == s[e];
                if m > b {
                    assert(!descends(g, t[b].1, t[m].1));
                }
                if m == b {
                    lemma_descends_known(g, order, t[b].1, t[b].1);
                }
                assert(descends(g, t[b].1, t[m].1));
            } else {
                assert(t[a] == sorted[a - 1] && t[b] == sorted[b - 1]);
                assert(has_ground_between(g, sorted, a - 1, b - 1));
                let m = choose|m: int|
                    a - 1 <= m < b - 1 && descends(g, sorted[b - 1].1, (#[trigger] sorted[m]).1);
                assert(t[m + 1] == sorted[m]);
                assert(descends(g, t[b].1, t[m + 1].1));
            }
        }
    }
}

} // verus!
