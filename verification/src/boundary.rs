//! Where the part of a stack that the upstream has not taken yet begins.

use crate::graph::{parents_first, reaches, reaches_commit, CommitGraph, Parents};
use crate::oid::{full_oid, is_oid_text, parse_oid};
use crate::text::{cat5, has_text, lines_of, opt_string, same, split_lines, strs, words, words_of};
use vstd::prelude::*;

verus! {

/// A local branch as the sync sees it: its name, its tip, the reference behind it and the reference
/// that it tracks.
#[derive(Debug)]
pub struct LocalRef {
    pub name: String,
    pub id: String,
    pub ref_name: String,
    pub upstream_ref: Option<String>,
}

/// What `find_sync_boundary` finds.
#[derive(Debug)]
pub struct SyncBoundary {
    /// The commit on which the unmerged part stands; none where everything is merged.
    pub old_base: Option<String>,
    /// The branches of the stack whose tip the upstream has.
    pub merged_branches: Vec<String>,
}

/// The first-parent line from the tip does not come by the merge base.
#[derive(Debug)]
pub struct BrokenHistory {
    pub tip: String,
    pub base: String,
}

impl BrokenHistory {
    pub fn message(&self) -> (r: String)
        ensures
            r@ == "Failed to walk first-parent history from "@ + self.tip@ + " to merge-base "@
                + self.base@ + "."@,
    {
        cat5(
            "Failed to walk first-parent history from ",
            self.tip.as_str(),
            " to merge-base ",
            self.base.as_str(),
            ".",
        )
    }
}

/// The commits above `base` on the first-parent line up to `tip`, the lowest first; `None` where
/// the line does not come by `base` within `steps` commits.
pub open spec fn first_parent_chain(
    g: Parents,
    base: Seq<char>,
    tip: Seq<char>,
    steps: nat,
) -> Option<Seq<Seq<char>>>
    decreases steps,
{
    if tip == base {
        Some(Seq::empty())
    } else if steps == 0 || !g.contains_key(tip) || g[tip].len() == 0 {
        None
    } else {
        match first_parent_chain(g, base, g[tip][0], (steps - 1) as nat) {
            Some(below) => Some(below.push(tip)),
            None => None,
        }
    }
}

spec fn reversed(v: Seq<String>) -> Seq<Seq<char>> {
    strs(v).reverse()
}

/// The first-parent line from just above a commit up to a tip, the lowest first.
pub fn collect_first_parent_chain(graph: &CommitGraph, ancestor_exclusive: &str, tip: &str) -> (r:
    Result<Vec<String>, BrokenHistory>)
    ensures
        match r {
            Ok(chain) => first_parent_chain(
                graph@,
                ancestor_exclusive@,
                tip@,
                graph.order().len(),
            ) == Some(strs(chain@)),
            Err(e) => first_parent_chain(graph@, ancestor_exclusive@, tip@, graph.order().len()) is None
                && e.tip@ == tip@ && e.base@ == ancestor_exclusive@,
        },
{
    let n: usize = graph.len();
    let ghost g = graph@;
    let ghost order = graph.order();
    let mut down: Vec<String> = Vec::new();
    let mut current = tip.to_owned();
    let ghost mut left: nat = order.len();
    proof {
        assert(reversed(down@) =~= Seq::<Seq<char>>::empty());
        let whole = first_parent_chain(g, ancestor_exclusive@, tip@, order.len());
        if whole is Some {
            assert(whole->0 + Seq::<Seq<char>>::empty() =~= whole->0);
        }
    }
    while !same(current.as_str(), ancestor_exclusive)
        invariant
            g == graph@,
            order == graph.order(),
            parents_first(g, order),
            g.contains_key(current@) ==> order.index_of(current@) < left,
            ({
                let whole = first_parent_chain(g, ancestor_exclusive@, tip@, order.len());
                match first_parent_chain(g, ancestor_exclusive@, current@, left) {
                    Some(below) => whole == Some(below + reversed(down@)),
                    None => whole is None,
                }
            }),
        decreases left,
    {
        let parents = match graph.parents(current.as_str()) {
            Some(ps) => ps,
            None => {
                return Err(
                    BrokenHistory { tip: tip.to_owned(), base: ancestor_exclusive.to_owned() },
                );
            },
        };
        if parents.len() == 0 {
            assert(strs(parents@).len() == 0);
            return Err(BrokenHistory { tip: tip.to_owned(), base: ancestor_exclusive.to_owned() });
        }
        let ghost here = current@;
        let ghost before = down@;
        assert(strs(parents@)[0] == parents@[0]@);
        down.push(current);
        current = parents[0].clone();
        proof {
            let i = order.index_of(here);
            assert(order[i] == here);
            assert(order.take(i).contains(g[order[i]][0]));
            let j = choose|j: int| 0 <= j < i && #[trigger] order.take(i)[j] == g[order[i]][0];
            assert(order[j] == current@);
            assert(order.index_of(current@) == j);
            let rest = first_parent_chain(g, ancestor_exclusive@, current@, (left - 1) as nat);
            assert(reversed(down@) =~= seq![here] + reversed(before));
            if rest is Some {
                assert(rest->0.push(here) + reversed(before) =~= rest->0 + reversed(down@));
            }
            left = (left - 1) as nat;
        }
    }
    let mut chain: Vec<String> = Vec::new();
    let mut i: usize = down.len();
    while i > 0
        invariant
            i <= down@.len(),
            strs(chain@) == reversed(down@).take(down@.len() - i),
        decreases i,
    {
        i -= 1;
        let ghost before = chain@;
        chain.push(down[i].clone());
        assert(strs(chain@) =~= strs(before).push(down@[i as int]@));
        assert(reversed(down@).take(down@.len() - i) =~= reversed(down@).take(
            down@.len() - i - 1,
        ).push(down@[i as int]@));
    }
    assert(strs(chain@) =~= reversed(down@));
    assert(Seq::<Seq<char>>::empty() + reversed(down@) =~= reversed(down@));
    Ok(chain)
}

/// The upstream has the commit, or a commit with the same patch.
pub open spec fn is_merged(
    g: Parents,
    upstream: Seq<char>,
    equivalent: Seq<Seq<char>>,
    id: Seq<char>,
) -> bool {
    reaches(g, upstream, id) || equivalent.contains(id)
}

fn merged(graph: &CommitGraph, upstream: &str, equivalent: &Vec<String>, id: &str) -> (r: bool)
    ensures
        r == is_merged(graph@, upstream@, strs(equivalent@), id@),
{
    reaches_commit(graph, upstream, id) || has_text(equivalent, id)
}

/// The branch stands for the upstream: it has its name, it is the same reference, or it tracks it.
pub open spec fn stands_for_upstream(
    b: LocalRef,
    upstream_name: Seq<char>,
    upstream_ref: Option<Seq<char>>,
) -> bool {
    ||| b.name@ == upstream_name
    ||| upstream_ref == Some(b.ref_name@)
    ||| b.upstream_ref is Some && upstream_ref == Some(b.upstream_ref->0@)
}

/// The branch lies between the merge base and the top, and is merged.
pub open spec fn is_merged_branch(
    g: Parents,
    b: LocalRef,
    top: Seq<char>,
    upstream: Seq<char>,
    merge_base: Seq<char>,
    upstream_name: Seq<char>,
    upstream_ref: Option<Seq<char>>,
    equivalent: Seq<Seq<char>>,
) -> bool {
    &&& !stands_for_upstream(b, upstream_name, upstream_ref)
    &&& reaches(g, top, b.id@)
    &&& reaches(g, b.id@, merge_base)
    &&& is_merged(g, upstream, equivalent, b.id@)
}

pub open spec fn merged_names(
    g: Parents,
    locals: Seq<LocalRef>,
    top: Seq<char>,
    upstream: Seq<char>,
    merge_base: Seq<char>,
    upstream_name: Seq<char>,
    upstream_ref: Option<Seq<char>>,
    equivalent: Seq<Seq<char>>,
) -> Seq<Seq<char>>
    decreases locals.len(),
{
    if locals.len() == 0 {
        Seq::empty()
    } else {
        let before = merged_names(
            g,
            locals.drop_last(),
            top,
            upstream,
            merge_base,
            upstream_name,
            upstream_ref,
            equivalent,
        );
        if is_merged_branch(
            g,
            locals.last(),
            top,
            upstream,
            merge_base,
            upstream_name,
            upstream_ref,
            equivalent,
        ) {
            before.push(locals.last().name@)
        } else {
            before
        }
    }
}

/// From place `k` of the chain on nothing is merged, and what stands before it, if anything, is.
pub open spec fn unmerged_from(
    g: Parents,
    chain: Seq<Seq<char>>,
    upstream: Seq<char>,
    equivalent: Seq<Seq<char>>,
    k: int,
) -> bool {
    &&& 0 <= k <= chain.len()
    &&& k > 0 ==> is_merged(g, upstream, equivalent, chain[k - 1])
    &&& forall|i: int| k <= i < chain.len() ==> !is_merged(g, upstream, equivalent, #[trigger] chain[i])
}

/// The commit below the first unmerged one.
pub open spec fn old_base_at(chain: Seq<Seq<char>>, merge_base: Seq<char>, k: int) -> Option<Seq<char>> {
    if k >= chain.len() {
        None
    } else if k == 0 {
        Some(merge_base)
    } else {
        Some(chain[k - 1])
    }
}

/// Finds the commit on which the unmerged part of the line up to `top_id` stands, and the branches
/// of the stack that are merged. `equivalent` holds the commits whose patches the upstream has.
pub fn find_sync_boundary(
    graph: &CommitGraph,
    locals: &Vec<LocalRef>,
    top_id: &str,
    upstream_id: &str,
    merge_base: &str,
    upstream_name: &str,
    upstream_ref: &Option<String>,
    equivalent: &Vec<String>,
) -> (r: Result<SyncBoundary, BrokenHistory>)
    ensures
        ({
            let chain = first_parent_chain(graph@, merge_base@, top_id@, graph.order().len());
            match r {
                Ok(found) => {
                    &&& chain is Some
                    &&& exists|k: int| #[trigger]
                        unmerged_from(graph@, chain->0, upstream_id@, strs(equivalent@), k)
                            && opt_string(found.old_base) == old_base_at(chain->0, merge_base@, k)
                    &&& strs(found.merged_branches@) == merged_names(
                        graph@,
                        locals@,
                        top_id@,
                        upstream_id@,
                        merge_base@,
                        upstream_name@,
                        opt_string(*upstream_ref),
                        strs(equivalent@),
                    )
                },
                Err(e) => chain is None && e.tip@ == top_id@ && e.base@ == merge_base@,
            }
        }),
{
    let chain = match collect_first_parent_chain(graph, merge_base, top_id) {
        Ok(c) => c,
        Err(e) => return Err(e),
    };
    let ghost line = strs(chain@);
    let ghost same_patch = strs(equivalent@);
    let mut k: usize = 0;
    let mut i: usize = 0;
    while i < chain.len()
        invariant
            k <= i <= chain@.len(),
            line == strs(chain@),
            same_patch == strs(equivalent@),
            k > 0 ==> is_merged(graph@, upstream_id@, same_patch, line[k - 1]),
            forall|j: int|
                k <= j < i ==> !is_merged(graph@, upstream_id@, same_patch, #[trigger] line[j]),
        decreases chain@.len() - i,
    {
        assert(line[i as int] == chain@[i as int]@);
        if merged(graph, upstream_id, equivalent, chain[i].as_str()) {
            k = i + 1;
        }
        i += 1;
    }
    let mut names: Vec<String> = Vec::new();
    let mut j: usize = 0;
    assert(locals@.take(0) =~= Seq::<LocalRef>::empty());
    while j < locals.len()
        invariant
            j <= locals@.len(),
            same_patch == strs(equivalent@),
            strs(names@) == merged_names(
                graph@,
                locals@.take(j as int),
                top_id@,
                upstream_id@,
                merge_base@,
                upstream_name@,
                opt_string(*upstream_ref),
                same_patch,
            ),
        decreases locals@.len() - j,
    {
        let b = &locals[j];
        let id = b.id.as_str();
        let is_upstream = match upstream_ref {
            Some(r) => same(b.ref_name.as_str(), r.as_str()) || match &b.upstream_ref {
                Some(u) => same(u.as_str(), r.as_str()),
                None => false,
            },
            None => false,
        };
        proof {
            assert(locals@.take(j + 1).drop_last() =~= locals@.take(j as int));
            assert(locals@.take(j + 1).last() == *b);
        }
        let ghost before = names@;
        if !same(b.name.as_str(), upstream_name) && !is_upstream && reaches_commit(
            graph,
            top_id,
            id,
        ) && reaches_commit(graph, id, merge_base) && merged(graph, upstream_id, equivalent, id) {
            names.push(b.name.clone());
            assert(strs(names@) =~= strs(before).push(b.name@));
        }
        j += 1;
    }
    assert(locals@.take(locals@.len() as int) =~= locals@);
    let old_base = if k >= chain.len() {
        None
    } else if k == 0 {
        Some(merge_base.to_owned())
    } else {
        Some(chain[k - 1].clone())
    };
    proof {
        let whole = first_parent_chain(graph@, merge_base@, top_id@, graph.order().len());
        assert(whole->0 == line);
        assert(unmerged_from(graph@, whole->0, upstream_id@, same_patch, k as int));
    }
    let found = SyncBoundary { old_base, merged_branches: names };
    Ok(found)
}

/// There is one place from which on nothing of the chain is merged, so the boundary is one commit.
pub proof fn law_boundary_is_unique(
    g: Parents,
    chain: Seq<Seq<char>>,
    upstream: Seq<char>,
    equivalent: Seq<Seq<char>>,
    k: int,
    m: int,
)
    requires
        unmerged_from(g, chain, upstream, equivalent, k),
        unmerged_from(g, chain, upstream, equivalent, m),
    ensures
        k == m,
{
    if k < m {
        assert(!is_merged(g, upstream, equivalent, chain[m - 1]));
    }
    if m < k {
        assert(!is_merged(g, upstream, equivalent, chain[k - 1]));
    }
}

/// Every commit of a branch above `base` is in the upstream, itself or as a patch.
pub open spec fn is_landed(
    g: Parents,
    steps: nat,
    upstream: Seq<char>,
    base: Seq<char>,
    tip: Seq<char>,
    equivalent: Seq<Seq<char>>,
) -> bool {
    ||| reaches(g, upstream, tip)
    ||| match first_parent_chain(g, base, tip, steps) {
        Some(chain) => chain.len() > 0 && forall|i: int|
            0 <= i < chain.len() ==> is_merged(g, upstream, equivalent, #[trigger] chain[i]),
        None => false,
    }
}

/// Whether every commit of a branch is in the upstream, itself or as a patch. `merge_base` is where
/// the two part, and `equivalent` holds the commits whose patches the upstream has.
pub fn branch_is_merged(
    graph: &CommitGraph,
    upstream_id: &str,
    merge_base: &str,
    tip: &str,
    equivalent: &Vec<String>,
) -> (r: bool)
    ensures
        r == is_landed(
            graph@,
            graph.order().len(),
            upstream_id@,
            merge_base@,
            tip@,
            strs(equivalent@),
        ),
{
    if reaches_commit(graph, upstream_id, tip) {
        return true;
    }
    let chain = match collect_first_parent_chain(graph, merge_base, tip) {
        Ok(c) => c,
        Err(_) => return false,
    };
    let ghost line = strs(chain@);
    let mut i: usize = 0;
    while i < chain.len()
        invariant
            i <= chain@.len(),
            line == strs(chain@),
            !reaches(graph@, upstream_id@, tip@),
            first_parent_chain(graph@, merge_base@, tip@, graph.order().len()) == Some(line),
            forall|k: int|
                0 <= k < i ==> is_merged(
                    graph@,
                    upstream_id@,
                    strs(equivalent@),
                    #[trigger] line[k],
                ),
        decreases chain@.len() - i,
    {
        assert(line[i as int] == chain@[i as int]@);
        if !merged(graph, upstream_id, equivalent, chain[i].as_str()) {
            return false;
        }
        i += 1;
    }
    chain.len() > 0
}

/// The commit that a line of `git cherry` names as having its patch in the upstream.
pub open spec fn cherry_line_id(line: Seq<char>) -> Option<Seq<char>> {
    let parts = words_of(line);
    if parts.len() >= 2 && parts[0] == "-"@ && is_oid_text(parts[1]) {
        Some(full_oid(parts[1]))
    } else {
        None
    }
}

/// The commits that the lines name, each once.
pub open spec fn cherry_ids(lines: Seq<Seq<char>>) -> Seq<Seq<char>>
    decreases lines.len(),
{
    if lines.len() == 0 {
        Seq::empty()
    } else {
        let before = cherry_ids(lines.drop_last());
        match cherry_line_id(lines.last()) {
            Some(id) => if before.contains(id) {
                before
            } else {
                before.push(id)
            },
            None => before,
        }
    }
}

/// Reads what `git cherry` prints: the commits marked with `-`.
pub fn cherry_equivalent_commits(stdout: &str) -> (r: Vec<String>)
    ensures
        strs(r@) == cherry_ids(lines_of(stdout@)),
{
    let lines = split_lines(stdout);
    let ghost all = strs(lines@);
    let mut out: Vec<String> = Vec::new();
    let mut i: usize = 0;
    assert(all.take(0) =~= Seq::<Seq<char>>::empty());
    assert(strs(out@) =~= Seq::<Seq<char>>::empty());
    while i < lines.len()
        invariant
            i <= lines@.len(),
            all == strs(lines@),
            strs(out@) == cherry_ids(all.take(i as int)),
        decreases lines@.len() - i,
    {
        let parts = words(lines[i].as_str());
        proof {
            assert(all.take(i + 1).drop_last() =~= all.take(i as int));
            assert(all.take(i + 1).last() == lines@[i as int]@);
            assert(strs(parts@).len() == parts@.len());
        }
        if parts.len() >= 2 && same(parts[0].as_str(), "-") {
            assert(strs(parts@)[0] == parts@[0]@ && strs(parts@)[1] == parts@[1]@);
            if let Some(id) = parse_oid(parts[1].as_str()) {
                let ghost before = out@;
                if !has_text(&out, id.as_str()) {
                    out.push(id);
                    assert(strs(out@) =~= strs(before).push(id@));
                }
            }
        } else if parts.len() >= 2 {
            assert(strs(parts@)[0] == parts@[0]@);
        }
        i += 1;
    }
    assert(all.take(all.len() as int) =~= all);
    out
}

} // verus!
