//! The commits that a command looks at, with their parents, and who descends from whom.

use crate::text::{same, strs};
use vstd::prelude::*;

verus! {

/// The parents of each commit, by the commit's object id.
pub type Parents = Map<Seq<char>, Seq<Seq<char>>>;

/// `p` is a parent of `c`.
pub open spec fn is_parent(g: Parents, c: Seq<char>, p: Seq<char>) -> bool {
    g.contains_key(c) && g[c].contains(p)
}

/// Each commit of the chain is followed by one of its parents.
pub open spec fn is_chain(g: Parents, path: Seq<Seq<char>>) -> bool {
    forall|i: int, j: int|
        0 <= i && j == i + 1 && j < path.len() ==> is_parent(g, #[trigger] path[i], #[trigger] path[j])
}

/// There is a chain of parents, at least one step long, from `a` down to `b`. No commit descends
/// from itself.
pub open spec fn descends(g: Parents, a: Seq<char>, b: Seq<char>) -> bool {
    exists|path: Seq<Seq<char>>|
        path.len() >= 2 && path[0] == a && path.last() == b && #[trigger] is_chain(g, path)
}

/// `b` is `a` or one of its ancestors.
pub open spec fn reaches(g: Parents, a: Seq<char>, b: Seq<char>) -> bool {
    a == b || descends(g, a, b)
}

/// The commits in an order in which each stands behind its parents.
pub open spec fn parents_first(g: Parents, order: Seq<Seq<char>>) -> bool {
    &&& order.no_duplicates()
    &&& forall|c: Seq<char>| #[trigger] g.contains_key(c) <==> order.contains(c)
    &&& forall|i: int, k: int|
        0 <= i < order.len() && 0 <= k < g[order[i]].len() ==> order.take(i).contains(
            #[trigger] g[order[i]][k],
        )
}

/// Why a commit cannot be taken into the graph.
#[derive(Debug)]
pub enum GraphError {
    /// A parent is not in the graph.
    Unknown(String),
    /// The commit is in the graph already.
    Twice(String),
}

#[derive(Debug)]
pub struct CommitGraph {
    ids: Vec<String>,
    parents: Vec<Vec<usize>>,
}

spec fn parent_ids(ids: Seq<String>, ps: Seq<usize>) -> Seq<Seq<char>> {
    Seq::new(ps.len(), |k: int| ids[ps[k] as int]@)
}

impl View for CommitGraph {
    type V = Parents;

    closed spec fn view(&self) -> Parents {
        Map::new(
            |c: Seq<char>| strs(self.ids@).contains(c),
            |c: Seq<char>|
                parent_ids(self.ids@, self.parents@[strs(self.ids@).index_of(c)]@),
        )
    }
}

impl CommitGraph {
    #[verifier::type_invariant]
    spec fn inv(self) -> bool {
        &&& self.ids@.len() == self.parents@.len()
        &&& strs(self.ids@).no_duplicates()
        &&& forall|i: int, k: int|
            0 <= i < self.parents@.len() && 0 <= k < self.parents@[i]@.len() ==> (
            #[trigger] self.parents@[i]@[k]) < i
    }

    /// The commits in the order in which they were taken in.
    pub closed spec fn order(self) -> Seq<Seq<char>> {
        strs(self.ids@)
    }

    /// The parents of the commit at place `i`.
    proof fn lemma_at(self, i: int)
        requires
            self.inv(),
            0 <= i < self.ids@.len(),
        ensures
            self@.contains_key(self.ids@[i]@),
            self@[self.ids@[i]@] == parent_ids(self.ids@, self.parents@[i]@),
    {
        let names = strs(self.ids@);
        assert(names[i] == self.ids@[i]@);
        assert(names.contains(names[i]));
        let j = names.index_of(names[i]);
        assert(0 <= j < names.len() && names[j] == names[i]);
    }

    pub fn new() -> (r: Self)
        ensures
            r@ == Parents::empty(),
            r.order() == Seq::<Seq<char>>::empty(),
    {
        let r = CommitGraph { ids: Vec::new(), parents: Vec::new() };
        assert(strs(r.ids@) =~= Seq::<Seq<char>>::empty());
        assert(r@ =~= Parents::empty());
        r
    }

    /// The number of commits.
    pub fn len(&self) -> (r: usize)
        ensures
            r == self.order().len(),
            parents_first(self@, self.order()),
    {
        proof {
            use_type_invariant(self);
            let names = strs(self.ids@);
            let g = self@;
            assert forall|i: int, k: int|
                0 <= i < names.len() && 0 <= k < g[names[i]].len() implies names.take(i).contains(
                #[trigger] g[names[i]][k],
            ) by {
                self.lemma_at(i);
                let j = self.parents@[i]@[k] as int;
                assert(names.take(i)[j] == g[names[i]][k]);
            }
        }
        self.ids.len()
    }

    fn find(&self, id: &str) -> (r: Option<usize>)
        ensures
            match r {
                Some(i) => i < self.ids@.len() && self.ids@[i as int]@ == id@ && self@.contains_key(
                    id@,
                ),
                None => !self@.contains_key(id@),
            },
    {
        let mut i: usize = 0;
        while i < self.ids.len()
            invariant
                i <= self.ids@.len(),
                forall|k: int| 0 <= k < i ==> strs(self.ids@)[k] != id@,
            decreases self.ids@.len() - i,
        {
            if same(self.ids[i].as_str(), id) {
                assert(strs(self.ids@)[i as int] == id@);
                return Some(i);
            }
            i += 1;
        }
        None
    }

    /// Whether the commit is in the graph.
    pub fn contains(&self, id: &str) -> (r: bool)
        ensures
            r == self@.contains_key(id@),
    {
        self.find(id).is_some()
    }

    /// Takes in a commit whose parents are in the graph.
    pub fn insert(&mut self, id: String, parents: &Vec<String>) -> (r: Result<(), GraphError>)
        ensures
            match r {
                Ok(_) => !old(self)@.contains_key(id@) && (forall|k: int|
                    0 <= k < parents@.len() ==> old(self)@.contains_key(#[trigger] parents@[k]@))
                    && final(self)@ == old(self)@.insert(id@, strs(parents@)) && final(self).order()
                    == old(self).order().push(id@),
                Err(GraphError::Twice(c)) => c@ == id@ && old(self)@.contains_key(id@)
                    && *final(self) == *old(self),
                Err(GraphError::Unknown(p)) => !old(self)@.contains_key(id@) && strs(
                    parents@,
                ).contains(p@) && !old(self)@.contains_key(p@) && *final(self) == *old(self),
            },
    {
        if self.find(id.as_str()).is_some() {
            return Err(GraphError::Twice(id));
        }
        let mut places: Vec<usize> = Vec::new();
        let mut k: usize = 0;
        while k < parents.len()
            invariant
                k <= parents@.len(),
                places@.len() == k,
                *self == *old(self),
                !self@.contains_key(id@),
                forall|j: int|
                    0 <= j < k ==> (#[trigger] places@[j]) < self.ids@.len()
                        && self.ids@[places@[j] as int]@ == parents@[j]@ && self@.contains_key(
                        parents@[j]@,
                    ),
            decreases parents@.len() - k,
        {
            match self.find(parents[k].as_str()) {
                Some(i) => {
                    places.push(i);
                },
                None => {
                    assert(strs(parents@)[k as int] == parents@[k as int]@);
                    return Err(GraphError::Unknown(parents[k].clone()));
                },
            }
            k += 1;
        }
        let ghost before = *self;
        let mut taken = CommitGraph::new();
        core::mem::swap(self, &mut taken);
        proof {
            use_type_invariant(&taken);
        }
        let CommitGraph { mut ids, parents: mut rows } = taken;
        let ghost id_text = id@;
        ids.push(id);
        rows.push(places);
        proof {
            let names0 = strs(before.ids@);
            let names = strs(ids@);
            let n = names0.len() as int;
            assert(names =~= names0.push(id_text));
            assert forall|a: int, b: int| 0 <= a < b < names.len() implies names[a] != names[b] by {
                if b == n {
                    assert(names0.contains(names0[a]));
                }
            }
            let after = CommitGraph { ids, parents: rows };
            assert(after.inv());
            assert forall|c: Seq<char>| #[trigger]
                after@.contains_key(c) == (c == id_text || before@.contains_key(c)) by {
                if names0.contains(c) {
                    let i = names0.index_of(c);
                    assert(names[i] == c);
                }
                assert(names[n] == id_text);
                if names.contains(c) {
                    let i = names.index_of(c);
                    if i < n {
                        assert(names0[i] == c);
                    }
                }
            }
            assert forall|c: Seq<char>| after@.contains_key(c) implies #[trigger] after@[c]
                == before@.insert(id_text, strs(parents@))[c] by {
                let i = names.index_of(c);
                assert(names[i] == c);
                after.lemma_at(i);
                if i < n {
                    before.lemma_at(i);
                    assert(names0[i] == c);
                    assert(names0.contains(c));
                    assert(parent_ids(ids@, rows@[i]@) =~= parent_ids(
                        before.ids@,
                        before.parents@[i]@,
                    ));
                } else {
                    assert(parent_ids(ids@, places@) =~= strs(parents@));
                }
            }
            assert(after@ =~= before@.insert(id_text, strs(parents@)));
            assert forall|k: int| 0 <= k < parents@.len() implies before@.contains_key(
                #[trigger] parents@[k]@,
            ) by {
                assert(places@[k] < before.ids@.len());
            }
        }
        *self = CommitGraph { ids, parents: rows };
        Ok(())
    }

    /// The parents of a commit.
    pub fn parents(&self, id: &str) -> (r: Option<Vec<String>>)
        ensures
            match r {
                Some(ps) => self@.contains_key(id@) && strs(ps@) == self@[id@],
                None => !self@.contains_key(id@),
            },
    {
        match self.find(id) {
            None => None,
            Some(i) => {
                proof {
                    use_type_invariant(self);
                    self.lemma_at(i as int);
                }
                let mut out: Vec<String> = Vec::new();
                let mut k: usize = 0;
                while k < self.parents[i].len()
                    invariant
                        i < self.ids@.len(),
                        self.inv(),
                        k <= self.parents@[i as int]@.len(),
                        strs(out@) == parent_ids(self.ids@, self.parents@[i as int]@).take(k as int),
                    decreases self.parents@[i as int]@.len() - k,
                {
                    let ghost before = out@;
                    let p: usize = self.parents[i][k];
                    out.push(self.ids[p].clone());
                    assert(strs(out@) == strs(before).push(self.ids@[p as int]@));
                    k += 1;
                }
                assert(strs(out@) =~= self@[id@]);
                Some(out)
            },
        }
    }

    /// Whether `a` descends from `b`. A commit that is not in the graph descends from none.
    pub fn descendant_of(&self, a: &str, b: &str) -> (r: bool)
        ensures
            r == descends(self@, a@, b@),
    {
        let n = self.len();
        let ai = match self.find(a) {
            Some(i) => i,
            None => {
                proof {
                    lemma_descends_known(self@, self.order(), a@, b@);
                }
                return false;
            },
        };
        let bi = match self.find(b) {
            Some(i) => i,
            None => {
                proof {
                    lemma_descends_known(self@, self.order(), a@, b@);
                }
                return false;
            },
        };
        proof {
            use_type_invariant(self);
        }
        let mut marks: Vec<bool> = Vec::new();
        let mut i: usize = 0;
        while i <= ai
            invariant
                self.inv(),
                i <= ai + 1,
                ai < n == self.ids@.len(),
                marks@.len() == i,
                forall|j: int| 0 <= j < i ==> #[trigger] marks@[j] == self.down(j, bi as int),
            decreases ai + 1 - i,
        {
            let mut hit = false;
            let mut k: usize = 0;
            while k < self.parents[i].len()
                invariant
                    self.inv(),
                    i <= ai < self.ids@.len(),
                    marks@.len() == i,
                    k <= self.parents@[i as int]@.len(),
                    forall|j: int| 0 <= j < i ==> #[trigger] marks@[j] == self.down(j, bi as int),
                    hit == exists|j: int|
                        0 <= j < k && self.down_by(i as int, bi as int, #[trigger] self.parents@[i as int]@[j] as int),
                decreases self.parents@[i as int]@.len() - k,
            {
                let p: usize = self.parents[i][k];
                assert(self.parents@[i as int]@[k as int] == p);
                let step = p == bi || marks[p];
                assert(step == self.down_by(i as int, bi as int, p as int));
                hit = hit || step;
                k += 1;
            }
            marks.push(hit);
            i += 1;
        }
        proof {
            if marks@[ai as int] {
                self.lemma_down_is_chain(ai as int, bi as int);
            } else if descends(self@, a@, b@) {
                let path = choose|path: Seq<Seq<char>>|
                    path.len() >= 2 && path[0] == a@ && path.last() == b@ && #[trigger] is_chain(
                        self@,
                        path,
                    );
                self.lemma_chain_is_down(path, ai as int, bi as int);
            }
        }
        marks[ai]
    }

    /// The commit at place `a` descends from the one at place `b`.
    spec fn down(self, a: int, b: int) -> bool
        decreases a, 1int,
    {
        exists|k: int|
            0 <= k < self.parents@[a]@.len() && self.down_by(a, b, #[trigger] self.parents@[a]@[k] as int)
    }

    spec fn down_by(self, a: int, b: int, p: int) -> bool
        decreases a, 0int,
    {
        0 <= p < a && (p == b || self.down(p, b))
    }

    proof fn lemma_down_is_chain(self, a: int, b: int)
        requires
            self.inv(),
            0 <= a < self.ids@.len(),
            0 <= b < self.ids@.len(),
            self.down(a, b),
        ensures
            descends(self@, self.ids@[a]@, self.ids@[b]@),
        decreases a,
    {
        let k = choose|k: int|
            0 <= k < self.parents@[a]@.len() && self.down_by(a, b, #[trigger] self.parents@[a]@[k] as int);
        let p = self.parents@[a]@[k] as int;
        let top = self.ids@[a]@;
        let mid = self.ids@[p]@;
        self.lemma_at(a);
        assert(self@[top][k] == mid);
        assert(is_parent(self@, top, mid));
        if p == b {
            let path = seq![top, mid];
            assert(is_chain(self@, path));
            assert(path[0] == top && path.last() == mid);
        } else {
            self.lemma_down_is_chain(p, b);
            let rest = choose|path: Seq<Seq<char>>|
                path.len() >= 2 && path[0] == mid && path.last() == self.ids@[b]@
                    && #[trigger] is_chain(self@, path);
            let path = seq![top] + rest;
            assert forall|i: int, j: int| 0 <= i && j == i + 1 && j < path.len() implies is_parent(
                self@,
                #[trigger] path[i],
                #[trigger] path[j],
            ) by {
                if i > 0 {
                    assert(path[i] == rest[i - 1] && path[j] == rest[j - 1]);
                } else {
                    assert(path[j] == rest[0]);
                }
            }
            assert(path[0] == top && path.last() == self.ids@[b]@);
            assert(is_chain(self@, path));
        }
    }

    proof fn lemma_chain_is_down(self, path: Seq<Seq<char>>, a: int, b: int)
        requires
            self.inv(),
            0 <= a < self.ids@.len(),
            0 <= b < self.ids@.len(),
            path.len() >= 2,
            path[0] == self.ids@[a]@,
            path.last() == self.ids@[b]@,
            is_chain(self@, path),
        ensures
            self.down(a, b),
        decreases path.len(),
    {
        self.lemma_at(a);
        let mid = path[1];
        assert(is_parent(self@, path[0], path[1]));
        let k = choose|k: int| 0 <= k < self@[path[0]].len() && self@[path[0]][k] == mid;
        let p = self.parents@[a]@[k] as int;
        assert(self.ids@[p]@ == mid);
        if path.len() == 2 {
            assert(strs(self.ids@)[p] == strs(self.ids@)[b]);
            assert(p == b);
        } else {
            let rest = path.skip(1);
            assert forall|i: int, j: int| 0 <= i && j == i + 1 && j < rest.len() implies is_parent(
                self@,
                #[trigger] rest[i],
                #[trigger] rest[j],
            ) by {
                assert(rest[i] == path[i + 1] && rest[j] == path[j + 1]);
            }
            assert(rest.last() == path.last());
            self.lemma_chain_is_down(rest, p, b);
        }
        assert(self.down_by(a, b, self.parents@[a]@[k] as int));
    }
}

/// Whether `b` is `a` or one of its ancestors.
pub fn reaches_commit(g: &CommitGraph, a: &str, b: &str) -> (r: bool)
    ensures
        r == reaches(g@, a@, b@),
{
    same(a, b) || g.descendant_of(a, b)
}

/// Who descends from a descendant of a commit descends from that commit.
pub proof fn law_descent_is_transitive(g: Parents, a: Seq<char>, b: Seq<char>, c: Seq<char>)
    requires
        descends(g, a, b),
        descends(g, b, c),
    ensures
        descends(g, a, c),
{
    let p = choose|path: Seq<Seq<char>>|
        path.len() >= 2 && path[0] == a && path.last() == b && #[trigger] is_chain(g, path);
    let q = choose|path: Seq<Seq<char>>|
        path.len() >= 2 && path[0] == b && path.last() == c && #[trigger] is_chain(g, path);
    let path = p.drop_last() + q;
    let n = p.len() - 1;
    assert forall|i: int, j: int| 0 <= i && j == i + 1 && j < path.len() implies is_parent(
        g,
        #[trigger] path[i],
        #[trigger] path[j],
    ) by {
        if j < n {
            assert(path[i] == p[i] && path[j] == p[j]);
        } else if j == n {
            assert(path[i] == p[i] && path[j] == q[0] && p[j] == b);
        } else {
            assert(path[i] == q[i - n] && path[j] == q[j - n]);
        }
    }
    assert(path[0] == a && path.last() == c);
    assert(is_chain(g, path));
}

/// Down a chain the places in an order with parents first become smaller.
proof fn lemma_chain_goes_down(g: Parents, order: Seq<Seq<char>>, path: Seq<Seq<char>>)
    requires
        parents_first(g, order),
        path.len() >= 2,
        is_chain(g, path),
    ensures
        order.contains(path[0]),
        order.contains(path.last()),
        order.index_of(path.last()) < order.index_of(path[0]),
    decreases path.len(),
{
    assert(is_parent(g, path[0], path[1]));
    let i = order.index_of(path[0]);
    assert(g.contains_key(path[0]));
    assert(order[i] == path[0]);
    let k = choose|k: int| 0 <= k < g[path[0]].len() && g[path[0]][k] == path[1];
    assert(order.take(i).contains(g[order[i]][k]));
    let j = choose|j: int| 0 <= j < i && #[trigger] order.take(i)[j] == g[order[i]][k];
    assert(order[j] == path[1]);
    assert(order.index_of(path[1]) == j);
    if path.len() == 2 {
        assert(path.last() == path[1]);
    } else {
        let rest = path.skip(1);
        assert forall|a: int, b: int| 0 <= a && b == a + 1 && b < rest.len() implies is_parent(
            g,
            #[trigger] rest[a],
            #[trigger] rest[b],
        ) by {
            assert(rest[a] == path[a + 1] && rest[b] == path[b + 1]);
        }
        assert(rest.last() == path.last());
        lemma_chain_goes_down(g, order, rest);
    }
}

/// Only commits of the graph descend from others or have descendants.
pub proof fn lemma_descends_known(g: Parents, order: Seq<Seq<char>>, a: Seq<char>, b: Seq<char>)
    requires
        parents_first(g, order),
    ensures
        descends(g, a, b) ==> g.contains_key(a) && g.contains_key(b) && order.index_of(b)
            < order.index_of(a),
{
    if descends(g, a, b) {
        let path = choose|path: Seq<Seq<char>>|
            path.len() >= 2 && path[0] == a && path.last() == b && #[trigger] is_chain(g, path);
        lemma_chain_goes_down(g, order, path);
    }
}

/// No commit descends from itself, and of two commits at most one descends from the other.
pub proof fn law_descent_is_strict(g: Parents, order: Seq<Seq<char>>, a: Seq<char>, b: Seq<char>)
    requires
        parents_first(g, order),
    ensures
        !descends(g, a, a),
        !(descends(g, a, b) && descends(g, b, a)),
{
    if descends(g, a, a) {
        let path = choose|path: Seq<Seq<char>>|
            path.len() >= 2 && path[0] == a && path.last() == a && #[trigger] is_chain(g, path);
        lemma_chain_goes_down(g, order, path);
    }
    if descends(g, a, b) && descends(g, b, a) {
        law_descent_is_transitive(g, a, b, a);
    }
}

/// What a commit descends from are its parents, all of them, and what those descend from; nothing else.
pub proof fn law_descent_goes_through_the_parents(g: Parents, a: Seq<char>, b: Seq<char>)
    ensures
        descends(g, a, b) <==> exists|p: Seq<char>| #[trigger] is_parent(g, a, p) && reaches(g, p, b),
        forall|p: Seq<char>|
            g.contains_key(a) && g[a].contains(p) <==> #[trigger] is_parent(g, a, p),
        reaches(g, a, b) <==> a == b || descends(g, a, b),
{
    if descends(g, a, b) {
        let path = choose|path: Seq<Seq<char>>|
            path.len() >= 2 && path[0] == a && path.last() == b && #[trigger] is_chain(g, path);
        let p = path[1];
        assert(is_parent(g, path[0], path[1]));
        if path.len() > 2 {
            let rest = path.skip(1);
            assert forall|i: int, j: int| 0 <= i && j == i + 1 && j < rest.len() implies is_parent(
                g,
                #[trigger] rest[i],
                #[trigger] rest[j],
            ) by {
                assert(is_parent(g, path[i + 1], path[j + 1]));
            }
            assert(is_chain(g, rest));
            assert(rest[0] == p && rest.last() == b);
            assert(descends(g, p, b));
        }
        assert(is_parent(g, a, p) && reaches(g, p, b));
    }
    if exists|p: Seq<char>| #[trigger] is_parent(g, a, p) && reaches(g, p, b) {
        let p = choose|p: Seq<char>| #[trigger] is_parent(g, a, p) && reaches(g, p, b);
        let step = seq![a, p];
        assert forall|i: int, j: int| 0 <= i && j == i + 1 && j < step.len() implies is_parent(
            g,
            #[trigger] step[i],
            #[trigger] step[j],
        ) by {
            assert(i == 0 && j == 1);
        }
        assert(is_chain(g, step));
        assert(step[0] == a && step.last() == p);
        assert(descends(g, a, p));
        if p != b {
            law_descent_is_transitive(g, a, p, b);
        }
    }
}

} // verus!
