//! A map from names to values that keeps its names in order.

use crate::text::{
    lemma_text_lt_irreflexive, lemma_text_lt_total, lemma_text_lt_transitive, less, same, strs,
    text_lt,
};
use vstd::prelude::*;

verus! {

/// Each text comes before every later one.
pub open spec fn in_order(s: Seq<Seq<char>>) -> bool {
    forall|i: int, j: int| 0 <= i < j < s.len() ==> text_lt(#[trigger] s[i], #[trigger] s[j])
}

/// The map that gives `values[i]` for `keys[i]`.
pub open spec fn pairs_to_map<V>(keys: Seq<Seq<char>>, values: Seq<V>) -> Map<Seq<char>, V> {
    Map::new(|k: Seq<char>| keys.contains(k), |k: Seq<char>| values[keys.index_of(k)])
}

/// Names in order hold no name twice.
pub proof fn lemma_in_order_distinct(s: Seq<Seq<char>>)
    requires
        in_order(s),
    ensures
        s.no_duplicates(),
        forall|i: int| 0 <= i < s.len() ==> s.index_of(#[trigger] s[i]) == i,
{
    assert forall|i: int, j: int| 0 <= i < s.len() && 0 <= j < s.len() && i != j implies s[i]
        != s[j] by {
        lemma_text_lt_irreflexive(s[i]);
        if i < j {
            assert(text_lt(s[i], s[j]));
        } else {
            assert(text_lt(s[j], s[i]));
        }
    }
    assert forall|i: int| 0 <= i < s.len() implies s.index_of(#[trigger] s[i]) == i by {
        let k = s.index_of(s[i]);
        assert(0 <= k < s.len() && s[k] == s[i]);
    }
}

/// Names with values, each name once, in the order of the names.
#[derive(Debug)]
pub struct NameMap<V> {
    keys: Vec<String>,
    values: Vec<V>,
}

impl<V> View for NameMap<V> {
    type V = Map<Seq<char>, V>;

    closed spec fn view(&self) -> Map<Seq<char>, V> {
        pairs_to_map(strs(self.keys@), self.values@)
    }
}

impl<V> NameMap<V> {
    #[verifier::type_invariant]
    spec fn inv(self) -> bool {
        &&& self.keys@.len() == self.values@.len()
        &&& in_order(strs(self.keys@))
    }

    /// The names, in order.
    pub closed spec fn names(self) -> Seq<Seq<char>> {
        strs(self.keys@)
    }

    /// How the names and the map belong together.
    pub open spec fn listed(self) -> bool {
        &&& in_order(self.names())
        &&& self.names().no_duplicates()
        &&& forall|k: Seq<char>| #[trigger] self@.contains_key(k) <==> self.names().contains(k)
    }

    /// The map without a name.
    pub fn new() -> (r: Self)
        ensures
            r@ == Map::<Seq<char>, V>::empty(),
            r.names() == Seq::<Seq<char>>::empty(),
    {
        let r = NameMap { keys: Vec::new(), values: Vec::new() };
        assert(strs(r.keys@) =~= Seq::<Seq<char>>::empty());
        assert(r@ =~= Map::<Seq<char>, V>::empty());
        r
    }

    /// The number of names.
    pub fn len(&self) -> (r: usize)
        ensures
            r == self.names().len(),
            self.listed(),
    {
        proof {
            use_type_invariant(self);
            lemma_in_order_distinct(strs(self.keys@));
        }
        self.keys.len()
    }

    /// The name at a place in the order.
    pub fn name_at(&self, i: usize) -> (r: &String)
        requires
            i < self.names().len(),
        ensures
            r@ == self.names()[i as int],
            self@.contains_key(r@),
    {
        proof {
            use_type_invariant(self);
            assert(strs(self.keys@).contains(strs(self.keys@)[i as int]));
        }
        &self.keys[i]
    }

    /// The value of the name at a place in the order.
    pub fn value_at(&self, i: usize) -> (r: &V)
        requires
            i < self.names().len(),
        ensures
            *r == self@[self.names()[i as int]],
            self@.contains_key(self.names()[i as int]),
    {
        proof {
            use_type_invariant(self);
            lemma_in_order_distinct(strs(self.keys@));
            assert(strs(self.keys@).contains(strs(self.keys@)[i as int]));
        }
        &self.values[i]
    }

    /// The first place whose name does not come before `k`.
    fn place(&self, k: &str) -> (r: usize)
        ensures
            r <= self.keys@.len(),
            forall|i: int| 0 <= i < r ==> text_lt(#[trigger] strs(self.keys@)[i], k@),
            forall|i: int|
                r <= i < self.keys@.len() ==> !text_lt(#[trigger] strs(self.keys@)[i], k@),
            strs(self.keys@).contains(k@) <==> (r < self.keys@.len() && strs(self.keys@)[r as int]
                == k@),
    {
        proof {
            use_type_invariant(self);
        }
        let ghost names = strs(self.keys@);
        let mut i: usize = 0;
        while i < self.keys.len() && less(self.keys[i].as_str(), k)
            invariant
                i <= self.keys@.len(),
                names == strs(self.keys@),
                forall|j: int| 0 <= j < i ==> text_lt(#[trigger] names[j], k@),
            decreases self.keys@.len() - i,
        {
            assert(names[i as int] == self.keys@[i as int]@);
            i += 1;
        }
        proof {
            assert forall|j: int| i <= j < names.len() implies !text_lt(#[trigger] names[j], k@) by {
                assert(names[i as int] == self.keys@[i as int]@);
                if j > i && text_lt(names[j], k@) {
                    assert(text_lt(names[i as int], names[j]));
                    lemma_text_lt_transitive(names[i as int], names[j], k@);
                }
            }
            lemma_text_lt_irreflexive(k@);
            if names.contains(k@) {
                let j = choose|j: int| 0 <= j < names.len() && names[j] == k@;
                if j < i {
                    assert(text_lt(names[j], k@));
                } else if j > i {
                    assert(text_lt(names[i as int], names[j]));
                }
            }
        }
        i
    }

    /// Whether the name has a value.
    pub fn contains(&self, k: &str) -> (r: bool)
        ensures
            r == self@.contains_key(k@),
    {
        let i = self.place(k);
        i < self.keys.len() && same(self.keys[i].as_str(), k)
    }

    /// The value of a name.
    pub fn get(&self, k: &str) -> (r: Option<&V>)
        ensures
            match r {
                Some(v) => self@.contains_key(k@) && *v == self@[k@],
                None => !self@.contains_key(k@),
            },
    {
        let i = self.place(k);
        proof {
            use_type_invariant(self);
            lemma_in_order_distinct(strs(self.keys@));
        }
        if i < self.keys.len() && same(self.keys[i].as_str(), k) {
            assert(strs(self.keys@)[i as int] == k@);
            Some(&self.values[i])
        } else {
            None
        }
    }

    /// Gives the name a value, in place of the one that it had.
    pub fn insert(&mut self, k: String, v: V)
        ensures
            final(self)@ == old(self)@.insert(k@, v),
    {
        let ghost before = self@;
        let i = self.place(k.as_str());
        let mut old_map: NameMap<V> = NameMap::new();
        core::mem::swap(self, &mut old_map);
        proof {
            use_type_invariant(&old_map);
            lemma_in_order_distinct(strs(old_map.keys@));
        }
        let NameMap { mut keys, mut values } = old_map;
        let ghost keys0 = strs(keys@);
        let ghost values0 = values@;
        if i < keys.len() && same(keys[i].as_str(), k.as_str()) {
            values.remove(i);
            values.insert(i, v);
            proof {
                assert(values@ =~= values0.update(i as int, v));
                assert(keys0[i as int] == k@);
                assert(pairs_to_map(keys0, values@) =~= before.insert(k@, v));
            }
        } else {
            keys.insert(i, k);
            values.insert(i, v);
            proof {
                lemma_insert_in_order(keys0, i as int, k@);
                assert(strs(keys@) =~= keys0.insert(i as int, k@));
                let keys1 = strs(keys@);
                lemma_in_order_distinct(keys1);
                assert(keys1[i as int] == k@);
                assert forall|n: Seq<char>| #[trigger]
                    keys1.contains(n) == (n == k@ || keys0.contains(n)) by {
                    if keys0.contains(n) {
                        let j = keys0.index_of(n);
                        if j < i {
                            assert(keys1[j] == n);
                        } else {
                            assert(keys1[j + 1] == n);
                        }
                    }
                    if keys1.contains(n) {
                        let j = keys1.index_of(n);
                        if j < i {
                            assert(keys0[j] == n);
                        } else if j > i {
                            assert(keys0[j - 1] == n);
                        }
                    }
                }
                assert forall|n: Seq<char>| n != k@ && keys0.contains(n) implies values@[(
                #[trigger] keys1.index_of(n))] == values0[keys0.index_of(n)] by {
                    let j = keys0.index_of(n);
                    if j < i {
                        assert(keys1[j] == n);
                    } else {
                        assert(keys1[j + 1] == n);
                    }
                }
                assert(pairs_to_map(keys1, values@) =~= before.insert(k@, v));
            }
        }
        *self = NameMap { keys, values };
    }

    /// Takes a name out.
    pub fn remove(&mut self, k: &str)
        ensures
            final(self)@ == old(self)@.remove(k@),
    {
        let ghost before = self@;
        let i = self.place(k);
        proof {
            use_type_invariant(&*self);
            lemma_in_order_distinct(strs(self.keys@));
        }
        if i < self.keys.len() && same(self.keys[i].as_str(), k) {
            let mut old_map: NameMap<V> = NameMap::new();
            core::mem::swap(self, &mut old_map);
            let NameMap { mut keys, mut values } = old_map;
            let ghost keys0 = strs(keys@);
            let ghost values0 = values@;
            keys.remove(i);
            values.remove(i);
            proof {
                let keys1 = strs(keys@);
                assert(keys1 =~= keys0.remove(i as int));
                assert(keys0[i as int] == k@);
                assert forall|a: int, b: int| 0 <= a < b < keys1.len() implies text_lt(
                    #[trigger] keys1[a],
                    #[trigger] keys1[b],
                ) by {
                    let a0 = if a < i {
                        a
                    } else {
                        a + 1
                    };
                    let b0 = if b < i {
                        b
                    } else {
                        b + 1
                    };
                    assert(text_lt(keys0[a0], keys0[b0]));
                }
                lemma_in_order_distinct(keys1);
                assert forall|n: Seq<char>| #[trigger]
                    keys1.contains(n) == (n != k@ && keys0.contains(n)) by {
                    if keys0.contains(n) && n != k@ {
                        let j = keys0.index_of(n);
                        if j < i {
                            assert(keys1[j] == n);
                        } else {
                            assert(keys1[j - 1] == n);
                        }
                    }
                    if keys1.contains(n) {
                        let j = keys1.index_of(n);
                        if j < i {
                            assert(keys0[j] == n);
                        } else {
                            assert(keys0[j + 1] == n);
                        }
                    }
                }
                assert forall|n: Seq<char>| n != k@ && keys0.contains(n) implies values@[(
                #[trigger] keys1.index_of(n))] == values0[keys0.index_of(n)] by {
                    let j = keys0.index_of(n);
                    if j < i {
                        assert(keys1[j] == n);
                    } else {
                        assert(keys1[j - 1] == n);
                    }
                }
                assert(pairs_to_map(keys1, values@) =~= before.remove(k@));
            }
            *self = NameMap { keys, values };
        } else {
            assert(before.remove(k@) =~= before);
        }
    }
}

impl NameMap<String> {
    /// A copy of the map.
    pub fn copy(&self) -> (r: NameMap<String>)
        ensures
            text_map(r@) == text_map(self@),
            r.names() == self.names(),
    {
        proof {
            use_type_invariant(self);
        }
        let keys = crate::text::copy_texts(&self.keys);
        let values = crate::text::copy_texts(&self.values);
        NameMap { keys, values }
    }

    /// Whether every name of this map has the same text in the other.
    fn within(&self, other: &NameMap<String>) -> (r: bool)
        ensures
            r == forall|k: Seq<char>| #[trigger]
                self@.contains_key(k) ==> other@.contains_key(k) && other@[k]@ == self@[k]@,
    {
        let n = self.len();
        let mut i: usize = 0;
        while i < n
            invariant
                i <= n == self.names().len(),
                self.listed(),
                forall|j: int|
                    0 <= j < i ==> ({
                        let k = #[trigger] self.names()[j];
                        other@.contains_key(k) && other@[k]@ == self@[k]@
                    }),
            decreases n - i,
        {
            let k = self.name_at(i);
            let v = self.value_at(i);
            match other.get(k.as_str()) {
                Some(w) => {
                    if !same(v.as_str(), w.as_str()) {
                        return false;
                    }
                },
                None => return false,
            }
            i += 1;
        }
        proof {
            assert forall|k: Seq<char>| #[trigger]
                self@.contains_key(k) implies other@.contains_key(k) && other@[k]@ == self@[k]@ by {
                let j = self.names().index_of(k);
                assert(self.names()[j] == k);
            }
        }
        true
    }

    /// Whether two maps hold the same texts under the same names.
    pub fn same_texts(&self, other: &NameMap<String>) -> (r: bool)
        ensures
            r == (text_map(self@) == text_map(other@)),
    {
        let r = self.within(other) && other.within(self);
        proof {
            let a = text_map(self@);
            let b = text_map(other@);
            if r {
                assert(a =~= b);
            }
            if a == b {
                assert forall|k: Seq<char>| #[trigger] self@.contains_key(k) implies other@.contains_key(k)
                    && other@[k]@ == self@[k]@ by {
                    assert(a.contains_key(k) && b.contains_key(k));
                    assert(a[k] == b[k]);
                }
                assert forall|k: Seq<char>| #[trigger] other@.contains_key(k) implies self@.contains_key(k)
                    && other@[k]@ == self@[k]@ by {
                    assert(a.contains_key(k) && b.contains_key(k));
                    assert(a[k] == b[k]);
                }
            }
        }
        r
    }
}

/// The texts of a list in order, each once.
pub fn sorted_texts(v: &Vec<String>) -> (r: Vec<String>)
    ensures
        in_order(strs(r@)),
        forall|t: Seq<char>| #[trigger] strs(r@).contains(t) <==> strs(v@).contains(t),
{
    let ghost all = strs(v@);
    let mut found: NameMap<bool> = NameMap::new();
    let mut i: usize = 0;
    while i < v.len()
        invariant
            i <= v@.len(),
            all == strs(v@),
            forall|t: Seq<char>| #[trigger]
                found@.contains_key(t) <==> all.take(i as int).contains(t),
        decreases v@.len() - i,
    {
        proof {
            crate::text::lemma_take_contains(all, i as int);
        }
        found.insert(v[i].clone(), true);
        i += 1;
    }
    assert(all.take(all.len() as int) =~= all);
    let n = found.len();
    let mut out: Vec<String> = Vec::new();
    let mut k: usize = 0;
    while k < n
        invariant
            k <= n == found.names().len(),
            found.listed(),
            strs(out@) == found.names().take(k as int),
        decreases n - k,
    {
        let ghost before = out@;
        let name = found.name_at(k).clone();
        out.push(name);
        assert(strs(out@) =~= strs(before).push(name@));
        k += 1;
    }
    proof {
        assert(found.names().take(n as int) =~= found.names());
        assert forall|t: Seq<char>| #[trigger] strs(out@).contains(t) <==> all.contains(t) by {
            assert(found@.contains_key(t) <==> found.names().contains(t));
        }
    }
    out
}

/// The texts that a map holds.
pub open spec fn text_map(m: Map<Seq<char>, String>) -> Map<Seq<char>, Seq<char>> {
    m.map_values(|s: String| s@)
}

/// The texts of a map in which a name got a value.
pub proof fn lemma_text_map_insert(m: Map<Seq<char>, String>, k: Seq<char>, v: String)
    ensures
        text_map(m.insert(k, v)) == text_map(m).insert(k, v@),
{
    assert(text_map(m.insert(k, v)) =~= text_map(m).insert(k, v@));
}

/// The texts of a map without a name.
pub proof fn lemma_text_map_empty()
    ensures
        text_map(Map::empty()) == Map::<Seq<char>, Seq<char>>::empty(),
{
    assert(text_map(Map::empty()) =~= Map::<Seq<char>, Seq<char>>::empty());
}

/// A name put before the first name that does not come before it keeps the order.
proof fn lemma_insert_in_order(s: Seq<Seq<char>>, at: int, k: Seq<char>)
    requires
        in_order(s),
        0 <= at <= s.len(),
        !s.contains(k),
        forall|i: int| 0 <= i < at ==> text_lt(#[trigger] s[i], k),
        forall|i: int| at <= i < s.len() ==> !text_lt(#[trigger] s[i], k),
    ensures
        in_order(s.insert(at, k)),
{
    let t = s.insert(at, k);
    assert forall|i: int, j: int| 0 <= i < j < t.len() implies text_lt(
        #[trigger] t[i],
        #[trigger] t[j],
    ) by {
        let i0 = if i < at {
            i
        } else {
            i - 1
        };
        let j0 = if j < at {
            j
        } else {
            j - 1
        };
        if j == at {
            assert(t[i] == s[i]);
        } else if i == at {
            assert(t[j] == s[j - 1]);
            lemma_text_lt_total(s[j - 1], k);
            assert(s.contains(s[j - 1]));
        } else {
            assert(t[i] == s[i0] && t[j] == s[j0]);
        }
    }
}

} // verus!
