//! Which places of a list are chosen, and what comes of them.

use vstd::prelude::*;

verus! {

/// The places below `n` that are kept, the lowest first.
pub open spec fn places_where(n: int, keep: spec_fn(int) -> bool) -> Seq<int>
    decreases n,
{
    if n <= 0 {
        Seq::empty()
    } else if keep(n - 1) {
        places_where(n - 1, keep).push(n - 1)
    } else {
        places_where(n - 1, keep)
    }
}

/// What comes of the places below `n` that are kept, in their order.
pub open spec fn chosen<B>(n: int, keep: spec_fn(int) -> bool, give: spec_fn(int) -> B) -> Seq<B> {
    places_where(n, keep).map_values(give)
}

/// The places that are kept are in order, none stands twice, and there are no others.
pub proof fn law_places_where(n: int, keep: spec_fn(int) -> bool)
    ensures
        forall|k: int| #[trigger] places_where(n, keep).contains(k) <==> 0 <= k < n && keep(k),
        forall|i: int, j: int|
            0 <= i < j < places_where(n, keep).len() ==> #[trigger] places_where(n, keep)[i]
                < #[trigger] places_where(n, keep)[j],
        places_where(n, keep).len() <= if n > 0 {
            n
        } else {
            0
        },
    decreases n,
{
    if n > 0 {
        law_places_where(n - 1, keep);
        let before = places_where(n - 1, keep);
        let all = places_where(n, keep);
        assert forall|k: int| #[trigger] all.contains(k) <==> 0 <= k < n && keep(k) by {
            if before.contains(k) {
                assert(all[before.index_of(k)] == k);
            }
            if keep(n - 1) {
                assert(all[before.len() as int] == n - 1);
            }
            if all.contains(k) {
                let i = all.index_of(k);
                if i < before.len() {
                    assert(before[i] == k);
                }
            }
        }
        assert forall|i: int, j: int| 0 <= i < j < all.len() implies #[trigger] all[i]
            < #[trigger] all[j] by {
            if j == before.len() {
                assert(before.contains(before[i]));
            }
        }
    }
}

/// One more place.
pub proof fn lemma_chosen_next<B>(n: int, keep: spec_fn(int) -> bool, give: spec_fn(int) -> B)
    requires
        n >= 0,
    ensures
        chosen(n + 1, keep, give) == if keep(n) {
            chosen(n, keep, give).push(give(n))
        } else {
            chosen(n, keep, give)
        },
{
    assert(chosen(n + 1, keep, give) =~= if keep(n) {
        chosen(n, keep, give).push(give(n))
    } else {
        chosen(n, keep, give)
    });
}

/// No place at all.
pub proof fn lemma_chosen_none<B>(keep: spec_fn(int) -> bool, give: spec_fn(int) -> B)
    ensures
        chosen(0, keep, give) == Seq::<B>::empty(),
{
    assert(chosen(0, keep, give) =~= Seq::<B>::empty());
}

/// What is chosen comes from a place that is kept, and what a place that is kept gives is chosen.
pub proof fn law_chosen<B>(n: int, keep: spec_fn(int) -> bool, give: spec_fn(int) -> B)
    ensures
        forall|b: B| #[trigger]
            chosen(n, keep, give).contains(b) <==> exists|k: int|
                0 <= k < n && keep(k) && #[trigger] give(k) == b,
        forall|k: int| 0 <= k < n && keep(k) ==> chosen(n, keep, give).contains(#[trigger] give(k)),
        chosen(n, keep, give).len() == places_where(n, keep).len(),
{
    law_places_where(n, keep);
    let places = places_where(n, keep);
    let all = chosen(n, keep, give);
    assert forall|k: int| 0 <= k < n && keep(k) implies all.contains(#[trigger] give(k)) by {
        assert(places.contains(k));
        let i = places.index_of(k);
        assert(all[i] == give(k));
    }
    assert forall|b: B| #[trigger] all.contains(b) implies exists|k: int|
        0 <= k < n && keep(k) && #[trigger] give(k) == b by {
        let i = all.index_of(b);
        assert(all[i] == give(places[i]));
        assert(places.contains(places[i]));
    }
}

/// A filter chooses the places whose items it keeps.
pub proof fn lemma_filter_is_chosen<A>(s: Seq<A>, n: int, keep: spec_fn(A) -> bool)
    requires
        0 <= n <= s.len(),
    ensures
        s.take(n).filter(keep) == chosen(n, |k: int| keep(s[k]), |k: int| s[k]),
        n == s.len() ==> s.filter(keep) == chosen(n, |k: int| keep(s[k]), |k: int| s[k]),
    decreases n,
{
    let at = |k: int| keep(s[k]);
    let give = |k: int| s[k];
    if n > 0 {
        lemma_filter_is_chosen(s, n - 1, keep);
        lemma_chosen_next(n - 1, at, give);
        crate::stack::lemma_filter_next(s, n - 1, keep);
    } else {
        lemma_chosen_none(at, give);
        reveal(Seq::filter);
    }
    assert(s.take(s.len() as int) =~= s);
}

/// Two choices agree where what they keep and what they give agree.
pub proof fn lemma_chosen_same<B>(
    n: int,
    keep: spec_fn(int) -> bool,
    give: spec_fn(int) -> B,
    keep2: spec_fn(int) -> bool,
    give2: spec_fn(int) -> B,
)
    requires
        forall|k: int| 0 <= k < n ==> #[trigger] keep(k) == keep2(k),
        forall|k: int| 0 <= k < n && keep(k) ==> #[trigger] give(k) == give2(k),
    ensures
        chosen(n, keep, give) == chosen(n, keep2, give2),
    decreases n,
{
    if n > 0 {
        lemma_chosen_same(n - 1, keep, give, keep2, give2);
        lemma_chosen_next(n - 1, keep, give);
        lemma_chosen_next(n - 1, keep2, give2);
        assert(keep(n - 1) == keep2(n - 1));
        if keep(n - 1) {
            assert(give(n - 1) == give2(n - 1));
        }
    } else {
        assert(chosen(n, keep, give) =~= chosen(n, keep2, give2));
    }
}

} // verus!
