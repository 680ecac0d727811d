//! What is promised of `kin push`: every branch goes where it tracks, none rewrites a base branch
//! unasked, and nothing is pushed without a lease.

use crate::commands::push::{
    not_among, protected_target_of, remote_ref_of, sorted_out, unfixed_of, BranchTargetView, GuardView, MistrackedView,
    StatusView,
};
use crate::commands::push_send::{
    all_base_rewrites, announcement_of, base_rewrites, group_of, grouped, ref_line, law_every_branch_is_sent, push_args_of, sends,
    PushRefView, RemotePushView,
};
use crate::lists::{chosen, lemma_chosen_next, lemma_chosen_none};
use vstd::prelude::*;

verus! {

/// The branch would be put in the place of a protected branch of another name, and neither the command
/// line nor its own setting allows that.
pub open spec fn is_refused(
    name: Seq<char>,
    local: Seq<char>,
    remote_ref: Seq<char>,
    guard: GuardView,
) -> bool {
    remote_ref != local && guard.protected.contains(remote_ref) && !guard.explicit.contains(name)
        && !guard.configured.contains(name)
}

/// The branch tracks a place, and a push to it is refused.
pub open spec fn tracks_base(t: BranchTargetView, guard: GuardView) -> bool {
    t.1 matches Some(s) && s.remote is Some && s.remote_ref is Some && is_refused(
        t.0,
        s.name,
        s.remote_ref->0,
        guard,
    )
}

/// The branches of a stack are sorted out without loss, in their order. A branch goes where it tracks
/// unless that is refused; one that tracks nothing, or whose place is refused, is offered a place of
/// its own; and those that are refused are named with the place that they track.
pub proof fn law_every_branch_is_sorted_out(v: Seq<BranchTargetView>, guard: GuardView, n: int)
    requires
        0 <= n <= v.len(),
    ensures
        ({
            let c = sorted_out(v.take(n), guard);
            &&& c.to_push == chosen(
                n,
                |k: int| v[k].1 is Some && !tracks_base(v[k], guard),
                |k: int| v[k].1->0,
            )
            &&& c.without_upstream == chosen(
                n,
                |k: int| v[k].1 is None || tracks_base(v[k], guard),
                |k: int|
                    StatusView {
                        name: v[k].0,
                        remote: None,
                        remote_ref: None,
                        display: None,
                        base: if v[k].1 is None {
                            None
                        } else {
                            Some((v[k].1->0.remote_ref->0, v[k].1->0.remote->0))
                        },
                    },
            )
            &&& c.tracking_base == chosen(
                n,
                |k: int| tracks_base(v[k], guard),
                |k: int| (v[k].0, v[k].1->0.remote->0, v[k].1->0.remote_ref->0),
            )
        }),
    decreases n,
{
    let keep1 = |k: int| v[k].1 is Some && !tracks_base(v[k], guard);
    let give1 = |k: int| v[k].1->0;
    let keep2 = |k: int| v[k].1 is None || tracks_base(v[k], guard);
    let give2 = |k: int|
        StatusView {
            name: v[k].0,
            remote: None,
            remote_ref: None,
            display: None,
            base: if v[k].1 is None {
                None
            } else {
                Some((v[k].1->0.remote_ref->0, v[k].1->0.remote->0))
            },
        };
    let keep3 = |k: int| tracks_base(v[k], guard);
    let give3 = |k: int| (v[k].0, v[k].1->0.remote->0, v[k].1->0.remote_ref->0);
    if n > 0 {
        law_every_branch_is_sorted_out(v, guard, n - 1);
        lemma_chosen_next(n - 1, keep1, give1);
        lemma_chosen_next(n - 1, keep2, give2);
        lemma_chosen_next(n - 1, keep3, give3);
        assert(v.take(n).drop_last() =~= v.take(n - 1));
        assert(v.take(n).last() == v[n - 1]);
    } else {
        lemma_chosen_none(keep1, give1);
        lemma_chosen_none(keep2, give2);
        lemma_chosen_none(keep3, give3);
    }
}

/// The branches that track a base branch and were not chosen are those, in their order, and no others.
pub proof fn law_unfixed_branches_were_not_chosen(
    v: Seq<MistrackedView>,
    selected: Seq<Seq<char>>,
    n: int,
)
    requires
        0 <= n <= v.len(),
    ensures
        unfixed_of(v.take(n), selected) == chosen(
            n,
            |k: int| !selected.contains(v[k].0),
            |k: int| v[k],
        ),
    decreases n,
{
    let keep = |k: int| !selected.contains(v[k].0);
    let give = |k: int| v[k];
    if n > 0 {
        law_unfixed_branches_were_not_chosen(v, selected, n - 1);
        lemma_chosen_next(n - 1, keep, give);
        assert(v.take(n).drop_last() =~= v.take(n - 1));
        assert(v.take(n).last() == v[n - 1]);
    } else {
        lemma_chosen_none(keep, give);
    }
}

/// What is pushed beside the chosen branches: every other branch that has a place, in its order.
pub proof fn law_other_branches_are_pushed_too(
    v: Seq<StatusView>,
    names: Seq<Seq<char>>,
    n: int,
)
    requires
        0 <= n <= v.len(),
    ensures
        not_among(v.take(n), names) == chosen(
            n,
            |k: int| v[k].remote_ref is Some && !names.contains(v[k].name),
            |k: int| v[k],
        ),
    decreases n,
{
    let keep = |k: int| v[k].remote_ref is Some && !names.contains(v[k].name);
    let give = |k: int| v[k];
    if n > 0 {
        law_other_branches_are_pushed_too(v, names, n - 1);
        lemma_chosen_next(n - 1, keep, give);
        assert(v.take(n).drop_last() =~= v.take(n - 1));
        assert(v.take(n).last() == v[n - 1]);
    } else {
        lemma_chosen_none(keep, give);
    }
}

/// A branch that has a place is pushed to it, under its own local name and to its own remote; and
/// nothing else is pushed.
pub proof fn law_branches_go_where_they_track(
    v: Seq<StatusView>,
    remote: Seq<char>,
    local: Seq<char>,
    remote_ref: Seq<char>,
)
    ensures
        (exists|g: int, k: int|
            0 <= g < grouped(v).len() && grouped(v)[g].remote == remote && 0 <= k < grouped(
                v,
            )[g].refs.len() && #[trigger] grouped(v)[g].refs[k] == (local, remote_ref)) <==> exists|
            i: int,
        |
            0 <= i < v.len() && (#[trigger] v[i]).name == local && v[i].remote == Some(remote)
                && v[i].remote_ref == Some(remote_ref),
{
    let one: PushRefView = (local, remote_ref);
    let groups = grouped(v);
    law_every_branch_is_sent(v, remote, one);
    if sends(groups, remote, one) {
        let g = choose|g: int|
            0 <= g < groups.len() && (#[trigger] groups[g]).remote == remote
                && groups[g].refs.contains(one);
        let k = groups[g].refs.index_of(one);
        assert(groups[g].refs[k] == (local, remote_ref));
        let i = choose|i: int|
            0 <= i < v.len() && crate::commands::push_send::goes(#[trigger] v[i], remote, one);
        assert(v[i].name == local);
    }
    if exists|g: int, k: int|
        0 <= g < groups.len() && groups[g].remote == remote && 0 <= k < groups[g].refs.len()
            && #[trigger] groups[g].refs[k] == (local, remote_ref) {
        let (g, k) = choose|g: int, k: int|
            0 <= g < groups.len() && groups[g].remote == remote && 0 <= k < groups[g].refs.len()
                && #[trigger] groups[g].refs[k] == (local, remote_ref);
        assert(groups[g].refs.contains(one));
        assert(groups[g].remote == remote);
    }
    if exists|i: int|
        0 <= i < v.len() && (#[trigger] v[i]).name == local && v[i].remote == Some(remote)
            && v[i].remote_ref == Some(remote_ref) {
        let i = choose|i: int|
            0 <= i < v.len() && (#[trigger] v[i]).name == local && v[i].remote == Some(remote)
                && v[i].remote_ref == Some(remote_ref);
        assert(crate::commands::push_send::goes(v[i], remote, one));
    }
}

/// As many references are pushed as there are branches with a place.
pub proof fn law_no_branch_is_pushed_twice(v: Seq<StatusView>)
    ensures
        refs_in(grouped(v)) == chosen(
            v.len() as int,
            |k: int| v[k].remote is Some && v[k].remote_ref is Some,
            |k: int| k,
        ).len(),
{
    lemma_refs_in(v, v.len() as int);
    assert(v.take(v.len() as int) =~= v);
}

/// The number of references in groups.
pub open spec fn refs_in(groups: Seq<RemotePushView>) -> int
    decreases groups.len(),
{
    if groups.len() == 0 {
        0
    } else {
        refs_in(groups.drop_last()) + groups.last().refs.len()
    }
}

proof fn lemma_refs_in(v: Seq<StatusView>, n: int)
    requires
        0 <= n <= v.len(),
    ensures
        refs_in(grouped(v.take(n))) == chosen(
            n,
            |k: int| v[k].remote is Some && v[k].remote_ref is Some,
            |k: int| k,
        ).len(),
    decreases n,
{
    let keep = |k: int| v[k].remote is Some && v[k].remote_ref is Some;
    let give = |k: int| k;
    if n > 0 {
        lemma_refs_in(v, n - 1);
        lemma_chosen_next(n - 1, keep, give);
        assert(v.take(n).drop_last() =~= v.take(n - 1));
        assert(v.take(n).last() == v[n - 1]);
        let groups = grouped(v.take(n - 1));
        match (v[n - 1].remote, v[n - 1].remote_ref) {
            (Some(remote), Some(remote_ref)) => {
                let at = crate::commands::push_send::group_of(groups, remote);
                let after = grouped(v.take(n));
                if 0 <= at < groups.len() {
                    lemma_refs_in_update(groups, at, after[at]);
                    assert(after == groups.update(at, after[at]));
                } else {
                    assert(after.drop_last() =~= groups);
                }
            },
            _ => {},
        }
    } else {
        lemma_chosen_none(keep, give);
    }
}

proof fn lemma_refs_in_update(groups: Seq<RemotePushView>, at: int, group: RemotePushView)
    requires
        0 <= at < groups.len(),
    ensures
        refs_in(groups.update(at, group)) == refs_in(groups) - groups[at].refs.len()
            + group.refs.len(),
    decreases groups.len(),
{
    let after = groups.update(at, group);
    if at == groups.len() - 1 {
        assert(after.drop_last() =~= groups.drop_last());
    } else {
        lemma_refs_in_update(groups.drop_last(), at, group);
        assert(after.drop_last() =~= groups.drop_last().update(at, group));
    }
}

proof fn lemma_base_rewrites(
    remote: Seq<char>,
    refs: Seq<PushRefView>,
    guard: GuardView,
    allowed: bool,
    n: int,
)
    requires
        0 <= n <= refs.len(),
    ensures
        base_rewrites(remote, refs.take(n), guard, allowed) == chosen(
            n,
            |k: int|
                refs[k].1 != refs[k].0 && guard.protected.contains(refs[k].1) && (
                guard.explicit.contains(refs[k].0) || guard.configured.contains(refs[k].0))
                    == allowed,
            |k: int| (refs[k].0, remote, refs[k].1),
        ),
    decreases n,
{
    let keep = |k: int|
        refs[k].1 != refs[k].0 && guard.protected.contains(refs[k].1) && (guard.explicit.contains(
            refs[k].0,
        ) || guard.configured.contains(refs[k].0)) == allowed;
    let give = |k: int| (refs[k].0, remote, refs[k].1);
    if n > 0 {
        lemma_base_rewrites(remote, refs, guard, allowed, n - 1);
        lemma_chosen_next(n - 1, keep, give);
        assert(refs.take(n).drop_last() =~= refs.take(n - 1));
        assert(refs.take(n).last() == refs[n - 1]);
    } else {
        lemma_chosen_none(keep, give);
    }
}

/// The references that would rewrite a base branch with another one are found, those that are refused
/// and those that are allowed: exactly those whose place is a protected branch of another name, by
/// whether the branch is named on the command line or allowed by its own setting.
pub proof fn law_base_rewrites_are_found(
    groups: Seq<RemotePushView>,
    guard: GuardView,
    allowed: bool,
    x: MistrackedView,
)
    ensures
        all_base_rewrites(groups, guard, allowed).contains(x) <==> exists|g: int, k: int| {
            &&& 0 <= g < groups.len()
            &&& 0 <= k < groups[g].refs.len()
            &&& #[trigger] groups[g].refs[k] == (x.0, x.2)
            &&& groups[g].remote == x.1
            &&& x.2 != x.0
            &&& guard.protected.contains(x.2)
            &&& (guard.explicit.contains(x.0) || guard.configured.contains(x.0)) == allowed
        },
    decreases groups.len(),
{
    if groups.len() > 0 {
        let rest = groups.drop_last();
        let n = groups.len() - 1;
        let last = groups[n];
        law_base_rewrites_are_found(rest, guard, allowed, x);
        let before = all_base_rewrites(rest, guard, allowed);
        let own = base_rewrites(last.remote, last.refs, guard, allowed);
        let all = all_base_rewrites(groups, guard, allowed);
        assert(groups.last() == last);
        assert(all == before + own);
        let m = last.refs.len() as int;
        lemma_base_rewrites(last.remote, last.refs, guard, allowed, m);
        assert(last.refs.take(m) =~= last.refs);
        let keep = |k: int|
            last.refs[k].1 != last.refs[k].0 && guard.protected.contains(last.refs[k].1) && (
            guard.explicit.contains(last.refs[k].0) || guard.configured.contains(last.refs[k].0))
                == allowed;
        let give = |k: int| (last.refs[k].0, last.remote, last.refs[k].1);
        crate::lists::law_chosen(m, keep, give);
        if all.contains(x) {
            let i = all.index_of(x);
            if i < before.len() {
                assert(before[i] == x);
                let (g, k) = choose|g: int, k: int| {
                    &&& 0 <= g < rest.len()
                    &&& 0 <= k < rest[g].refs.len()
                    &&& #[trigger] rest[g].refs[k] == (x.0, x.2)
                    &&& rest[g].remote == x.1
                    &&& x.2 != x.0
                    &&& guard.protected.contains(x.2)
                    &&& (guard.explicit.contains(x.0) || guard.configured.contains(x.0)) == allowed
                };
                assert(groups[g].refs[k] == (x.0, x.2));
            } else {
                assert(own[i - before.len()] == x);
                assert(own.contains(x));
                let k = choose|k: int| 0 <= k < m && keep(k) && #[trigger] give(k) == x;
                assert(groups[n].refs[k] == (x.0, x.2));
            }
        }
        if exists|g: int, k: int| {
            &&& 0 <= g < groups.len()
            &&& 0 <= k < groups[g].refs.len()
            &&& #[trigger] groups[g].refs[k] == (x.0, x.2)
            &&& groups[g].remote == x.1
            &&& x.2 != x.0
            &&& guard.protected.contains(x.2)
            &&& (guard.explicit.contains(x.0) || guard.configured.contains(x.0)) == allowed
        } {
            let (g, k) = choose|g: int, k: int| {
                &&& 0 <= g < groups.len()
                &&& 0 <= k < groups[g].refs.len()
                &&& #[trigger] groups[g].refs[k] == (x.0, x.2)
                &&& groups[g].remote == x.1
                &&& x.2 != x.0
                &&& guard.protected.contains(x.2)
                &&& (guard.explicit.contains(x.0) || guard.configured.contains(x.0)) == allowed
            };
            if g < n {
                assert(rest[g].refs[k] == (x.0, x.2));
                assert(before.contains(x));
                assert(all[before.index_of(x)] == x);
            } else {
                assert(keep(k));
                assert(own.contains(give(k)));
                assert(all[before.len() + own.index_of(x)] == x);
            }
        }
    }
}

/// A push that goes ahead puts no branch in the place of a protected branch of another name, unless
/// the branch is named on the command line or its own setting allows it.
pub proof fn law_pushed_branches_spare_the_bases(
    groups: Seq<RemotePushView>,
    guard: GuardView,
    g: int,
    k: int,
)
    requires
        all_base_rewrites(groups, guard, false).len() == 0,
        0 <= g < groups.len(),
        0 <= k < groups[g].refs.len(),
    ensures
        ({
            let (name, remote_ref) = groups[g].refs[k];
            remote_ref == name || !guard.protected.contains(remote_ref) || guard.explicit.contains(
                name,
            ) || guard.configured.contains(name)
        }),
{
    let (name, remote_ref) = groups[g].refs[k];
    law_base_rewrites_are_found(groups, guard, false, (name, groups[g].remote, remote_ref));
    assert(groups[g].refs[k] == (name, remote_ref));
    assert(!all_base_rewrites(groups, guard, false).contains(
        (name, groups[g].remote, remote_ref),
    ));
}

/// Every push is atomic and leased: git gets both flags of the lease and never a plain force, the
/// remote, and each branch by name with its place, in their order.
pub proof fn law_every_push_is_leased(
    set_upstream: bool,
    remote: Seq<char>,
    refs: Seq<PushRefView>,
)
    ensures
        ({
            let args = push_args_of(set_upstream, remote, refs);
            let at: int = if set_upstream {
                5
            } else {
                4
            };
            &&& args.len() == at + 1 + refs.len()
            &&& args[0] == "push"@
            &&& args[1] == "--atomic"@
            &&& args[2] == "--force-with-lease"@
            &&& args[3] == "--force-if-includes"@
            &&& set_upstream ==> args[4] == "-u"@
            &&& args[at] == remote
            &&& forall|i: int|
                0 <= i < refs.len() ==> #[trigger] args[at + 1 + i] == refs[i].0 + ":"@ + refs[i].1
        }),
{
}

/// The name on the remote of what a branch follows: behind the remote's own references, or behind
/// those of branches; any other reference is its own name.
pub proof fn law_place_on_the_remote(remote: Seq<char>, name: Seq<char>)
    ensures
        remote_ref_of("refs/remotes/"@ + remote + "/"@ + name, remote) == name,
        remote_ref_of("refs/heads/"@ + name, remote) == name,
        !("refs/remotes/"@ + remote + "/"@).is_prefix_of(name) && !"refs/heads/"@.is_prefix_of(name)
            ==> remote_ref_of(name, remote) == name,
{
    let own = "refs/remotes/"@ + remote + "/"@;
    let full = own + name;
    assert(full.subrange(0, own.len() as int) =~= own);
    assert(full.skip(own.len() as int) =~= name);
    let heads = "refs/heads/"@;
    let local = heads + name;
    assert(local.subrange(0, heads.len() as int) =~= heads);
    assert(local.skip(heads.len() as int) =~= name);
    reveal_strlit("refs/remotes/");
    reveal_strlit("refs/heads/");
    if own.is_prefix_of(local) {
        assert(local[5] == 'h' && own[5] == 'r');
        assert(local.subrange(0, own.len() as int)[5] == local[5]);
    }
}

/// A push is told to rewrite a base branch exactly where it goes to a protected branch of another name
/// than its own.
pub proof fn law_rewritten_base_is_told(s: StatusView, protected: Seq<Seq<char>>)
    ensures
        match protected_target_of(s, protected) {
            Some((remote, base)) => s.remote == Some(remote) && s.remote_ref == Some(base) && base
                != s.name && protected.contains(base),
            None => s.remote is None || s.remote_ref is None || s.remote_ref == Some(s.name)
                || !protected.contains(s.remote_ref->0),
        },
{
}

/// The pushes to a remote are in the first group of that remote.
pub proof fn law_group_of_a_remote(groups: Seq<RemotePushView>, remote: Seq<char>)
    ensures
        ({
            let i = group_of(groups, remote);
            &&& 0 <= i <= groups.len()
            &&& i < groups.len() ==> groups[i].remote == remote
            &&& forall|j: int| 0 <= j < i ==> (#[trigger] groups[j]).remote != remote
        }),
    decreases groups.len(),
{
    if groups.len() > 0 && groups[0].remote != remote {
        let rest = groups.drop_first();
        law_group_of_a_remote(rest, remote);
        let i = group_of(groups, remote);
        assert forall|j: int| 0 <= j < i implies (#[trigger] groups[j]).remote != remote by {
            if j > 0 {
                assert(rest[j - 1] == groups[j]);
            }
        }
    }
}

/// What is announced names every branch that goes to the remote, and says which of them rewrite a base
/// branch by request.
pub proof fn law_every_push_is_announced(
    remote: Seq<char>,
    refs: Seq<PushRefView>,
    with_upstream: bool,
    overridden: Seq<Seq<char>>,
)
    ensures
        ({
            let lines = announcement_of(remote, refs, with_upstream, overridden);
            &&& lines.len() == refs.len() + 1
            &&& forall|i: int|
                0 <= i < refs.len() ==> #[trigger] lines[i + 1] == ref_line(
                    remote,
                    refs[i],
                    overridden.contains(refs[i].0),
                )
        }),
{
}

} // verus!
