//! What `kin push` hands to git: references grouped by remote, behind the guard of base branches,
//! and what it says when a remote rejects them.

use crate::commands::push::{
    is_allowed, is_foreign_base, mistracked, statuses, BaseGuard, BranchStatus, GuardView,
    Mistracked, MistrackedView, StatusView,
};
use crate::text::{
    cat2, cat3, cat4, cat5, contains_text, dec, decimal, find_text_of, list, lower_text, same, strs,
    to_lower,
};
use vstd::prelude::*;

verus! {

/// A local branch and the branch on the remote that it is pushed to.
pub type PushRef = (String, String);

pub type PushRefView = (Seq<char>, Seq<char>);

pub open spec fn push_refs(v: Seq<PushRef>) -> Seq<PushRefView> {
    Seq::new(v.len(), |i: int| (v[i].0@, v[i].1@))
}

/// What goes to one remote.
#[derive(Debug)]
pub struct RemotePush {
    pub remote: String,
    pub refs: Vec<PushRef>,
}

#[verifier::ext_equal]
pub struct RemotePushView {
    pub remote: Seq<char>,
    pub refs: Seq<PushRefView>,
}

impl View for RemotePush {
    type V = RemotePushView;

    open spec fn view(&self) -> RemotePushView {
        RemotePushView { remote: self.remote@, refs: push_refs(self.refs@) }
    }
}

pub open spec fn remote_pushes(v: Seq<RemotePush>) -> Seq<RemotePushView> {
    Seq::new(v.len(), |i: int| v[i]@)
}

/// The place of the first group of that remote, or the number of groups.
pub open spec fn group_of(groups: Seq<RemotePushView>, remote: Seq<char>) -> int
    decreases groups.len(),
{
    if groups.len() == 0 || groups[0].remote == remote {
        0
    } else {
        1 + group_of(groups.drop_first(), remote)
    }
}

proof fn lemma_group_of(groups: Seq<RemotePushView>, remote: Seq<char>)
    ensures
        0 <= group_of(groups, remote) <= groups.len(),
        group_of(groups, remote) < groups.len() ==> groups[group_of(groups, remote)].remote
            == remote,
        forall|k: int|
            0 <= k < group_of(groups, remote) ==> (#[trigger] groups[k]).remote != remote,
    decreases groups.len(),
{
    if groups.len() > 0 && groups[0].remote != remote {
        let rest = groups.drop_first();
        lemma_group_of(rest, remote);
        assert forall|k: int| 0 <= k < group_of(groups, remote) implies (#[trigger] groups[k]).remote
            != remote by {
            if k > 0 {
                assert(groups[k] == rest[k - 1]);
            }
        }
    }
}

/// The groups with one more reference.
pub open spec fn with_ref(
    groups: Seq<RemotePushView>,
    remote: Seq<char>,
    one: PushRefView,
) -> Seq<RemotePushView> {
    let at = group_of(groups, remote);
    if 0 <= at < groups.len() {
        groups.update(at, RemotePushView { remote, refs: groups[at].refs.push(one) })
    } else {
        groups.push(RemotePushView { remote, refs: seq![one] })
    }
}

/// The references by remote, in the order in which the remotes come up; a branch that goes nowhere
/// is left out.
pub open spec fn grouped(v: Seq<StatusView>) -> Seq<RemotePushView>
    decreases v.len(),
{
    if v.len() == 0 {
        Seq::empty()
    } else {
        let groups = grouped(v.drop_last());
        match (v.last().remote, v.last().remote_ref) {
            (Some(remote), Some(remote_ref)) => with_ref(
                groups,
                remote,
                (v.last().name, remote_ref),
            ),
            _ => groups,
        }
    }
}

/// Groups the references by remote.
pub fn group_by_remote(branches: &Vec<BranchStatus>) -> (r: Vec<RemotePush>)
    ensures
        remote_pushes(r@) == grouped(statuses(branches@)),
{
    let ghost all = statuses(branches@);
    let mut groups: Vec<RemotePush> = Vec::new();
    let mut i: usize = 0;
    assert(remote_pushes(groups@) =~= Seq::<RemotePushView>::empty());
    while i < branches.len()
        invariant
            i <= branches@.len(),
            all == statuses(branches@),
            remote_pushes(groups@) == grouped(all.take(i as int)),
        decreases branches@.len() - i,
    {
        let b = &branches[i];
        proof {
            assert(all.take(i + 1).drop_last() =~= all.take(i as int));
            assert(all.take(i + 1).last() == b@);
        }
        match (&b.tracked_remote, &b.tracked_ref) {
            (Some(remote), Some(remote_ref)) => {
                let ghost before = remote_pushes(groups@);
                let ghost one = (b.name@, remote_ref@);
                let at = find_group(&groups, remote.as_str());
                if at < groups.len() {
                    let mut group = groups.remove(at);
                    let ghost refs = group.refs@;
                    group.refs.push((b.name.clone(), remote_ref.clone()));
                    assert(push_refs(group.refs@) =~= push_refs(refs).push(one));
                    groups.insert(at, group);
                    proof {
                        lemma_group_of(before, remote@);
                    }
                    assert(remote_pushes(groups@) =~= with_ref(before, remote@, one));
                } else {
                    let mut refs: Vec<PushRef> = Vec::new();
                    refs.push((b.name.clone(), remote_ref.clone()));
                    assert(push_refs(refs@) =~= seq![one]);
                    groups.push(RemotePush { remote: remote.clone(), refs });
                    assert(remote_pushes(groups@) =~= with_ref(before, remote@, one));
                }
            },
            _ => {},
        }
        i += 1;
    }
    assert(all.take(all.len() as int) =~= all);
    groups
}

fn find_group(groups: &Vec<RemotePush>, remote: &str) -> (r: usize)
    ensures
        r == group_of(remote_pushes(groups@), remote@),
        r <= groups@.len(),
{
    let ghost all = remote_pushes(groups@);
    let mut i: usize = 0;
    assert(all.skip(0) =~= all);
    while i < groups.len()
        invariant
            i <= groups@.len(),
            all == remote_pushes(groups@),
            group_of(all, remote@) == i + group_of(all.skip(i as int), remote@),
        decreases groups@.len() - i,
    {
        assert(all.skip(i as int)[0] == groups@[i as int]@);
        assert(all.skip(i as int).drop_first() =~= all.skip(i + 1));
        if same(groups[i].remote.as_str(), remote) {
            return i;
        }
        i += 1;
    }
    assert(all.skip(i as int) =~= Seq::<RemotePushView>::empty());
    i
}

/// The groups hold that reference for that remote.
pub open spec fn sends(
    groups: Seq<RemotePushView>,
    remote: Seq<char>,
    one: PushRefView,
) -> bool {
    exists|g: int|
        0 <= g < groups.len() && (#[trigger] groups[g]).remote == remote && groups[g].refs.contains(
            one,
        )
}

/// The branch goes to that place on that remote.
pub open spec fn goes(s: StatusView, remote: Seq<char>, one: PushRefView) -> bool {
    s.remote == Some(remote) && s.remote_ref == Some(one.1) && s.name == one.0
}

proof fn lemma_with_ref(
    groups: Seq<RemotePushView>,
    remote: Seq<char>,
    one: PushRefView,
    to: Seq<char>,
    x: PushRefView,
)
    ensures
        sends(with_ref(groups, remote, one), to, x) <==> sends(groups, to, x) || (to == remote && x
            == one),
{
    lemma_group_of(groups, remote);
    let at = group_of(groups, remote);
    let after = with_ref(groups, remote, one);
    if at < groups.len() {
        let old_refs = groups[at].refs;
        assert(after[at].refs == old_refs.push(one));
        assert(old_refs.push(one)[old_refs.len() as int] == one);
        if sends(groups, to, x) {
            let g = choose|g: int|
                0 <= g < groups.len() && (#[trigger] groups[g]).remote == to
                    && groups[g].refs.contains(x);
            if g == at {
                let k = old_refs.index_of(x);
                assert(old_refs.push(one)[k] == x);
                assert(after[at].remote == to);
            } else {
                assert(after[g] == groups[g]);
            }
        }
        if to == remote && x == one {
            assert(after[at].refs.contains(one));
            assert(after[at].remote == to);
        }
        if sends(after, to, x) {
            let g = choose|g: int|
                0 <= g < after.len() && (#[trigger] after[g]).remote == to
                    && after[g].refs.contains(x);
            if g == at {
                let k = after[g].refs.index_of(x);
                if k < old_refs.len() {
                    assert(old_refs[k] == x);
                    assert(groups[at].refs.contains(x));
                }
            } else {
                assert(after[g] == groups[g]);
            }
        }
    } else {
        let n = groups.len() as int;
        assert(after[n].refs == seq![one]);
        assert(seq![one][0] == one);
        if sends(groups, to, x) {
            let g = choose|g: int|
                0 <= g < groups.len() && (#[trigger] groups[g]).remote == to
                    && groups[g].refs.contains(x);
            assert(after[g] == groups[g]);
        }
        if to == remote && x == one {
            assert(after[n].refs.contains(one));
            assert(after[n].remote == to);
        }
        if sends(after, to, x) {
            let g = choose|g: int|
                0 <= g < after.len() && (#[trigger] after[g]).remote == to
                    && after[g].refs.contains(x);
            if g < n {
                assert(after[g] == groups[g]);
            } else {
                assert(after[g].refs[0] == one);
            }
        }
    }
}

/// A reference is sent to a remote if and only if some branch goes there.
pub proof fn law_every_branch_is_sent(v: Seq<StatusView>, remote: Seq<char>, one: PushRefView)
    ensures
        sends(grouped(v), remote, one) <==> exists|i: int|
            0 <= i < v.len() && goes(#[trigger] v[i], remote, one),
    decreases v.len(),
{
    if v.len() > 0 {
        let rest = v.drop_last();
        law_every_branch_is_sent(rest, remote, one);
        let n = v.len() - 1;
        match (v.last().remote, v.last().remote_ref) {
            (Some(to), Some(remote_ref)) => {
                lemma_with_ref(grouped(rest), to, (v.last().name, remote_ref), remote, one);
            },
            _ => {},
        }
        if exists|i: int| 0 <= i < rest.len() && goes(#[trigger] rest[i], remote, one) {
            let i = choose|i: int| 0 <= i < rest.len() && goes(#[trigger] rest[i], remote, one);
            assert(goes(v[i], remote, one));
        }
        if exists|i: int| 0 <= i < v.len() && goes(#[trigger] v[i], remote, one) {
            let i = choose|i: int| 0 <= i < v.len() && goes(#[trigger] v[i], remote, one);
            if i < n {
                assert(goes(rest[i], remote, one));
            }
        }
        assert(v[n] == v.last());
    }
}

/// Each remote is pushed to once.
pub proof fn law_each_remote_once(v: Seq<StatusView>)
    ensures
        forall|i: int, j: int|
            0 <= i < j < grouped(v).len() ==> (#[trigger] grouped(v)[i]).remote != (
            #[trigger] grouped(v)[j]).remote,
    decreases v.len(),
{
    if v.len() > 0 {
        law_each_remote_once(v.drop_last());
        let groups = grouped(v.drop_last());
        match (v.last().remote, v.last().remote_ref) {
            (Some(to), Some(remote_ref)) => {
                lemma_group_of(groups, to);
                let after = with_ref(groups, to, (v.last().name, remote_ref));
                assert forall|i: int, j: int| 0 <= i < j < after.len() implies (
                #[trigger] after[i]).remote != (#[trigger] after[j]).remote by {
                    if j < groups.len() {
                        assert(groups[i].remote != groups[j].remote);
                        assert(after[i].remote == groups[i].remote);
                        assert(after[j].remote == groups[j].remote);
                    } else {
                        assert(after[i] == groups[i]);
                    }
                }
            },
            _ => {},
        }
    }
}

/// The references of one remote that would rewrite a base branch: those that are refused, or those
/// that are allowed to.
pub open spec fn base_rewrites(
    remote: Seq<char>,
    refs: Seq<PushRefView>,
    guard: GuardView,
    allowed: bool,
) -> Seq<MistrackedView>
    decreases refs.len(),
{
    if refs.len() == 0 {
        Seq::empty()
    } else {
        let rest = base_rewrites(remote, refs.drop_last(), guard, allowed);
        let (name, remote_ref) = refs.last();
        if is_foreign_base(name, remote_ref, guard.protected) && is_allowed(
            name,
            guard.explicit,
            guard.configured,
        ) == allowed {
            rest.push((name, remote, remote_ref))
        } else {
            rest
        }
    }
}

pub open spec fn all_base_rewrites(
    groups: Seq<RemotePushView>,
    guard: GuardView,
    allowed: bool,
) -> Seq<MistrackedView>
    decreases groups.len(),
{
    if groups.len() == 0 {
        Seq::empty()
    } else {
        all_base_rewrites(groups.drop_last(), guard, allowed) + base_rewrites(
            groups.last().remote,
            groups.last().refs,
            guard,
            allowed,
        )
    }
}

fn find_base_rewrites(groups: &Vec<RemotePush>, guard: &BaseGuard, allowed: bool) -> (r: Vec<
    Mistracked,
>)
    ensures
        mistracked(r@) == all_base_rewrites(remote_pushes(groups@), guard@, allowed),
{
    let ghost all = remote_pushes(groups@);
    let mut out: Vec<Mistracked> = Vec::new();
    let mut i: usize = 0;
    assert(mistracked(out@) =~= Seq::<MistrackedView>::empty());
    while i < groups.len()
        invariant
            i <= groups@.len(),
            all == remote_pushes(groups@),
            mistracked(out@) == all_base_rewrites(all.take(i as int), guard@, allowed),
        decreases groups@.len() - i,
    {
        let group = &groups[i];
        let ghost refs = push_refs(group.refs@);
        let ghost start = mistracked(out@);
        proof {
            assert(all.take(i + 1).drop_last() =~= all.take(i as int));
            assert(all.take(i + 1).last() == group@);
        }
        let mut k: usize = 0;
        assert(mistracked(out@) =~= start + base_rewrites(
            group.remote@,
            refs.take(0),
            guard@,
            allowed,
        ));
        while k < group.refs.len()
            invariant
                k <= group.refs@.len(),
                refs == push_refs(group.refs@),
                mistracked(out@) == start + base_rewrites(
                    group.remote@,
                    refs.take(k as int),
                    guard@,
                    allowed,
                ),
            decreases group.refs@.len() - k,
        {
            let one = &group.refs[k];
            proof {
                assert(refs.take(k + 1).drop_last() =~= refs.take(k as int));
                assert(refs.take(k + 1).last() == (one.0@, one.1@));
            }
            match crate::commands::push::foreign_base_target(
                one.0.as_str(),
                one.1.as_str(),
                &guard.protected,
            ) {
                Some(base) => {
                    if crate::commands::push::base_push_allowed(
                        one.0.as_str(),
                        &guard.explicit,
                        &guard.configured,
                    ) == allowed {
                        let ghost before = out@;
                        out.push((one.0.clone(), group.remote.clone(), base));
                        assert(mistracked(out@) =~= mistracked(before).push(
                            (one.0@, group.remote@, one.1@),
                        ));
                        assert(mistracked(out@) =~= start + base_rewrites(
                            group.remote@,
                            refs.take(k + 1),
                            guard@,
                            allowed,
                        ));
                    }
                },
                None => {},
            }
            k += 1;
        }
        assert(refs.take(refs.len() as int) =~= refs);
        i += 1;
    }
    assert(all.take(all.len() as int) =~= all);
    out
}

/// What a push of branches comes to.
#[derive(Debug)]
pub enum PushPlan {
    /// There are no branches.
    Nothing,
    /// No branch goes anywhere.
    NoTargets,
    /// Some branches would rewrite a base branch: nothing is pushed.
    Refused(Vec<Mistracked>),
    /// The groups are pushed; the branches that are allowed to rewrite a base branch are named.
    Push(Vec<RemotePush>, Vec<Mistracked>),
}

/// Plans a push: never one that rewrites a base branch with a branch of another name, unless that
/// branch is allowed to.
pub fn perform_push(branches: &Vec<BranchStatus>, guard: &BaseGuard) -> (r: PushPlan)
    ensures
        ({
            let groups = grouped(statuses(branches@));
            let refused = all_base_rewrites(groups, guard@, false);
            match r {
                PushPlan::Nothing => branches@.len() == 0,
                PushPlan::NoTargets => branches@.len() > 0 && groups.len() == 0,
                PushPlan::Refused(v) => refused.len() > 0 && mistracked(v@) == refused,
                PushPlan::Push(g, v) => refused.len() == 0 && groups.len() > 0 && remote_pushes(g@)
                    == groups && mistracked(v@) == all_base_rewrites(groups, guard@, true),
            }
        }),
{
    let groups = group_by_remote(branches);
    assert(remote_pushes(groups@).len() == groups@.len());
    if branches.len() == 0 {
        return PushPlan::Nothing;
    }
    if groups.len() == 0 {
        return PushPlan::NoTargets;
    }
    let refused = find_base_rewrites(&groups, guard, false);
    assert(mistracked(refused@).len() == refused@.len());
    if refused.len() > 0 {
        return PushPlan::Refused(refused);
    }
    let overridden = find_base_rewrites(&groups, guard, true);
    PushPlan::Push(groups, overridden)
}

proof fn lemma_nothing_refused(remote: Seq<char>, refs: Seq<PushRefView>, guard: GuardView, k: int)
    requires
        base_rewrites(remote, refs, guard, false).len() == 0,
        0 <= k < refs.len(),
    ensures
        !guard.refuses(refs[k].0, refs[k].1),
    decreases refs.len(),
{
    if k < refs.len() - 1 {
        assert(refs.drop_last()[k] == refs[k]);
        lemma_nothing_refused(remote, refs.drop_last(), guard, k);
    }
}

/// A push that goes ahead rewrites no base branch with a branch of another name, unless that branch
/// is named on the command line or its own setting allows it.
pub proof fn law_no_base_branch_is_rewritten(
    groups: Seq<RemotePushView>,
    guard: GuardView,
    g: int,
    k: int,
)
    requires
        all_base_rewrites(groups, guard, false).len() == 0,
        0 <= g < groups.len(),
        0 <= k < groups[g].refs.len(),
    ensures
        !guard.refuses(groups[g].refs[k].0, groups[g].refs[k].1),
    decreases groups.len(),
{
    if g < groups.len() - 1 {
        assert(groups.drop_last()[g] == groups[g]);
        law_no_base_branch_is_rewritten(groups.drop_last(), guard, g, k);
    } else {
        lemma_nothing_refused(groups[g].remote, groups[g].refs, guard, k);
    }
}

/// The refspecs of references.
pub open spec fn refspecs(refs: Seq<PushRefView>) -> Seq<Seq<char>> {
    Seq::new(refs.len(), |i: int| refs[i].0 + ":"@ + refs[i].1)
}

/// The words behind `git`.
pub open spec fn push_args_of(
    set_upstream: bool,
    remote: Seq<char>,
    refs: Seq<PushRefView>,
) -> Seq<Seq<char>> {
    let flags = seq!["push"@, "--atomic"@, "--force-with-lease"@, "--force-if-includes"@];
    (if set_upstream {
        flags.push("-u"@)
    } else {
        flags
    }).push(remote) + refspecs(refs)
}

/// How git is called to push references to a remote.
pub fn push_args(set_upstream: bool, remote: &str, refs: &Vec<PushRef>) -> (r: Vec<String>)
    ensures
        strs(r@) == push_args_of(set_upstream, remote@, push_refs(refs@)),
{
    let mut out = if set_upstream {
        list(&["push", "--atomic", "--force-with-lease", "--force-if-includes", "-u", remote])
    } else {
        list(&["push", "--atomic", "--force-with-lease", "--force-if-includes", remote])
    };
    let ghost all = push_refs(refs@);
    let ghost head = strs(out@);
    proof {
        assert(head + refspecs(all) =~= push_args_of(set_upstream, remote@, all));
        assert(head =~= head + refspecs(all).take(0));
    }
    let mut i: usize = 0;
    while i < refs.len()
        invariant
            i <= refs@.len(),
            all == push_refs(refs@),
            strs(out@) == head + refspecs(all).take(i as int),
        decreases refs@.len() - i,
    {
        let spec_text = cat3(refs[i].0.as_str(), ":", refs[i].1.as_str());
        let ghost before = out@;
        out.push(spec_text);
        assert(strs(out@) =~= strs(before).push(spec_text@));
        assert(strs(out@) =~= head + refspecs(all).take(i + 1));
        i += 1;
    }
    assert(refspecs(all).take(all.len() as int) =~= refspecs(all));
    out
}

/// Each name as a reference to the branch of the same name.
pub fn own_refs(names: &Vec<String>) -> (r: Vec<PushRef>)
    ensures
        push_refs(r@) == strs(names@).map_values(|n: Seq<char>| (n, n)),
{
    let mut out: Vec<PushRef> = Vec::new();
    let mut i: usize = 0;
    while i < names.len()
        invariant
            i <= names@.len(),
            push_refs(out@) == strs(names@).map_values(|n: Seq<char>| (n, n)).take(i as int),
        decreases names@.len() - i,
    {
        let ghost before = out@;
        out.push((names[i].clone(), names[i].clone()));
        assert(push_refs(out@) =~= push_refs(before).push((names@[i as int]@, names@[i as int]@)));
        assert(push_refs(out@) =~= strs(names@).map_values(|n: Seq<char>| (n, n)).take(i + 1));
        i += 1;
    }
    assert(push_refs(out@) =~= strs(names@).map_values(|n: Seq<char>| (n, n)));
    out
}

/// A branch that is pushed under its own name rewrites no base branch of another name.
pub proof fn law_own_place_is_never_refused(name: Seq<char>, guard: GuardView)
    ensures
        !guard.refuses(name, name),
{
}

/// The names of the branches that are allowed to rewrite a base branch.
pub open spec fn overriding(v: Seq<MistrackedView>) -> Seq<Seq<char>> {
    Seq::new(v.len(), |i: int| v[i].0)
}

/// What a reference is announced as.
pub open spec fn ref_line(remote: Seq<char>, one: PushRefView, overridden: bool) -> Seq<char> {
    let line = "  "@ + one.0 + " -> "@ + (remote + "/"@ + one.1);
    if overridden {
        line + "  (override: allow-base-push)"@
    } else {
        line
    }
}

pub open spec fn announcement_of(
    remote: Seq<char>,
    refs: Seq<PushRefView>,
    with_upstream: bool,
    overridden: Seq<Seq<char>>,
) -> Seq<Seq<char>> {
    seq![
        "Pushing "@ + dec(refs.len()) + (if with_upstream {
            " branches with upstream to "@
        } else {
            " branches to "@
        }) + remote + "..."@,
    ] + Seq::new(refs.len(), |i: int| ref_line(remote, refs[i], overridden.contains(refs[i].0)))
}

fn has_overriding(v: &Vec<Mistracked>, name: &str) -> (r: bool)
    ensures
        r == overriding(mistracked(v@)).contains(name@),
{
    let ghost all = overriding(mistracked(v@));
    let mut i: usize = 0;
    while i < v.len()
        invariant
            i <= v@.len(),
            all == overriding(mistracked(v@)),
            forall|k: int| 0 <= k < i ==> all[k] != name@,
        decreases v@.len() - i,
    {
        assert(all[i as int] == v@[i as int].0@);
        if same(v[i].0.as_str(), name) {
            return true;
        }
        i += 1;
    }
    false
}

/// What is said before references are pushed to a remote: where each goes, and which are allowed to
/// rewrite a base branch.
pub fn announce_push(
    remote: &str,
    refs: &Vec<PushRef>,
    with_upstream: bool,
    overridden: &Vec<Mistracked>,
) -> (r: Vec<String>)
    ensures
        strs(r@) == announcement_of(
            remote@,
            push_refs(refs@),
            with_upstream,
            overriding(mistracked(overridden@)),
        ),
{
    let ghost all = push_refs(refs@);
    let ghost named = overriding(mistracked(overridden@));
    let ghost lines = Seq::new(
        all.len(),
        |i: int| ref_line(remote@, all[i], named.contains(all[i].0)),
    );
    let mut out: Vec<String> = Vec::new();
    let count = decimal(refs.len() as u64);
    let title = cat5(
        "Pushing ",
        count.as_str(),
        if with_upstream {
            " branches with upstream to "
        } else {
            " branches to "
        },
        remote,
        "...",
    );
    out.push(title);
    let ghost head = strs(out@);
    assert(head =~= seq![title@]);
    assert(head =~= head + lines.take(0));
    let mut i: usize = 0;
    while i < refs.len()
        invariant
            i <= refs@.len(),
            all == push_refs(refs@),
            named == overriding(mistracked(overridden@)),
            lines == Seq::new(
                all.len(),
                |i: int| ref_line(remote@, all[i], named.contains(all[i].0)),
            ),
            strs(out@) == head + lines.take(i as int),
        decreases refs@.len() - i,
    {
        let one = &refs[i];
        let place = cat3(remote, "/", one.1.as_str());
        let plain = cat4("  ", one.0.as_str(), " -> ", place.as_str());
        let line = if has_overriding(overridden, one.0.as_str()) {
            cat2(plain.as_str(), "  (override: allow-base-push)")
        } else {
            plain
        };
        let ghost before = out@;
        out.push(line);
        assert(line@ == lines[i as int]);
        assert(strs(out@) =~= strs(before).push(line@));
        assert(strs(out@) =~= head + lines.take(i + 1));
        i += 1;
    }
    assert(lines.take(all.len() as int) =~= lines);
    out
}

/// The lines of the branches that would rewrite a base branch.
pub open spec fn rewrite_lines(v: Seq<MistrackedView>) -> Seq<char>
    decreases v.len(),
{
    if v.len() == 0 {
        ""@
    } else {
        let (branch, remote, target) = v.last();
        rewrite_lines(v.drop_last()) + ("  "@ + branch + " -> "@ + (remote + "/"@ + target) + (
        " (would overwrite "@ + target + " with "@ + branch + "'s history)\n"@))
    }
}

/// The lines that repoint those branches.
pub open spec fn repoint_lines(v: Seq<MistrackedView>) -> Seq<char>
    decreases v.len(),
{
    if v.len() == 0 {
        ""@
    } else {
        let (branch, remote, _) = v.last();
        repoint_lines(v.drop_last()) + ("  git branch --unset-upstream "@ + branch
            + "   # then re-run, or 'git push -u "@ + remote + (" "@ + branch + "'\n"@))
    }
}

/// How the first of those branches is allowed to rewrite its base branch.
pub open spec fn allow_lines(v: Seq<MistrackedView>) -> Seq<char> {
    if v.len() == 0 {
        ""@
    } else {
        "\nIf a mapping above is deliberate (e.g. maintaining a fork's base branch), allow that\nbranch explicitly: 'kin push --allow-base-push "@
            + v[0].0 + "', or set\n'git config branch."@ + v[0].0 + ".kinAllowBasePush true'.\n"@
    }
}

/// What is said of branches that would rewrite a base branch.
pub open spec fn refusal(v: Seq<MistrackedView>) -> Seq<char> {
    "Refusing to push: these branches track a base branch, so pushing them would force-update it\n"@
        + rewrite_lines(v)
        + "\nThis happens when a branch is created from a base branch's remote ref: git's default\nbranch.autoSetupMerge=true makes 'git switch -c <branch> <remote>/<base>' track <base>.\nRepoint each branch at its own remote branch:\n"@
        + repoint_lines(v) + (allow_lines(v)
        + "\nSetting 'git config --global branch.autoSetupMerge simple' prevents it recurring."@)
}

/// What is said of branches that would rewrite a base branch.
pub fn protected_target_error(v: &Vec<Mistracked>) -> (r: String)
    ensures
        r@ == refusal(mistracked(v@)),
{
    let ghost all = mistracked(v@);
    let mut rewrites = "".to_owned();
    let mut repoints = "".to_owned();
    let mut i: usize = 0;
    while i < v.len()
        invariant
            i <= v@.len(),
            all == mistracked(v@),
            rewrites@ == rewrite_lines(all.take(i as int)),
            repoints@ == repoint_lines(all.take(i as int)),
        decreases v@.len() - i,
    {
        let m = &v[i];
        proof {
            assert(all.take(i + 1).drop_last() =~= all.take(i as int));
            assert(all.take(i + 1).last() == (m.0@, m.1@, m.2@));
        }
        let place = cat3(m.1.as_str(), "/", m.2.as_str());
        let why = cat5(
            " (would overwrite ",
            m.2.as_str(),
            " with ",
            m.0.as_str(),
            "'s history)\n",
        );
        let line = cat5("  ", m.0.as_str(), " -> ", place.as_str(), why.as_str());
        rewrites = cat2(rewrites.as_str(), line.as_str());
        let end = cat3(" ", m.0.as_str(), "'\n");
        let fix = cat5(
            "  git branch --unset-upstream ",
            m.0.as_str(),
            "   # then re-run, or 'git push -u ",
            m.1.as_str(),
            end.as_str(),
        );
        repoints = cat2(repoints.as_str(), fix.as_str());
        i += 1;
    }
    assert(all.take(all.len() as int) =~= all);
    let allow = if v.len() > 0 {
        assert(all[0].0 == v@[0].0@);
        cat5(
            "\nIf a mapping above is deliberate (e.g. maintaining a fork's base branch), allow that\nbranch explicitly: 'kin push --allow-base-push ",
            v[0].0.as_str(),
            "', or set\n'git config branch.",
            v[0].0.as_str(),
            ".kinAllowBasePush true'.\n",
        )
    } else {
        "".to_owned()
    };
    let end = cat2(
        allow.as_str(),
        "\nSetting 'git config --global branch.autoSetupMerge simple' prevents it recurring.",
    );
    cat5(
        "Refusing to push: these branches track a base branch, so pushing them would force-update it\n",
        rewrites.as_str(),
        "\nThis happens when a branch is created from a base branch's remote ref: git's default\nbranch.autoSetupMerge=true makes 'git switch -c <branch> <remote>/<base>' track <base>.\nRepoint each branch at its own remote branch:\n",
        repoints.as_str(),
        end.as_str(),
    )
}

/// The text holds the mark.
pub open spec fn holds(text: Seq<char>, mark: Seq<char>) -> bool {
    find_text_of(text, mark) is Some
}

/// Whether a push failed because a remote did not take a reference that does not follow from its own.
pub fn push_rejected_by_lease(stderr: &str) -> (r: bool)
    ensures
        r == ({
            let text = lower_text(stderr@);
            ||| holds(text, "stale info"@)
            ||| holds(text, "force-with-lease"@)
            ||| holds(text, "force-if-includes"@)
            ||| holds(text, "non-fast-forward"@)
            ||| holds(text, "fetch first"@)
            ||| holds(text, "[rejected]"@)
        }),
{
    let text = to_lower(stderr);
    let t = text.as_str();
    contains_text(t, "stale info") || contains_text(t, "force-with-lease") || contains_text(
        t,
        "force-if-includes",
    ) || contains_text(t, "non-fast-forward") || contains_text(t, "fetch first") || contains_text(
        t,
        "[rejected]",
    )
}

/// How far a branch and its place on a remote are apart.
#[derive(Debug)]
pub enum Divergence {
    /// The commits of the branch and those of the remote that the other one has not.
    Counts(usize, usize),
    /// The remote's branch has not been fetched.
    NotFetched,
    Unknown,
}

/// The line on one branch.
pub open spec fn divergence_line(remote: Seq<char>, one: PushRefView, d: Divergence) -> Seq<char> {
    let place = remote + "/"@ + one.1;
    match d {
        Divergence::Counts(ahead, behind) => "  "@ + one.0 + (": ↑"@ + dec(ahead as nat) + " ↓"@
            + dec(behind as nat)) + " vs "@ + place,
        Divergence::NotFetched => "  "@ + one.0 + ": no local remote-tracking ref for "@ + place
            + " yet"@,
        Divergence::Unknown => "  "@ + one.0 + ": could not compute divergence"@,
    }
}

/// The line on one branch.
pub fn divergence_text(remote: &str, one: &PushRef, d: &Divergence) -> (r: String)
    ensures
        r@ == divergence_line(remote@, (one.0@, one.1@), *d),
{
    let place = cat3(remote, "/", one.1.as_str());
    match d {
        Divergence::Counts(ahead, behind) => {
            let a = decimal(*ahead as u64);
            let b = decimal(*behind as u64);
            let counts = cat4(": ↑", a.as_str(), " ↓", b.as_str());
            cat5("  ", one.0.as_str(), counts.as_str(), " vs ", place.as_str())
        },
        Divergence::NotFetched => cat5(
            "  ",
            one.0.as_str(),
            ": no local remote-tracking ref for ",
            place.as_str(),
            " yet",
        ),
        Divergence::Unknown => cat3("  ", one.0.as_str(), ": could not compute divergence"),
    }
}

/// What is said when a remote rejects a push, before and behind the lines on the branches.
pub open spec fn rejection_head(remote: Seq<char>) -> Seq<Seq<char>> {
    seq![
        ""@,
        "Push to '"@ + remote
            + "' was rejected. Kindra uses --force-with-lease --force-if-includes, which"@,
        "refuses to overwrite remote commits that are not in your local history."@,
        "Per-branch status (local vs last-fetched "@ + remote + "/…):"@,
    ]
}

pub open spec fn rejection_tail(remote: Seq<char>) -> Seq<Seq<char>> {
    seq![
        ""@,
        "The remote likely advanced (a teammate pushed, or GitHub's \"Update branch\" was used)."@,
        "Run 'git fetch "@ + remote
            + "', rebase your stack onto the updated base (e.g. 'kin sync'), then push again."@,
    ]
}

/// What is said when a remote rejects a push; `divergences` go with the references one by one.
pub fn report_push_divergence(
    remote: &str,
    refs: &Vec<PushRef>,
    divergences: &Vec<Divergence>,
) -> (r: Vec<String>)
    requires
        divergences@.len() == refs@.len(),
    ensures
        strs(r@) == rejection_head(remote@) + Seq::new(
            refs@.len(),
            |i: int| divergence_line(remote@, push_refs(refs@)[i], divergences@[i]),
        ) + rejection_tail(remote@),
{
    let ghost lines = Seq::new(
        refs@.len(),
        |i: int| divergence_line(remote@, push_refs(refs@)[i], divergences@[i]),
    );
    let first = cat3(
        "Push to '",
        remote,
        "' was rejected. Kindra uses --force-with-lease --force-if-includes, which",
    );
    let status = cat3("Per-branch status (local vs last-fetched ", remote, "/…):");
    let mut out = list(
        &[
            "",
            first.as_str(),
            "refuses to overwrite remote commits that are not in your local history.",
            status.as_str(),
        ],
    );
    let ghost head = strs(out@);
    assert(head =~= rejection_head(remote@));
    assert(head =~= head + lines.take(0));
    let mut i: usize = 0;
    while i < refs.len()
        invariant
            i <= refs@.len(),
            divergences@.len() == refs@.len(),
            lines == Seq::new(
                refs@.len(),
                |i: int| divergence_line(remote@, push_refs(refs@)[i], divergences@[i]),
            ),
            strs(out@) == head + lines.take(i as int),
        decreases refs@.len() - i,
    {
        let line = divergence_text(remote, &refs[i], &divergences[i]);
        let ghost before = out@;
        out.push(line);
        assert(line@ == lines[i as int]);
        assert(strs(out@) =~= strs(before).push(line@));
        assert(strs(out@) =~= head + lines.take(i + 1));
        i += 1;
    }
    assert(lines.take(lines.len() as int) =~= lines);
    let last = cat3(
        "Run 'git fetch ",
        remote,
        "', rebase your stack onto the updated base (e.g. 'kin sync'), then push again.",
    );
    let mut tail = list(
        &[
            "",
            "The remote likely advanced (a teammate pushed, or GitHub's \"Update branch\" was used).",
            last.as_str(),
        ],
    );
    let ghost middle = out@;
    let ghost end = tail@;
    assert(strs(end) =~= rejection_tail(remote@));
    out.append(&mut tail);
    assert(strs(out@) =~= strs(middle) + strs(end));
    out
}

} // verus!
