//! `kin push`: which branch goes where, and the guard that keeps a base branch from being rewritten
//! by another one.

use crate::text::{cat2, cat3, cat4, has_text, less, opt_string, same, strip_prefix, strs, text_lt};
use vstd::prelude::*;

verus! {

/// The options of `kin push`.
#[derive(Debug, Default)]
pub struct PushArgs {
    /// The branches that may rewrite the base branch that they track.
    pub allow_base_push: Vec<String>,
}

/// The base branch that a branch tracks, and the remote that it lives on.
#[derive(Debug)]
pub struct BaseTracking {
    pub base: String,
    pub remote: String,
}

/// A branch and where it is pushed to.
#[derive(Debug)]
pub struct BranchStatus {
    pub name: String,
    pub tracked_remote: Option<String>,
    pub tracked_ref: Option<String>,
    pub display_upstream: Option<String>,
    /// The base branch that it tracks by mistake.
    pub tracks_base: Option<BaseTracking>,
}

#[verifier::ext_equal]
pub struct StatusView {
    pub name: Seq<char>,
    pub remote: Option<Seq<char>>,
    pub remote_ref: Option<Seq<char>>,
    pub display: Option<Seq<char>>,
    pub base: Option<(Seq<char>, Seq<char>)>,
}

impl View for BranchStatus {
    type V = StatusView;

    open spec fn view(&self) -> StatusView {
        StatusView {
            name: self.name@,
            remote: opt_string(self.tracked_remote),
            remote_ref: opt_string(self.tracked_ref),
            display: opt_string(self.display_upstream),
            base: match self.tracks_base {
                Some(t) => Some((t.base@, t.remote@)),
                None => None,
            },
        }
    }
}

/// The views of statuses.
pub open spec fn statuses(v: Seq<BranchStatus>) -> Seq<StatusView> {
    Seq::new(v.len(), |i: int| v[i]@)
}

/// A branch that goes to `remote_ref` on `remote`.
pub open spec fn going_to(name: Seq<char>, remote: Seq<char>, remote_ref: Seq<char>) -> StatusView {
    StatusView {
        name,
        remote: Some(remote),
        remote_ref: Some(remote_ref),
        display: Some(remote + "/"@ + remote_ref),
        base: None,
    }
}

/// A branch that goes nowhere yet.
pub open spec fn going_nowhere(name: Seq<char>) -> StatusView {
    StatusView { name, remote: None, remote_ref: None, display: None, base: None }
}

/// A branch that tracks a base branch by mistake.
pub open spec fn going_wrong(name: Seq<char>, base: Seq<char>, remote: Seq<char>) -> StatusView {
    StatusView {
        name,
        remote: None,
        remote_ref: None,
        display: None,
        base: Some((base, remote)),
    }
}

/// The push would put the branch in the place of a protected branch of another name.
pub open spec fn is_foreign_base(
    name: Seq<char>,
    remote_ref: Seq<char>,
    protected: Seq<Seq<char>>,
) -> bool {
    remote_ref != name && protected.contains(remote_ref)
}

/// The base branch that a push to `remote_ref` would rewrite with another branch.
pub fn foreign_base_target(name: &str, remote_ref: &str, protected: &Vec<String>) -> (r: Option<
    String,
>)
    ensures
        match r {
            Some(base) => is_foreign_base(name@, remote_ref@, strs(protected@)) && base@
                == remote_ref@,
            None => !is_foreign_base(name@, remote_ref@, strs(protected@)),
        },
{
    if !same(name, remote_ref) && has_text(protected, remote_ref) {
        Some(remote_ref.to_owned())
    } else {
        None
    }
}

/// The remote and the base branch that the status would rewrite.
pub open spec fn protected_target_of(s: StatusView, protected: Seq<Seq<char>>) -> Option<
    (Seq<char>, Seq<char>),
> {
    match (s.remote, s.remote_ref) {
        (Some(remote), Some(remote_ref)) => if is_foreign_base(s.name, remote_ref, protected) {
            Some((remote, remote_ref))
        } else {
            None
        },
        _ => None,
    }
}

/// What a status reads like in a list.
pub open spec fn status_line(s: StatusView) -> Seq<char> {
    match s.base {
        Some((base, remote)) => s.name + " (tracks base branch '"@ + (remote + "/"@ + base)
            + "' — select to repoint at its own remote branch)"@,
        None => match s.display {
            Some(u) => s.name + " -> "@ + u,
            None => s.name + " (no upstream)"@,
        },
    }
}

fn copy_opt_text(s: &Option<String>) -> (r: Option<String>)
    ensures
        opt_string(r) == opt_string(*s),
{
    crate::text::copy_opt(s)
}

impl BranchStatus {
    pub fn with_upstream(name: String, remote: &str, remote_ref: &str) -> (r: BranchStatus)
        ensures
            r@ == going_to(name@, remote@, remote_ref@),
    {
        BranchStatus {
            name,
            tracked_remote: Some(remote.to_owned()),
            tracked_ref: Some(remote_ref.to_owned()),
            display_upstream: Some(cat3(remote, "/", remote_ref)),
            tracks_base: None,
        }
    }

    pub fn without_upstream(name: String) -> (r: BranchStatus)
        ensures
            r@ == going_nowhere(name@),
    {
        BranchStatus {
            name,
            tracked_remote: None,
            tracked_ref: None,
            display_upstream: None,
            tracks_base: None,
        }
    }

    pub fn tracking_base(name: String, base: &str, remote: &str) -> (r: BranchStatus)
        ensures
            r@ == going_wrong(name@, base@, remote@),
    {
        BranchStatus {
            name,
            tracked_remote: None,
            tracked_ref: None,
            display_upstream: None,
            tracks_base: Some(BaseTracking { base: base.to_owned(), remote: remote.to_owned() }),
        }
    }

    /// The remote and the base branch that a push to the tracked place would rewrite.
    pub fn protected_target(&self, protected: &Vec<String>) -> (r: Option<(String, String)>)
        ensures
            protected_target_of(self@, strs(protected@)) == match r {
                Some((remote, base)) => Some((remote@, base@)),
                None => None,
            },
    {
        match (&self.tracked_remote, &self.tracked_ref) {
            (Some(remote), Some(remote_ref)) => match foreign_base_target(
                self.name.as_str(),
                remote_ref.as_str(),
                protected,
            ) {
                Some(base) => Some((remote.clone(), base)),
                None => None,
            },
            _ => None,
        }
    }

    pub fn line(&self) -> (r: String)
        ensures
            r@ == status_line(self@),
    {
        match &self.tracks_base {
            Some(t) => {
                let place = cat3(t.remote.as_str(), "/", t.base.as_str());
                cat4(
                    self.name.as_str(),
                    " (tracks base branch '",
                    place.as_str(),
                    "' — select to repoint at its own remote branch)",
                )
            },
            None => match &self.display_upstream {
                Some(u) => cat3(self.name.as_str(), " -> ", u.as_str()),
                None => cat2(self.name.as_str(), " (no upstream)"),
            },
        }
    }

    pub fn copy(&self) -> (r: BranchStatus)
        ensures
            r@ == self@,
    {
        BranchStatus {
            name: self.name.clone(),
            tracked_remote: copy_opt_text(&self.tracked_remote),
            tracked_ref: copy_opt_text(&self.tracked_ref),
            display_upstream: copy_opt_text(&self.display_upstream),
            tracks_base: match &self.tracks_base {
                Some(t) => Some(BaseTracking { base: t.base.clone(), remote: t.remote.clone() }),
                None => None,
            },
        }
    }
}

/// The setting by which a branch may rewrite the base branch that it tracks.
pub fn allow_base_push_key(branch: &str) -> (r: String)
    ensures
        r@ == "branch."@ + branch@ + ".kinAllowBasePush"@,
{
    cat3("branch.", branch, ".kinAllowBasePush")
}

/// The branch may rewrite the base branch that it tracks: it is named on the command line, or its
/// own setting says so.
pub open spec fn is_allowed(
    branch: Seq<char>,
    explicit: Seq<Seq<char>>,
    configured: Seq<Seq<char>>,
) -> bool {
    explicit.contains(branch) || configured.contains(branch)
}

/// Whether a branch may rewrite the base branch that it tracks. `configured` are the branches whose
/// own setting says so.
pub fn base_push_allowed(branch: &str, explicit: &Vec<String>, configured: &Vec<String>) -> (r: bool)
    ensures
        r == is_allowed(branch@, strs(explicit@), strs(configured@)),
{
    has_text(explicit, branch) || has_text(configured, branch)
}

/// The name on the remote of the branch that a reference follows.
pub open spec fn remote_ref_of(upstream_ref: Seq<char>, remote: Seq<char>) -> Seq<char> {
    let tracking = "refs/remotes/"@ + remote + "/"@;
    if tracking.is_prefix_of(upstream_ref) {
        upstream_ref.skip(tracking.len() as int)
    } else if "refs/heads/"@.is_prefix_of(upstream_ref) {
        upstream_ref.skip("refs/heads/"@.len() as int)
    } else {
        upstream_ref
    }
}

/// Where a branch goes that follows `upstream_ref`, shown as `display`, on `remote`.
pub fn tracked_push_target(
    local_name: &str,
    upstream_ref: &str,
    display: Option<String>,
    remote: &str,
) -> (r: BranchStatus)
    ensures
        r@ == (StatusView {
            name: local_name@,
            remote: Some(remote@),
            remote_ref: Some(remote_ref_of(upstream_ref@, remote@)),
            display: match opt_string(display) {
                Some(d) => Some(d),
                None => Some(upstream_ref@),
            },
            base: None,
        }),
{
    let tracking = cat3("refs/remotes/", remote, "/");
    let remote_ref = match strip_prefix(upstream_ref, tracking.as_str()) {
        Some(rest) => rest,
        None => match strip_prefix(upstream_ref, "refs/heads/") {
            Some(rest) => rest,
            None => upstream_ref.to_owned(),
        },
    };
    BranchStatus {
        name: local_name.to_owned(),
        tracked_remote: Some(remote.to_owned()),
        tracked_ref: Some(remote_ref),
        display_upstream: match display {
            Some(d) => Some(d),
            None => Some(upstream_ref.to_owned()),
        },
        tracks_base: None,
    }
}

/// A branch, the remote that it would go to, and the base branch that it would rewrite there.
pub type Mistracked = (String, String, String);

pub type MistrackedView = (Seq<char>, Seq<char>, Seq<char>);

pub open spec fn mistracked(v: Seq<Mistracked>) -> Seq<MistrackedView> {
    Seq::new(v.len(), |i: int| (v[i].0@, v[i].1@, v[i].2@))
}

/// A branch of the stack and its tracked place, where it has one.
pub type BranchTarget = (String, Option<BranchStatus>);

pub type BranchTargetView = (Seq<char>, Option<StatusView>);

pub open spec fn tracked_views(v: Seq<BranchTarget>) -> Seq<BranchTargetView> {
    Seq::new(
        v.len(),
        |i: int|
            (
                v[i].0@,
                match v[i].1 {
                    Some(s) => Some(s@),
                    None => None,
                },
            ),
    )
}

/// The branches of a stack: those that go where they track, those that have no place of their own,
/// and those of the latter that track a base branch.
#[derive(Debug)]
pub struct PushChoice {
    pub to_push: Vec<BranchStatus>,
    pub without_upstream: Vec<BranchStatus>,
    pub tracking_base: Vec<Mistracked>,
}

#[verifier::ext_equal]
pub struct ChoiceView {
    pub to_push: Seq<StatusView>,
    pub without_upstream: Seq<StatusView>,
    pub tracking_base: Seq<MistrackedView>,
}

impl View for PushChoice {
    type V = ChoiceView;

    open spec fn view(&self) -> ChoiceView {
        ChoiceView {
            to_push: statuses(self.to_push@),
            without_upstream: statuses(self.without_upstream@),
            tracking_base: mistracked(self.tracking_base@),
        }
    }
}

/// Who may rewrite what: the protected branches, the branches that are named on the command line,
/// and those whose own setting allows it.
pub struct GuardView {
    pub protected: Seq<Seq<char>>,
    pub explicit: Seq<Seq<char>>,
    pub configured: Seq<Seq<char>>,
}

/// The protected branches, and the branches that may rewrite one.
#[derive(Debug)]
pub struct BaseGuard {
    pub protected: Vec<String>,
    pub explicit: Vec<String>,
    pub configured: Vec<String>,
}

impl View for BaseGuard {
    type V = GuardView;

    open spec fn view(&self) -> GuardView {
        GuardView {
            protected: strs(self.protected@),
            explicit: strs(self.explicit@),
            configured: strs(self.configured@),
        }
    }
}

impl GuardView {
    /// The push would rewrite a base branch, and nothing allows that.
    pub open spec fn refuses(self, name: Seq<char>, remote_ref: Seq<char>) -> bool {
        is_foreign_base(name, remote_ref, self.protected) && !is_allowed(
            name,
            self.explicit,
            self.configured,
        )
    }
}

impl BaseGuard {
    /// Whether a push of that branch to that place is refused.
    pub fn refuses(&self, name: &str, remote_ref: &str) -> (r: bool)
        ensures
            r == self@.refuses(name@, remote_ref@),
    {
        foreign_base_target(name, remote_ref, &self.protected).is_some() && !base_push_allowed(
            name,
            &self.explicit,
            &self.configured,
        )
    }
}

/// Where each branch of the stack goes.
pub open spec fn sorted_out(v: Seq<BranchTargetView>, guard: GuardView) -> ChoiceView
    decreases v.len(),
{
    if v.len() == 0 {
        ChoiceView {
            to_push: Seq::empty(),
            without_upstream: Seq::empty(),
            tracking_base: Seq::empty(),
        }
    } else {
        let c = sorted_out(v.drop_last(), guard);
        let (name, target) = v.last();
        match target {
            None => ChoiceView { without_upstream: c.without_upstream.push(going_nowhere(name)), ..c },
            Some(s) => match protected_target_of(s, guard.protected) {
                Some((remote, base)) => if is_allowed(name, guard.explicit, guard.configured) {
                    ChoiceView { to_push: c.to_push.push(s), ..c }
                } else {
                    ChoiceView {
                        without_upstream: c.without_upstream.push(going_wrong(name, base, remote)),
                        tracking_base: c.tracking_base.push((name, remote, base)),
                        ..c
                    }
                },
                None => ChoiceView { to_push: c.to_push.push(s), ..c },
            },
        }
    }
}

/// Sorts out the branches of a stack.
pub fn sort_out(branches: &Vec<BranchTarget>, guard: &BaseGuard) -> (r: PushChoice)
    ensures
        r@ == sorted_out(tracked_views(branches@), guard@),
{
    let ghost all = tracked_views(branches@);
    let mut c = PushChoice {
        to_push: Vec::new(),
        without_upstream: Vec::new(),
        tracking_base: Vec::new(),
    };
    let mut i: usize = 0;
    assert(c@ =~= sorted_out(all.take(0), guard@));
    while i < branches.len()
        invariant
            i <= branches@.len(),
            all == tracked_views(branches@),
            c@ == sorted_out(all.take(i as int), guard@),
        decreases branches@.len() - i,
    {
        let name = &branches[i].0;
        proof {
            assert(all.take(i + 1).drop_last() =~= all.take(i as int));
            assert(all.take(i + 1).last() == all[i as int]);
        }
        let ghost push = c.to_push@;
        let ghost without = c.without_upstream@;
        let ghost wrong = c.tracking_base@;
        match &branches[i].1 {
            None => {
                c.without_upstream.push(BranchStatus::without_upstream(name.clone()));
                assert(statuses(c.without_upstream@) =~= statuses(without).push(
                    going_nowhere(name@),
                ));
            },
            Some(s) => {
                match s.protected_target(&guard.protected) {
                    Some((remote, base)) => {
                        if base_push_allowed(name.as_str(), &guard.explicit, &guard.configured) {
                            c.to_push.push(s.copy());
                            assert(statuses(c.to_push@) =~= statuses(push).push(s@));
                        } else {
                            c.without_upstream.push(
                                BranchStatus::tracking_base(
                                    name.clone(),
                                    base.as_str(),
                                    remote.as_str(),
                                ),
                            );
                            assert(statuses(c.without_upstream@) =~= statuses(without).push(
                                going_wrong(name@, base@, remote@),
                            ));
                            c.tracking_base.push((name.clone(), remote, base));
                            assert(mistracked(c.tracking_base@) =~= mistracked(wrong).push(
                                (name@, remote@, base@),
                            ));
                        }
                    },
                    None => {
                        c.to_push.push(s.copy());
                        assert(statuses(c.to_push@) =~= statuses(push).push(s@));
                    },
                }
            },
        }
        assert(c@ =~= sorted_out(all.take(i + 1), guard@));
        i += 1;
    }
    assert(all.take(all.len() as int) =~= all);
    c
}

/// The number of statuses at the front whose name does not come behind `name`.
pub open spec fn place_of(v: Seq<StatusView>, name: Seq<char>) -> int
    decreases v.len(),
{
    if v.len() == 0 || !text_lt(name, v.last().name) {
        v.len() as int
    } else {
        place_of(v.drop_last(), name)
    }
}

/// The statuses by name; those of one name stay in their order.
pub open spec fn by_name(v: Seq<StatusView>) -> Seq<StatusView>
    decreases v.len(),
{
    if v.len() == 0 {
        Seq::empty()
    } else {
        let rest = by_name(v.drop_last());
        rest.insert(place_of(rest, v.last().name), v.last())
    }
}

proof fn lemma_place_of(v: Seq<StatusView>, name: Seq<char>)
    ensures
        0 <= place_of(v, name) <= v.len(),
    decreases v.len(),
{
    if v.len() > 0 {
        lemma_place_of(v.drop_last(), name);
    }
}

fn sort_by_name(v: &Vec<BranchStatus>) -> (r: Vec<BranchStatus>)
    ensures
        statuses(r@) == by_name(statuses(v@)),
{
    let ghost all = statuses(v@);
    let mut out: Vec<BranchStatus> = Vec::new();
    let mut i: usize = 0;
    assert(statuses(out@) =~= Seq::<StatusView>::empty());
    while i < v.len()
        invariant
            i <= v@.len(),
            all == statuses(v@),
            statuses(out@) == by_name(all.take(i as int)),
        decreases v@.len() - i,
    {
        let ghost sorted = statuses(out@);
        proof {
            assert(all.take(i + 1).drop_last() =~= all.take(i as int));
            assert(all.take(i + 1).last() == v@[i as int]@);
            lemma_place_of(sorted, v@[i as int].name@);
        }
        let mut at: usize = out.len();
        assert(sorted.take(at as int) =~= sorted);
        while at > 0 && less(v[i].name.as_str(), out[at - 1].name.as_str())
            invariant
                i < v@.len(),
                at <= out@.len(),
                sorted == statuses(out@),
                place_of(sorted, v@[i as int].name@) == place_of(
                    sorted.take(at as int),
                    v@[i as int].name@,
                ),
            decreases at,
        {
            assert(sorted.take(at as int).drop_last() =~= sorted.take(at - 1));
            assert(sorted.take(at as int).last() == out@[at - 1]@);
            at -= 1;
        }
        proof {
            if at > 0 {
                assert(sorted.take(at as int).last() == out@[at - 1]@);
            }
        }
        let ghost before = out@;
        out.insert(at, v[i].copy());
        assert(statuses(out@) =~= sorted.insert(at as int, v@[i as int]@));
        i += 1;
    }
    assert(all.take(all.len() as int) =~= all);
    out
}

proof fn lemma_insert_keeps_order(v: Seq<StatusView>, x: StatusView)
    requires
        forall|i: int, j: int|
            0 <= i < j < v.len() ==> !text_lt((#[trigger] v[j]).name, (#[trigger] v[i]).name),
    ensures
        ({
            let at = place_of(v, x.name);
            &&& 0 <= at <= v.len()
            &&& forall|i: int| 0 <= i < at ==> !text_lt(x.name, (#[trigger] v[i]).name)
            &&& forall|i: int| at <= i < v.len() ==> text_lt(x.name, (#[trigger] v[i]).name)
        }),
    decreases v.len(),
{
    if v.len() > 0 {
        let rest = v.drop_last();
        if text_lt(x.name, v.last().name) {
            assert forall|i: int, j: int| 0 <= i < j < rest.len() implies !text_lt(
                (#[trigger] rest[j]).name,
                (#[trigger] rest[i]).name,
            ) by {
                assert(rest[j] == v[j] && rest[i] == v[i]);
            }
            lemma_insert_keeps_order(rest, x);
            let at = place_of(rest, x.name);
            assert forall|i: int| 0 <= i < at implies !text_lt(x.name, (#[trigger] v[i]).name) by {
                assert(rest[i] == v[i]);
            }
            assert forall|i: int| at <= i < v.len() implies text_lt(
                x.name,
                (#[trigger] v[i]).name,
            ) by {
                if i < rest.len() {
                    assert(rest[i] == v[i]);
                }
            }
        } else {
            assert forall|i: int| 0 <= i < v.len() implies !text_lt(
                x.name,
                (#[trigger] v[i]).name,
            ) by {
                if i < v.len() - 1 && text_lt(x.name, v[i].name) {
                    let last = v[v.len() - 1];
                    assert(!text_lt(last.name, v[i].name));
                    crate::text::lemma_text_lt_total(v[i].name, last.name);
                    if text_lt(v[i].name, last.name) {
                        crate::text::lemma_text_lt_transitive(x.name, v[i].name, last.name);
                    }
                }
            }
        }
    }
}

/// The list to choose from is in the order of the names, and holds the branches without a place of
/// their own and nothing else.
pub proof fn law_choices_are_in_order(v: Seq<StatusView>)
    ensures
        forall|i: int, j: int|
            0 <= i < j < by_name(v).len() ==> !text_lt(
                (#[trigger] by_name(v)[j]).name,
                (#[trigger] by_name(v)[i]).name,
            ),
        by_name(v).to_multiset() == v.to_multiset(),
    decreases v.len(),
{
    if v.len() == 0 {
        assert(by_name(v) =~= v);
    } else {
        let rest = by_name(v.drop_last());
        let x = v.last();
        law_choices_are_in_order(v.drop_last());
        lemma_insert_keeps_order(rest, x);
        let at = place_of(rest, x.name);
        let all = by_name(v);
        assert(all == rest.insert(at, x));
        assert forall|i: int, j: int| 0 <= i < j < all.len() implies !text_lt(
            (#[trigger] all[j]).name,
            (#[trigger] all[i]).name,
        ) by {
            let k = if i < at {
                i
            } else {
                i - 1
            };
            let m = if j < at {
                j
            } else {
                j - 1
            };
            if i == at {
                assert(all[j] == rest[j - 1]);
                if text_lt(rest[j - 1].name, x.name) {
                    crate::text::lemma_text_lt_transitive(x.name, rest[j - 1].name, x.name);
                    crate::text::lemma_text_lt_irreflexive(x.name);
                }
            } else if j == at {
                assert(all[i] == rest[i]);
            } else {
                assert(all[i] == rest[k] && all[j] == rest[m]);
            }
        }
        broadcast use vstd::seq_lib::group_to_multiset_ensures;

        assert(v =~= v.drop_last().push(x));
        assert(all.to_multiset() =~= rest.to_multiset().insert(x));
    }
}

/// What a push begins with.
#[derive(Debug)]
pub enum PushStart {
    /// There is nothing to push.
    Nothing,
    /// All branches go where they track.
    Push(Vec<BranchStatus>),
    /// The user chooses among the branches without a place of their own.
    Ask(PushChoice),
}

/// Begins the push of a stack.
pub fn push_stack_branches(branches: &Vec<BranchTarget>, guard: &BaseGuard) -> (r: PushStart)
    ensures
        ({
            let c = sorted_out(tracked_views(branches@), guard@);
            match r {
                PushStart::Nothing => c.to_push.len() == 0 && c.without_upstream.len() == 0,
                PushStart::Push(v) => c.without_upstream.len() == 0 && c.to_push.len() > 0
                    && statuses(v@) == c.to_push,
                PushStart::Ask(choice) => c.without_upstream.len() > 0 && choice@ == (ChoiceView {
                    without_upstream: by_name(c.without_upstream),
                    ..c
                }),
            }
        }),
{
    let c = sort_out(branches, guard);
    assert(statuses(c.to_push@).len() == c.to_push@.len());
    assert(statuses(c.without_upstream@).len() == c.without_upstream@.len());
    if c.to_push.len() == 0 && c.without_upstream.len() == 0 {
        PushStart::Nothing
    } else if c.without_upstream.len() == 0 {
        PushStart::Push(c.to_push)
    } else {
        let options = sort_by_name(&c.without_upstream);
        PushStart::Ask(
            PushChoice {
                to_push: c.to_push,
                without_upstream: options,
                tracking_base: c.tracking_base,
            },
        )
    }
}

/// The branches that track a base branch and were not chosen.
pub open spec fn unfixed_of(v: Seq<MistrackedView>, selected: Seq<Seq<char>>) -> Seq<MistrackedView>
    decreases v.len(),
{
    if v.len() == 0 {
        Seq::empty()
    } else if selected.contains(v.last().0) {
        unfixed_of(v.drop_last(), selected)
    } else {
        unfixed_of(v.drop_last(), selected).push(v.last())
    }
}

/// The statuses whose branches are not among the names.
pub open spec fn not_among(v: Seq<StatusView>, names: Seq<Seq<char>>) -> Seq<StatusView>
    decreases v.len(),
{
    if v.len() == 0 {
        Seq::empty()
    } else if v.last().remote_ref is Some && !names.contains(v.last().name) {
        not_among(v.drop_last(), names).push(v.last())
    } else {
        not_among(v.drop_last(), names)
    }
}

/// What follows the choice.
#[derive(Debug)]
pub enum PushNext {
    /// Branches that track a base branch were left as they are: nothing is pushed.
    Refused(Vec<Mistracked>),
    NothingSelected,
    /// The chosen branches are pushed under their own names, then the others where they track.
    Push(Vec<BranchStatus>),
}

fn find_unfixed(v: &Vec<Mistracked>, selected: &Vec<String>) -> (r: Vec<Mistracked>)
    ensures
        mistracked(r@) == unfixed_of(mistracked(v@), strs(selected@)),
{
    let ghost all = mistracked(v@);
    let mut out: Vec<Mistracked> = Vec::new();
    let mut i: usize = 0;
    assert(mistracked(out@) =~= Seq::<MistrackedView>::empty());
    while i < v.len()
        invariant
            i <= v@.len(),
            all == mistracked(v@),
            mistracked(out@) == unfixed_of(all.take(i as int), strs(selected@)),
        decreases v@.len() - i,
    {
        let m = &v[i];
        proof {
            assert(all.take(i + 1).drop_last() =~= all.take(i as int));
            assert(all.take(i + 1).last() == (m.0@, m.1@, m.2@));
        }
        if !has_text(selected, m.0.as_str()) {
            let ghost before = out@;
            out.push((m.0.clone(), m.1.clone(), m.2.clone()));
            assert(mistracked(out@) =~= mistracked(before).push((m.0@, m.1@, m.2@)));
        }
        i += 1;
    }
    assert(all.take(all.len() as int) =~= all);
    out
}

fn keep_others(v: &Vec<BranchStatus>, names: &Vec<String>) -> (r: Vec<BranchStatus>)
    ensures
        statuses(r@) == not_among(statuses(v@), strs(names@)),
{
    let ghost all = statuses(v@);
    let mut out: Vec<BranchStatus> = Vec::new();
    let mut i: usize = 0;
    assert(statuses(out@) =~= Seq::<StatusView>::empty());
    while i < v.len()
        invariant
            i <= v@.len(),
            all == statuses(v@),
            statuses(out@) == not_among(all.take(i as int), strs(names@)),
        decreases v@.len() - i,
    {
        proof {
            assert(all.take(i + 1).drop_last() =~= all.take(i as int));
            assert(all.take(i + 1).last() == v@[i as int]@);
        }
        if v[i].tracked_ref.is_some() && !has_text(names, v[i].name.as_str()) {
            let ghost before = out@;
            out.push(v[i].copy());
            assert(statuses(out@) =~= statuses(before).push(v@[i as int]@));
        }
        i += 1;
    }
    assert(all.take(all.len() as int) =~= all);
    out
}

/// Goes on after the user has chosen branches that get a place of their own.
pub fn after_selection(choice: &PushChoice, selected: &Vec<String>) -> (r: PushNext)
    ensures
        ({
            let unfixed = unfixed_of(choice@.tracking_base, strs(selected@));
            match r {
                PushNext::Refused(v) => unfixed.len() > 0 && mistracked(v@) == unfixed,
                PushNext::NothingSelected => unfixed.len() == 0 && selected@.len() == 0
                    && choice@.to_push.len() == 0,
                PushNext::Push(v) => unfixed.len() == 0 && (selected@.len() > 0
                    || choice@.to_push.len() > 0) && statuses(v@) == not_among(
                    choice@.to_push,
                    strs(selected@),
                ),
            }
        }),
{
    let unfixed = find_unfixed(&choice.tracking_base, selected);
    assert(mistracked(unfixed@).len() == unfixed@.len());
    assert(statuses(choice.to_push@).len() == choice.to_push@.len());
    if unfixed.len() > 0 {
        PushNext::Refused(unfixed)
    } else if selected.len() == 0 && choice.to_push.len() == 0 {
        PushNext::NothingSelected
    } else {
        PushNext::Push(keep_others(&choice.to_push, selected))
    }
}

/// Why there is no remote to push to.
#[derive(Debug)]
pub enum RemoteError {
    NoRemote,
    Ambiguous,
}

impl RemoteError {
    pub open spec fn text(self) -> Seq<char> {
        match self {
            RemoteError::NoRemote => "No remotes configured."@,
            RemoteError::Ambiguous =>
                "'origin' remote not found and multiple remotes exist. Please specify a remote or rename one to 'origin'."@,
        }
    }

    pub fn message(&self) -> (r: String)
        ensures
            r@ == self.text(),
    {
        match self {
            RemoteError::NoRemote => "No remotes configured.".to_owned(),
            RemoteError::Ambiguous =>
                "'origin' remote not found and multiple remotes exist. Please specify a remote or rename one to 'origin'.".to_owned(),
        }
    }
}

/// The remote for branches without a place of their own: `origin`, or else the only one.
pub fn resolve_remote(remotes: &Vec<String>) -> (r: Result<String, RemoteError>)
    ensures
        ({
            let all = strs(remotes@);
            match r {
                Ok(s) => if all.contains("origin"@) {
                    s@ == "origin"@
                } else {
                    all.len() == 1 && s@ == all[0]
                },
                Err(RemoteError::NoRemote) => all.len() == 0,
                Err(RemoteError::Ambiguous) => !all.contains("origin"@) && all.len() >= 2,
            }
        }),
{
    assert(strs(remotes@).len() == remotes@.len());
    if has_text(remotes, "origin") {
        Ok("origin".to_owned())
    } else if remotes.len() == 1 {
        assert(strs(remotes@)[0] == remotes@[0]@);
        Ok(remotes[0].clone())
    } else if remotes.len() == 0 {
        Err(RemoteError::NoRemote)
    } else {
        Err(RemoteError::Ambiguous)
    }
}

} // verus!
