//! What `kin split` does to the branches, and how it is taken back.

use crate::commands::split::{first_of, has_first, pairs};
use crate::commands::split_changes::{
    action_for, change_for, changes_of, lemma_change_of_row, placed_view, placed_views,
    split_changes, tips_now, BranchChange, PlacedView, SplitAction,
};
use crate::head::{head_branch, Head, HeadAt, RepoView};
use crate::names::{text_map, NameMap};
use crate::text::{copy_opt, copy_texts, has_text, is_text, opt_string, same, strs};
use vstd::prelude::*;

verus! {

/// The branches of the path that the edited text no longer names, each once.
pub open spec fn dropped(initial: Seq<Seq<char>>, next: Seq<Seq<char>>) -> Seq<Seq<char>>
    decreases initial.len(),
{
    if initial.len() == 0 {
        Seq::empty()
    } else {
        let before = dropped(initial.drop_last(), next);
        if next.contains(initial.last()) || before.contains(initial.last()) {
            before
        } else {
            before.push(initial.last())
        }
    }
}

/// The branches to delete.
pub fn branches_to_delete(initial_names: &Vec<String>, next: &Vec<(String, String)>) -> (r: Vec<
    String,
>)
    ensures
        strs(r@) == dropped(strs(initial_names@), first_of(pairs(next@))),
{
    let ghost all = strs(initial_names@);
    let mut out: Vec<String> = Vec::new();
    let mut i: usize = 0;
    assert(strs(out@) =~= Seq::<Seq<char>>::empty());
    while i < initial_names.len()
        invariant
            i <= initial_names@.len(),
            all == strs(initial_names@),
            strs(out@) == dropped(all.take(i as int), first_of(pairs(next@))),
        decreases initial_names@.len() - i,
    {
        let name = &initial_names[i];
        proof {
            assert(all.take(i + 1).drop_last() =~= all.take(i as int));
            assert(all.take(i + 1).last() == name@);
        }
        let ghost before = out@;
        if !has_first(next, name.as_str()) && !has_text(&out, name.as_str()) {
            out.push(name.clone());
            assert(strs(out@) =~= strs(before).push(name@));
        }
        i += 1;
    }
    assert(all.take(all.len() as int) =~= all);
    out
}

/// One change to the repository.
#[derive(Debug)]
pub enum SplitOp {
    /// Leave the current branch, staying on its commit.
    Detach,
    /// Put a branch on a commit.
    Put(BranchChange),
    /// Delete a branch.
    Delete(String),
    /// Put the checkout somewhere, without touching its files.
    SetHead(Head),
}

/// One change, in texts.
pub enum OpView {
    Detach,
    Put(Seq<char>, Seq<char>, bool),
    Delete(Seq<char>),
    SetHead(HeadAt),
}

impl View for SplitOp {
    type V = OpView;

    open spec fn view(&self) -> OpView {
        match *self {
            SplitOp::Detach => OpView::Detach,
            SplitOp::Put(c) => OpView::Put(c.name@, c.id@, c.force),
            SplitOp::Delete(n) => OpView::Delete(n@),
            SplitOp::SetHead(h) => OpView::SetHead(h@),
        }
    }
}

pub open spec fn op_views(v: Seq<SplitOp>) -> Seq<OpView> {
    Seq::new(v.len(), |i: int| v[i]@)
}

/// The changes that put branches on commits. The current branch is left before it moves.
pub open spec fn set_ops(changes: Seq<PlacedView>, current: Option<Seq<char>>) -> Seq<OpView>
    decreases changes.len(),
{
    if changes.len() == 0 {
        Seq::empty()
    } else {
        let before = set_ops(changes.drop_last(), current);
        let c = changes.last();
        let ready = if current == Some(c.0) {
            before.push(OpView::Detach)
        } else {
            before
        };
        ready.push(OpView::Put(c.0, c.1, c.2))
    }
}

/// The changes that delete branches. The current branch is left before it goes.
pub open spec fn delete_ops(names: Seq<Seq<char>>, current: Option<Seq<char>>) -> Seq<OpView>
    decreases names.len(),
{
    if names.len() == 0 {
        Seq::empty()
    } else {
        let before = delete_ops(names.drop_last(), current);
        let ready = if current == Some(names.last()) {
            before.push(OpView::Detach)
        } else {
            before
        };
        ready.push(OpView::Delete(names.last()))
    }
}

/// All changes, in order: what creates and moves comes before what deletes.
pub fn split_ops(
    changes: &Vec<BranchChange>,
    delete_names: &Vec<String>,
    current_branch: &Option<String>,
) -> (r: Vec<SplitOp>)
    ensures
        op_views(r@) == set_ops(placed_views(changes@), opt_string(*current_branch)) + delete_ops(
            strs(delete_names@),
            opt_string(*current_branch),
        ),
{
    let ghost current = opt_string(*current_branch);
    let ghost placed = placed_views(changes@);
    let mut out: Vec<SplitOp> = Vec::new();
    let mut i: usize = 0;
    assert(op_views(out@) =~= Seq::<OpView>::empty());
    while i < changes.len()
        invariant
            i <= changes@.len(),
            current == opt_string(*current_branch),
            placed == placed_views(changes@),
            op_views(out@) == set_ops(placed.take(i as int), current),
        decreases changes@.len() - i,
    {
        let c = &changes[i];
        proof {
            assert(placed.take(i + 1).drop_last() =~= placed.take(i as int));
            assert(placed.take(i + 1).last() == placed_view(*c));
        }
        let ghost v0 = out@;
        if is_text(current_branch, c.name.as_str()) {
            out.push(SplitOp::Detach);
            assert(op_views(out@) =~= op_views(v0).push(OpView::Detach));
        }
        let ghost v1 = out@;
        let op = SplitOp::Put(
            BranchChange { name: c.name.clone(), id: c.id.clone(), force: c.force },
        );
        out.push(op);
        assert(op_views(out@) =~= op_views(v1).push(op@));
        i += 1;
    }
    assert(placed.take(placed.len() as int) =~= placed);
    let ghost sets = op_views(out@);
    let ghost all = strs(delete_names@);
    let mut k: usize = 0;
    assert(sets + delete_ops(all.take(0), current) =~= sets);
    while k < delete_names.len()
        invariant
            k <= delete_names@.len(),
            all == strs(delete_names@),
            current == opt_string(*current_branch),
            op_views(out@) == sets + delete_ops(all.take(k as int), current),
        decreases delete_names@.len() - k,
    {
        let name = &delete_names[k];
        proof {
            assert(all.take(k + 1).drop_last() =~= all.take(k as int));
            assert(all.take(k + 1).last() == name@);
        }
        let ghost before = delete_ops(all.take(k as int), current);
        let ghost v0 = out@;
        if is_text(current_branch, name.as_str()) {
            out.push(SplitOp::Detach);
            assert(op_views(out@) =~= op_views(v0).push(OpView::Detach));
            assert(op_views(out@) =~= sets + before.push(OpView::Detach));
        }
        let ghost v1 = out@;
        out.push(SplitOp::Delete(name.clone()));
        assert(op_views(out@) =~= op_views(v1).push(OpView::Delete(name@)));
        assert(op_views(out@) =~= sets + delete_ops(all.take(k + 1), current));
        k += 1;
    }
    assert(all.take(all.len() as int) =~= all);
    out
}

/// The local branches, each with its tip.
pub type Refs = Map<Seq<char>, Seq<char>>;

/// What a change does to the branches.
pub open spec fn after_op(refs: Refs, op: OpView) -> Refs {
    match op {
        OpView::Detach => refs,
        OpView::Put(name, id, _) => refs.insert(name, id),
        OpView::Delete(name) => refs.remove(name),
        OpView::SetHead(_) => refs,
    }
}

/// Where a change leaves the checkout: detaching stays on the commit.
pub open spec fn head_after_op(repo: RepoView, op: OpView) -> HeadAt {
    match op {
        OpView::Detach => match repo.head {
            HeadAt::Branch(name) => HeadAt::Detached(repo.tips[name]),
            HeadAt::Detached(id) => HeadAt::Detached(id),
        },
        OpView::SetHead(head) => head,
        _ => repo.head,
    }
}

/// What the first `k` changes do to the branches and the checkout.
pub open spec fn repo_after_ops(repo: RepoView, ops: Seq<OpView>, k: int) -> RepoView
    decreases k,
{
    if k <= 0 {
        repo
    } else {
        let before = repo_after_ops(repo, ops, k - 1);
        RepoView {
            tips: after_op(before.tips, ops[k - 1]),
            head: head_after_op(before, ops[k - 1]),
        }
    }
}

/// What the first `k` changes do to the branches.
pub open spec fn after_ops(refs: Refs, ops: Seq<OpView>, k: int) -> Refs
    decreases k,
{
    if k <= 0 {
        refs
    } else {
        after_op(after_ops(refs, ops, k - 1), ops[k - 1])
    }
}

/// The branch that a change touches.
pub open spec fn touches(op: OpView, name: Seq<char>) -> bool {
    match op {
        OpView::Detach => false,
        OpView::Put(n, _, _) => n == name,
        OpView::Delete(n) => n == name,
        OpView::SetHead(_) => false,
    }
}

/// The tips of the named branches, each once; none for a branch that is not there.
pub open spec fn snapshot_of(names: Seq<Seq<char>>, refs: Refs) -> Seq<(
    Seq<char>,
    Option<Seq<char>>,
)>
    decreases names.len(),
{
    if names.len() == 0 {
        Seq::empty()
    } else {
        let before = snapshot_of(names.drop_last(), refs);
        let name = names.last();
        if names.drop_last().contains(name) {
            before
        } else {
            before.push(
                (
                    name,
                    if refs.contains_key(name) {
                        Some(refs[name])
                    } else {
                        None
                    },
                ),
            )
        }
    }
}

pub open spec fn snapshot_views(v: Seq<(String, Option<String>)>) -> Seq<(
    Seq<char>,
    Option<Seq<char>>,
)> {
    Seq::new(v.len(), |i: int| (v[i].0@, opt_string(v[i].1)))
}

fn seen_before(names: &Vec<String>, n: usize) -> (r: bool)
    requires
        n < names@.len(),
    ensures
        r == strs(names@).take(n as int).contains(names@[n as int]@),
{
    let ghost part = strs(names@).take(n as int);
    let mut i: usize = 0;
    while i < n
        invariant
            i <= n < names@.len(),
            part == strs(names@).take(n as int),
            forall|k: int| 0 <= k < i ==> part[k] != names@[n as int]@,
        decreases n - i,
    {
        if same(names[i].as_str(), names[n].as_str()) {
            assert(part[i as int] == names@[n as int]@);
            return true;
        }
        i += 1;
    }
    false
}

/// Records the tips of the branches that are about to change.
pub fn snapshot_branches(names: &Vec<String>, refs: &NameMap<String>) -> (r: Vec<
    (String, Option<String>),
>)
    ensures
        snapshot_views(r@) == snapshot_of(strs(names@), text_map(refs@)),
{
    let ghost all = strs(names@);
    let ghost map = text_map(refs@);
    let mut out: Vec<(String, Option<String>)> = Vec::new();
    let mut i: usize = 0;
    assert(snapshot_views(out@) =~= Seq::<(Seq<char>, Option<Seq<char>>)>::empty());
    while i < names.len()
        invariant
            i <= names@.len(),
            all == strs(names@),
            map == text_map(refs@),
            snapshot_views(out@) == snapshot_of(all.take(i as int), map),
        decreases names@.len() - i,
    {
        let name = &names[i];
        proof {
            assert(all.take(i + 1).drop_last() =~= all.take(i as int));
            assert(all.take(i + 1).last() == name@);
            assert(map.contains_key(name@) == refs@.contains_key(name@));
        }
        let ghost before = out@;
        if !seen_before(names, i) {
            let tip = match refs.get(name.as_str()) {
                Some(t) => Some(t.clone()),
                None => None,
            };
            out.push((name.clone(), tip));
            assert(snapshot_views(out@) =~= snapshot_views(before).push((name@, opt_string(tip))));
        }
        i += 1;
    }
    assert(all.take(all.len() as int) =~= all);
    out
}

/// The change that puts a branch back.
pub open spec fn undo_op(entry: (Seq<char>, Option<Seq<char>>)) -> OpView {
    match entry.1 {
        Some(id) => OpView::Put(entry.0, id, true),
        None => OpView::Delete(entry.0),
    }
}

pub open spec fn undo_ops(snapshot: Seq<(Seq<char>, Option<Seq<char>>)>) -> Seq<OpView> {
    Seq::new(snapshot.len(), |i: int| undo_op(snapshot[i]))
}

/// The changes that put the branches back, and then the checkout.
pub open spec fn take_back_ops(
    snapshot: Seq<(Seq<char>, Option<Seq<char>>)>,
    head: HeadAt,
) -> Seq<OpView> {
    undo_ops(snapshot).push(OpView::SetHead(head))
}

/// The changes that put the branches back, and then the checkout.
pub fn restore_ops(snapshot: &Vec<(String, Option<String>)>, head: &Head) -> (r: Vec<SplitOp>)
    ensures
        op_views(r@) == take_back_ops(snapshot_views(snapshot@), head@),
{
    let ghost all = snapshot_views(snapshot@);
    let mut out: Vec<SplitOp> = Vec::new();
    let mut i: usize = 0;
    while i < snapshot.len()
        invariant
            i <= snapshot@.len(),
            all == snapshot_views(snapshot@),
            op_views(out@) == undo_ops(all).take(i as int),
        decreases snapshot@.len() - i,
    {
        let ghost before = out@;
        let name = snapshot[i].0.clone();
        let op = match copy_opt(&snapshot[i].1) {
            Some(id) => SplitOp::Put(BranchChange { name, id, force: true }),
            None => SplitOp::Delete(name),
        };
        out.push(op);
        assert(op_views(out@) =~= op_views(before).push(op@));
        assert(op@ == undo_op(all[i as int]));
        i += 1;
    }
    assert(undo_ops(all).take(all.len() as int) =~= undo_ops(all));
    let ghost before = out@;
    let last = SplitOp::SetHead(head.copy());
    out.push(last);
    assert(op_views(out@) =~= op_views(before).push(last@));
    out
}

/// A branch that no change touches stays as it is.
proof fn lemma_untouched(refs: Refs, ops: Seq<OpView>, k: int, name: Seq<char>)
    requires
        0 <= k <= ops.len(),
        forall|i: int| 0 <= i < k ==> !touches(#[trigger] ops[i], name),
    ensures
        after_ops(refs, ops, k).contains_key(name) == refs.contains_key(name),
        refs.contains_key(name) ==> after_ops(refs, ops, k)[name] == refs[name],
    decreases k,
{
    if k > 0 {
        lemma_untouched(refs, ops, k - 1, name);
        assert(!touches(ops[k - 1], name));
    }
}

/// The snapshot has one entry for each name.
proof fn lemma_snapshot_entry(names: Seq<Seq<char>>, refs: Refs, name: Seq<char>)
    ensures
        forall|i: int|
            0 <= i < snapshot_of(names, refs).len() ==> names.contains(
                (#[trigger] snapshot_of(names, refs)[i]).0,
            ) && snapshot_of(names, refs)[i].1 == (if refs.contains_key(
                snapshot_of(names, refs)[i].0,
            ) {
                Some(refs[snapshot_of(names, refs)[i].0])
            } else {
                None
            }),
        names.contains(name) ==> exists|i: int|
            0 <= i < snapshot_of(names, refs).len() && (#[trigger] snapshot_of(names, refs)[i]).0
                == name,
    decreases names.len(),
{
    if names.len() > 0 {
        let short = names.drop_last();
        lemma_snapshot_entry(short, refs, name);
        let before = snapshot_of(short, refs);
        let after = snapshot_of(names, refs);
        assert forall|i: int| 0 <= i < after.len() implies names.contains((#[trigger] after[i]).0)
            && after[i].1 == (if refs.contains_key(after[i].0) {
            Some(refs[after[i].0])
        } else {
            None
        }) by {
            if i < before.len() {
                assert(after[i] == before[i]);
                assert(short.contains(before[i].0));
                let j = short.index_of(before[i].0);
                assert(names[j] == before[i].0);
            } else {
                assert(names[names.len() - 1] == names.last());
            }
        }
        if names.contains(name) {
            if short.contains(name) {
                let i = choose|i: int| 0 <= i < before.len() && (#[trigger] before[i]).0 == name;
                assert(after[i].0 == name);
            } else {
                let j = names.index_of(name);
                assert(j == names.len() - 1) by {
                    if j < names.len() - 1 {
                        assert(short[j] == name);
                    }
                }
                assert(after[before.len() as int].0 == name);
            }
        }
    }
}

/// What the undoing of the first `k` entries makes of a branch.
proof fn lemma_undo(
    refs: Refs,
    now: Refs,
    snapshot: Seq<(Seq<char>, Option<Seq<char>>)>,
    k: int,
    name: Seq<char>,
)
    requires
        0 <= k <= snapshot.len(),
        forall|i: int|
            0 <= i < snapshot.len() ==> (#[trigger] snapshot[i]).1 == (if refs.contains_key(
                snapshot[i].0,
            ) {
                Some(refs[snapshot[i].0])
            } else {
                None
            }),
    ensures
        ({
            let after = after_ops(now, undo_ops(snapshot), k);
            if exists|i: int| 0 <= i < k && (#[trigger] snapshot[i]).0 == name {
                after.contains_key(name) == refs.contains_key(name) && (refs.contains_key(name)
                    ==> after[name] == refs[name])
            } else {
                after.contains_key(name) == now.contains_key(name) && (now.contains_key(name)
                    ==> after[name] == now[name])
            }
        }),
    decreases k,
{
    if k > 0 {
        lemma_undo(refs, now, snapshot, k - 1, name);
        assert(undo_ops(snapshot)[k - 1] == undo_op(snapshot[k - 1]));
        if snapshot[k - 1].0 == name {
            assert(exists|i: int| 0 <= i < k && (#[trigger] snapshot[i]).0 == name);
        } else {
            if exists|i: int| 0 <= i < k && (#[trigger] snapshot[i]).0 == name {
                let i = choose|i: int| 0 <= i < k && (#[trigger] snapshot[i]).0 == name;
                assert(0 <= i < k - 1 && snapshot[i].0 == name);
            }
        }
    }
}

/// What changes do to the branches does not depend on the checkout.
proof fn lemma_repo_tips(repo: RepoView, ops: Seq<OpView>, k: int)
    ensures
        repo_after_ops(repo, ops, k).tips == after_ops(repo.tips, ops, k),
    decreases k,
{
    if k > 0 {
        lemma_repo_tips(repo, ops, k - 1);
    }
}

proof fn lemma_branches_roll_back(refs: Refs, ops: Seq<OpView>, k: int, touched: Seq<Seq<char>>)
    requires
        0 <= k <= ops.len(),
        forall|i: int, name: Seq<char>|
            0 <= i < ops.len() && #[trigger] touches(ops[i], name) ==> touched.contains(name),
    ensures
        ({
            let undo = undo_ops(snapshot_of(touched, refs));
            after_ops(after_ops(refs, ops, k), undo, undo.len() as int) == refs
        }),
{
    let snapshot = snapshot_of(touched, refs);
    let undo = undo_ops(snapshot);
    let now = after_ops(refs, ops, k);
    let after = after_ops(now, undo, undo.len() as int);
    assert forall|name: Seq<char>| #![trigger after.dom().contains(name)] #![trigger after[name]]
        after.dom().contains(name) == refs.dom().contains(name) && (refs.dom().contains(name)
            ==> after[name] == refs[name]) by {
        lemma_snapshot_entry(touched, refs, name);
        lemma_undo(refs, now, snapshot, snapshot.len() as int, name);
        if !touched.contains(name) {
            assert forall|i: int| 0 <= i < k implies !touches(#[trigger] ops[i], name) by {}
            lemma_untouched(refs, ops, k, name);
        }
    }
    assert(after =~= refs);
}

/// What the first changes do depends on them alone.
proof fn lemma_ops_agree(refs: Refs, a: Seq<OpView>, b: Seq<OpView>, k: int)
    requires
        forall|i: int| 0 <= i < k ==> #[trigger] a[i] == b[i],
    ensures
        after_ops(refs, a, k) == after_ops(refs, b, k),
    decreases k,
{
    if k > 0 {
        lemma_ops_agree(refs, a, b, k - 1);
    }
}

/// A run that fails after any number of its changes is taken back: the undoing puts every branch
/// where it was, takes away every branch that was not there, and puts the checkout back where it
/// was, wherever the changes have left it.
pub proof fn law_split_rolls_back(
    repo: RepoView,
    ops: Seq<OpView>,
    k: int,
    touched: Seq<Seq<char>>,
)
    requires
        0 <= k <= ops.len(),
        forall|i: int, name: Seq<char>|
            0 <= i < ops.len() && #[trigger] touches(ops[i], name) ==> touched.contains(name),
    ensures
        ({
            let undo = take_back_ops(snapshot_of(touched, repo.tips), repo.head);
            repo_after_ops(repo_after_ops(repo, ops, k), undo, undo.len() as int) == repo
        }),
{
    let branches = undo_ops(snapshot_of(touched, repo.tips));
    let undo = take_back_ops(snapshot_of(touched, repo.tips), repo.head);
    let now = repo_after_ops(repo, ops, k);
    let n = branches.len() as int;
    lemma_repo_tips(repo, ops, k);
    lemma_repo_tips(now, undo, n);
    lemma_ops_agree(now.tips, undo, branches, n);
    lemma_branches_roll_back(repo.tips, ops, k, touched);
    assert(undo[n] == OpView::SetHead(repo.head));
    assert(repo_after_ops(now, undo, n + 1) =~= repo);
}

/// What is done to the branches, and what takes it back.
#[derive(Debug)]
pub struct SplitPlan {
    pub ops: Vec<SplitOp>,
    pub undo: Vec<SplitOp>,
}

/// The names of the branches that are created or moved.
pub open spec fn changed_names(changes: Seq<PlacedView>) -> Seq<Seq<char>> {
    Seq::new(changes.len(), |i: int| changes[i].0)
}

proof fn lemma_set_ops_touch(changes: Seq<PlacedView>, current: Option<Seq<char>>)
    ensures
        forall|i: int, name: Seq<char>|
            0 <= i < set_ops(changes, current).len() && #[trigger] touches(
                set_ops(changes, current)[i],
                name,
            ) ==> changed_names(changes).contains(name),
    decreases changes.len(),
{
    if changes.len() > 0 {
        let short = changes.drop_last();
        lemma_set_ops_touch(short, current);
        let before = set_ops(short, current);
        let ops = set_ops(changes, current);
        assert forall|i: int, name: Seq<char>|
            0 <= i < ops.len() && #[trigger] touches(ops[i], name) implies changed_names(
            changes,
        ).contains(name) by {
            if i < before.len() {
                assert(ops[i] == before[i]);
                assert(touches(before[i], name));
                let k = changed_names(short).index_of(name);
                assert(changed_names(changes)[k] == name);
            } else {
                assert(changed_names(changes)[changes.len() - 1] == changes.last().0);
            }
        }
    }
}

proof fn lemma_delete_ops_touch(names: Seq<Seq<char>>, current: Option<Seq<char>>)
    ensures
        forall|i: int, name: Seq<char>|
            0 <= i < delete_ops(names, current).len() && #[trigger] touches(
                delete_ops(names, current)[i],
                name,
            ) ==> names.contains(name),
    decreases names.len(),
{
    if names.len() > 0 {
        let short = names.drop_last();
        lemma_delete_ops_touch(short, current);
        let before = delete_ops(short, current);
        let ops = delete_ops(names, current);
        assert forall|i: int, name: Seq<char>|
            0 <= i < ops.len() && #[trigger] touches(ops[i], name) implies names.contains(name) by {
            if i < before.len() {
                assert(ops[i] == before[i]);
                assert(touches(before[i], name));
                let k = short.index_of(name);
                assert(names[k] == name);
            } else {
                assert(names[names.len() - 1] == names.last());
            }
        }
    }
}

/// Settles what is done to the branches: each row of the edited text is created, moved, or left
/// alone where it is in place or the user does not agree to overwrite it; the branches of the path
/// that the text no longer names are deleted. `existing` holds what each row's branch is now,
/// `allowed_ids` are the commits of the path, `agreed` the branches that the user agrees to
/// overwrite, and `refs` the local branches. Taking it back after any number of changes leaves every
/// branch and the checkout where they were.
pub fn apply_split(
    next: &Vec<(String, String)>,
    existing: &Vec<Option<Option<String>>>,
    initial_names: &Vec<String>,
    allowed_ids: &Vec<String>,
    agreed: &Vec<String>,
    head: &Head,
    refs: &NameMap<String>,
) -> (r: SplitPlan)
    requires
        existing@.len() == next@.len(),
    ensures
        ({
            let changes = changes_of(
                pairs(next@),
                tips_now(existing@),
                strs(initial_names@),
                strs(allowed_ids@),
                strs(agreed@),
            );
            let deleted = dropped(strs(initial_names@), first_of(pairs(next@)));
            &&& op_views(r.ops@) == set_ops(changes, head_branch(head@)) + delete_ops(
                deleted,
                head_branch(head@),
            )
            &&& op_views(r.undo@) == take_back_ops(
                snapshot_of(changed_names(changes) + deleted, text_map(refs@)),
                head@,
            )
        }),
        ({
            let repo = RepoView { tips: text_map(refs@), head: head@ };
            forall|k: int|
                0 <= k <= r.ops@.len() ==> repo_after_ops(
                    #[trigger] repo_after_ops(repo, op_views(r.ops@), k),
                    op_views(r.undo@),
                    r.undo@.len() as int,
                ) == repo
        }),
{
    let changes = split_changes(next, existing, initial_names, allowed_ids, agreed);
    let ghost placed = placed_views(changes@);
    let deleted = branches_to_delete(initial_names, next);
    let mut touched: Vec<String> = Vec::new();
    let mut i: usize = 0;
    assert(strs(touched@) =~= changed_names(placed).take(0));
    while i < changes.len()
        invariant
            i <= changes@.len(),
            placed == placed_views(changes@),
            strs(touched@) == changed_names(placed).take(i as int),
        decreases changes@.len() - i,
    {
        let ghost before = touched@;
        touched.push(changes[i].name.clone());
        assert(strs(touched@) =~= strs(before).push(changes@[i as int].name@));
        assert(placed[i as int] == placed_view(changes@[i as int]));
        assert(strs(touched@) =~= changed_names(placed).take(i + 1));
        i += 1;
    }
    let ghost changed = touched@;
    let mut gone = copy_texts(&deleted);
    touched.append(&mut gone);
    proof {
        assert(strs(changed) =~= changed_names(placed));
        assert(strs(touched@) =~= changed_names(placed) + strs(deleted@));
    }
    let current_branch = head.branch();
    let ops = split_ops(&changes, &deleted, &current_branch);
    let snapshot = snapshot_branches(&touched, refs);
    let undo = restore_ops(&snapshot, head);
    proof {
        let current = head_branch(head@);
        let sets = set_ops(placed, current);
        let goes = delete_ops(strs(deleted@), current);
        let all = op_views(ops@);
        let names = strs(touched@);
        let repo = RepoView { tips: text_map(refs@), head: head@ };
        lemma_set_ops_touch(placed, current);
        lemma_delete_ops_touch(strs(deleted@), current);
        assert forall|i: int, name: Seq<char>|
            0 <= i < all.len() && #[trigger] touches(all[i], name) implies names.contains(name) by {
            if i < sets.len() {
                assert(touches(sets[i], name));
                let k = changed_names(placed).index_of(name);
                assert(names[k] == name);
            } else {
                assert(touches(goes[i - sets.len()], name));
                let k = strs(deleted@).index_of(name);
                assert(names[placed.len() + k] == name);
            }
        }
        assert forall|k: int| 0 <= k <= ops@.len() implies repo_after_ops(
            #[trigger] repo_after_ops(repo, all, k),
            op_views(undo@),
            undo@.len() as int,
        ) == repo by {
            law_split_rolls_back(repo, all, k, names);
        }
    }
    SplitPlan { ops, undo }
}

/// Changes after changes.
proof fn lemma_ops_in_a_row(refs: Refs, a: Seq<OpView>, b: Seq<OpView>, k: int)
    requires
        0 <= k <= b.len(),
    ensures
        after_ops(refs, a + b, a.len() + k) == after_ops(
            after_ops(refs, a, a.len() as int),
            b,
            k,
        ),
    decreases k,
{
    if k > 0 {
        lemma_ops_in_a_row(refs, a, b, k - 1);
        assert((a + b)[a.len() + k - 1] == b[k - 1]);
    } else {
        lemma_ops_agree(refs, a + b, a, a.len() as int);
    }
}

/// What the changes that put branches on commits make of one branch.
proof fn lemma_set_tips(
    refs: Refs,
    changes: Seq<PlacedView>,
    current: Option<Seq<char>>,
    name: Seq<char>,
    id: Seq<char>,
)
    requires
        forall|i: int| 0 <= i < changes.len() && (#[trigger] changes[i]).0 == name ==> changes[i].1
            == id,
    ensures
        ({
            let ops = set_ops(changes, current);
            let end = after_ops(refs, ops, ops.len() as int);
            if changed_names(changes).contains(name) {
                end.contains_key(name) && end[name] == id
            } else {
                end.contains_key(name) == refs.contains_key(name) && (refs.contains_key(name)
                    ==> end[name] == refs[name])
            }
        }),
    decreases changes.len(),
{
    let ops = set_ops(changes, current);
    if changes.len() > 0 {
        let short = changes.drop_last();
        assert forall|i: int| 0 <= i < short.len() && (#[trigger] short[i]).0
            == name implies short[i].1 == id by {
            assert(short[i] == changes[i]);
        }
        lemma_set_tips(refs, short, current, name, id);
        let before = set_ops(short, current);
        let n = before.len() as int;
        lemma_ops_agree(refs, ops, before, n);
        assert(ops[ops.len() - 1] == OpView::Put(
            changes.last().0,
            changes.last().1,
            changes.last().2,
        ));
        if ops.len() == n + 2 {
            assert(ops[n] == OpView::Detach);
            assert(after_ops(refs, ops, n + 1) == after_ops(refs, ops, n));
        }
        let all = changed_names(changes);
        assert(all[changes.len() - 1] == changes.last().0);
        assert(changes[changes.len() - 1] == changes.last());
        if changed_names(short).contains(name) {
            let k = changed_names(short).index_of(name);
            assert(all[k] == name);
        } else if all.contains(name) {
            let k = all.index_of(name);
            if k < short.len() {
                assert(changed_names(short)[k] == name);
            }
        }
    }
}

/// What the changes that delete branches make of one branch.
proof fn lemma_delete_tips(
    refs: Refs,
    names: Seq<Seq<char>>,
    current: Option<Seq<char>>,
    name: Seq<char>,
)
    ensures
        ({
            let ops = delete_ops(names, current);
            let end = after_ops(refs, ops, ops.len() as int);
            &&& end.contains_key(name) == (refs.contains_key(name) && !names.contains(name))
            &&& end.contains_key(name) ==> end[name] == refs[name]
        }),
    decreases names.len(),
{
    let ops = delete_ops(names, current);
    if names.len() > 0 {
        let short = names.drop_last();
        lemma_delete_tips(refs, short, current, name);
        let before = delete_ops(short, current);
        let n = before.len() as int;
        lemma_ops_agree(refs, ops, before, n);
        assert(ops[ops.len() - 1] == OpView::Delete(names.last()));
        if ops.len() == n + 2 {
            assert(ops[n] == OpView::Detach);
            assert(after_ops(refs, ops, n + 1) == after_ops(refs, ops, n));
        }
        assert(names[names.len() - 1] == names.last());
        if short.contains(name) {
            let k = short.index_of(name);
            assert(names[k] == name);
        } else if names.contains(name) {
            let k = names.index_of(name);
            if k < short.len() {
                assert(short[k] == name);
            }
        }
    }
}

/// The branches that are dropped are those of the path that the text does not name.
proof fn lemma_dropped(initial: Seq<Seq<char>>, next: Seq<Seq<char>>, name: Seq<char>)
    ensures
        dropped(initial, next).contains(name) <==> initial.contains(name) && !next.contains(name),
    decreases initial.len(),
{
    if initial.len() > 0 {
        let short = initial.drop_last();
        lemma_dropped(short, next, name);
        let before = dropped(short, next);
        let all = dropped(initial, next);
        assert(initial[initial.len() - 1] == initial.last());
        if short.contains(name) {
            assert(initial[short.index_of(name)] == name);
        } else if initial.contains(name) {
            let k = initial.index_of(name);
            if k < short.len() {
                assert(short[k] == name);
            }
        }
        if before.contains(name) {
            assert(all[before.index_of(name)] == name);
        } else if all.contains(name) {
            let k = all.index_of(name);
            if k < before.len() {
                assert(before[k] == name);
            }
        } else if name == initial.last() && !next.contains(name) {
            assert(all[all.len() - 1] == name);
        }
    }
}

/// The user did not agree to overwrite the row's branch.
pub open spec fn is_refused(
    row: (Seq<char>, Seq<char>),
    existing: Option<Option<Seq<char>>>,
    initial: Seq<Seq<char>>,
    allowed: Seq<Seq<char>>,
    agreed: Seq<Seq<char>>,
) -> bool {
    action_for(row.0, row.1, existing, initial, allowed) == SplitAction::AskOverwrite
        && !agreed.contains(row.0)
}

/// A split that runs to its end leaves the branches as the edited text says: every branch of a row is
/// on the row's commit, unless the user did not agree to overwrite it, which leaves it alone; the
/// branches of the path that the text no longer names are gone; no other branch has changed.
pub proof fn law_split_ends_as_written(
    refs: Refs,
    rows: Seq<(Seq<char>, Seq<char>)>,
    existing: Seq<Option<Option<Seq<char>>>>,
    initial: Seq<Seq<char>>,
    allowed: Seq<Seq<char>>,
    agreed: Seq<Seq<char>>,
    current: Option<Seq<char>>,
)
    requires
        first_of(rows).no_duplicates(),
        existing.len() == rows.len(),
        forall|i: int|
            0 <= i < rows.len() ==> #[trigger] existing[i] == if refs.contains_key(rows[i].0) {
                Some(Some(refs[rows[i].0]))
            } else {
                None
            },
    ensures
        ({
            let changes = changes_of(rows, existing, initial, allowed, agreed);
            let ops = set_ops(changes, current) + delete_ops(
                dropped(initial, first_of(rows)),
                current,
            );
            let end = after_ops(refs, ops, ops.len() as int);
            &&& forall|i: int|
                0 <= i < rows.len() && !is_refused(
                    #[trigger] rows[i],
                    existing[i],
                    initial,
                    allowed,
                    agreed,
                ) ==> end.contains_key(rows[i].0) && end[rows[i].0] == rows[i].1
            &&& forall|i: int|
                0 <= i < rows.len() && is_refused(
                    #[trigger] rows[i],
                    existing[i],
                    initial,
                    allowed,
                    agreed,
                ) ==> end.contains_key(rows[i].0) && end[rows[i].0] == refs[rows[i].0]
            &&& forall|name: Seq<char>| #[trigger]
                initial.contains(name) && !first_of(rows).contains(name) ==> !end.contains_key(name)
            &&& forall|name: Seq<char>|
                !(#[trigger] initial.contains(name)) && !first_of(rows).contains(name) ==> {
                    &&& end.contains_key(name) == refs.contains_key(name)
                    &&& refs.contains_key(name) ==> end[name] == refs[name]
                }
        }),
{
    let changes = changes_of(rows, existing, initial, allowed, agreed);
    let names = first_of(rows);
    let gone = dropped(initial, names);
    let sets = set_ops(changes, current);
    let goes = delete_ops(gone, current);
    let mid = after_ops(refs, sets, sets.len() as int);
    let ops = sets + goes;
    let end = after_ops(refs, ops, ops.len() as int);
    lemma_ops_in_a_row(refs, sets, goes, goes.len() as int);
    assert forall|i: int| 0 <= i < rows.len() implies end.contains_key((#[trigger] rows[i]).0)
        && end[rows[i].0] == (if is_refused(rows[i], existing[i], initial, allowed, agreed) {
        refs[rows[i].0]
    } else {
        rows[i].1
    }) by {
        let name = rows[i].0;
        let id = rows[i].1;
        assert(names[i] == name);
        assert forall|k: int| 0 <= k < changes.len() && (#[trigger] changes[k]).0
            == name implies changes[k].1 == id by {
            lemma_change_of_row(rows, existing, initial, allowed, agreed, changes[k]);
            assert(changes.contains(changes[k]));
            let j = choose|j: int|
                0 <= j < rows.len() && change_for(
                    #[trigger] rows[j],
                    existing[j],
                    initial,
                    allowed,
                    agreed,
                ) == Some(changes[k]);
            assert(names[j] == name);
        }
        lemma_set_tips(refs, changes, current, name, id);
        lemma_delete_tips(mid, gone, current, name);
        lemma_dropped(initial, names, name);
        match change_for(rows[i], existing[i], initial, allowed, agreed) {
            Some(c) => {
                lemma_change_of_row(rows, existing, initial, allowed, agreed, c);
                let k = changes.index_of(c);
                assert(changed_names(changes)[k] == name);
            },
            None => {
                if changed_names(changes).contains(name) {
                    let k = changed_names(changes).index_of(name);
                    lemma_change_of_row(rows, existing, initial, allowed, agreed, changes[k]);
                    assert(changes.contains(changes[k]));
                    let j = choose|j: int|
                        0 <= j < rows.len() && change_for(
                            #[trigger] rows[j],
                            existing[j],
                            initial,
                            allowed,
                            agreed,
                        ) == Some(changes[k]);
                    assert(names[j] == name);
                }
            },
        }
    }
    assert forall|name: Seq<char>| !names.contains(name) implies {
        &&& #[trigger] initial.contains(name) ==> !end.contains_key(name)
        &&& !initial.contains(name) ==> end.contains_key(name) == refs.contains_key(name) && (
        refs.contains_key(name) ==> end[name] == refs[name])
    } by {
        if changed_names(changes).contains(name) {
            let k = changed_names(changes).index_of(name);
            lemma_change_of_row(rows, existing, initial, allowed, agreed, changes[k]);
            assert(changes.contains(changes[k]));
            let j = choose|j: int|
                0 <= j < rows.len() && change_for(
                    #[trigger] rows[j],
                    existing[j],
                    initial,
                    allowed,
                    agreed,
                ) == Some(changes[k]);
            assert(names[j] == name);
        }
        assert forall|k: int| 0 <= k < changes.len() && (#[trigger] changes[k]).0
            == name implies changes[k].1 == name by {
            assert(changed_names(changes)[k] == name);
        }
        lemma_set_tips(refs, changes, current, name, name);
        lemma_delete_tips(mid, gone, current, name);
        lemma_dropped(initial, names, name);
    }
}

/// The first branch that was assigned the head's commit and stands on it.
pub open spec fn reattach_to(
    assigned: Seq<(Seq<char>, Seq<char>)>,
    head: Seq<char>,
    refs: Refs,
) -> Option<Seq<char>>
    decreases assigned.len(),
{
    if assigned.len() == 0 {
        None
    } else if assigned[0].1 == head && refs.contains_key(assigned[0].0) && refs[assigned[0].0]
        == head {
        Some(assigned[0].0)
    } else {
        reattach_to(assigned.drop_first(), head, refs)
    }
}

/// The branch to return to after the current one was left.
pub fn reattach_target(
    assigned: &Vec<(String, String)>,
    head_id: &str,
    refs: &NameMap<String>,
) -> (r: Option<String>)
    ensures
        opt_string(r) == reattach_to(pairs(assigned@), head_id@, text_map(refs@)),
{
    let ghost all = pairs(assigned@);
    let ghost map = text_map(refs@);
    let mut i: usize = 0;
    assert(all.skip(0) =~= all);
    while i < assigned.len()
        invariant
            i <= assigned@.len(),
            all == pairs(assigned@),
            map == text_map(refs@),
            reattach_to(all, head_id@, map) == reattach_to(all.skip(i as int), head_id@, map),
        decreases assigned@.len() - i,
    {
        let name = &assigned[i].0;
        proof {
            assert(all.skip(i as int)[0] == (name@, assigned@[i as int].1@));
            assert(all.skip(i as int).drop_first() =~= all.skip(i + 1));
            assert(map.contains_key(name@) == refs@.contains_key(name@));
        }
        if same(assigned[i].1.as_str(), head_id) {
            if let Some(tip) = refs.get(name.as_str()) {
                if same(tip.as_str(), head_id) {
                    return Some(name.clone());
                }
            }
        }
        i += 1;
    }
    None
}

/// The commit that is checked out.
pub open spec fn head_commit(repo: RepoView) -> Option<Seq<char>> {
    match repo.head {
        HeadAt::Branch(name) => if repo.tips.contains_key(name) {
            Some(repo.tips[name])
        } else {
            None
        },
        HeadAt::Detached(id) => Some(id),
    }
}

/// The current branch is left right before it changes, and the checkout is not put elsewhere.
pub open spec fn leaves_first(ops: Seq<OpView>, current: Option<Seq<char>>) -> bool {
    &&& forall|i: int|
        0 <= i < ops.len() && current is Some && #[trigger] touches(ops[i], current->0) ==> i > 0
            && ops[i - 1] == OpView::Detach
    &&& forall|i: int| 0 <= i < ops.len() ==> !(#[trigger] ops[i] is SetHead)
}

proof fn lemma_set_ops_leave_first(changes: Seq<PlacedView>, current: Option<Seq<char>>)
    ensures
        leaves_first(set_ops(changes, current), current),
    decreases changes.len(),
{
    if changes.len() > 0 {
        let short = changes.drop_last();
        lemma_set_ops_leave_first(short, current);
        let before = set_ops(short, current);
        let ops = set_ops(changes, current);
        assert forall|i: int|
            0 <= i < ops.len() && current is Some && #[trigger] touches(
                ops[i],
                current->0,
            ) implies i > 0 && ops[i - 1] == OpView::Detach by {
            if i < before.len() {
                assert(touches(before[i], current->0));
                assert(ops[i - 1] == before[i - 1]);
            }
        }
        assert forall|i: int| 0 <= i < ops.len() implies !(#[trigger] ops[i] is SetHead) by {
            if i < before.len() {
                assert(ops[i] == before[i]);
            }
        }
    }
}

proof fn lemma_delete_ops_leave_first(names: Seq<Seq<char>>, current: Option<Seq<char>>)
    ensures
        leaves_first(delete_ops(names, current), current),
    decreases names.len(),
{
    if names.len() > 0 {
        let short = names.drop_last();
        lemma_delete_ops_leave_first(short, current);
        let before = delete_ops(short, current);
        let ops = delete_ops(names, current);
        assert forall|i: int|
            0 <= i < ops.len() && current is Some && #[trigger] touches(
                ops[i],
                current->0,
            ) implies i > 0 && ops[i - 1] == OpView::Detach by {
            if i < before.len() {
                assert(touches(before[i], current->0));
                assert(ops[i - 1] == before[i - 1]);
            }
        }
        assert forall|i: int| 0 <= i < ops.len() implies !(#[trigger] ops[i] is SetHead) by {
            if i < before.len() {
                assert(ops[i] == before[i]);
            }
        }
    }
}

/// After changes that leave the current branch first, the checkout is on the branch, which has not
/// changed, or on its commit without the branch.
proof fn lemma_head_stays(repo: RepoView, ops: Seq<OpView>, k: int)
    requires
        head_commit(repo) is Some,
        leaves_first(ops, head_branch(repo.head)),
        0 <= k <= ops.len(),
    ensures
        ({
            let now = repo_after_ops(repo, ops, k);
            &&& head_commit(now) == head_commit(repo)
            &&& now.head == repo.head || now.head is Detached
            &&& k > 0 && ops[k - 1] == OpView::Detach ==> now.head is Detached
        }),
    decreases k,
{
    if k > 0 {
        lemma_head_stays(repo, ops, k - 1);
        let op = ops[k - 1];
        let before = repo_after_ops(repo, ops, k - 1);
        if let HeadAt::Branch(name) = before.head {
            if touches(op, name) {
                assert(touches(ops[k - 1], head_branch(repo.head)->0));
            }
        }
    }
}

proof fn lemma_reattach(assigned: Seq<(Seq<char>, Seq<char>)>, head: Seq<char>, refs: Refs)
    ensures
        reattach_to(assigned, head, refs) matches Some(name) ==> refs.contains_key(name)
            && refs[name] == head,
    decreases assigned.len(),
{
    if assigned.len() > 0 {
        lemma_reattach(assigned.drop_first(), head, refs);
    }
}

/// A split never changes which commit is checked out: not after any number of its changes, and not
/// when the checkout returns to a branch at the end.
pub proof fn law_split_keeps_the_checked_out_commit(
    repo: RepoView,
    changes: Seq<PlacedView>,
    deleted: Seq<Seq<char>>,
    assigned: Seq<(Seq<char>, Seq<char>)>,
    k: int,
)
    requires
        head_commit(repo) is Some,
        ({
            let current = head_branch(repo.head);
            0 <= k <= (set_ops(changes, current) + delete_ops(deleted, current)).len()
        }),
    ensures
        ({
            let current = head_branch(repo.head);
            let ops = set_ops(changes, current) + delete_ops(deleted, current);
            let now = repo_after_ops(repo, ops, k);
            &&& head_commit(now) == head_commit(repo)
            &&& reattach_to(assigned, head_commit(repo)->0, now.tips) matches Some(name)
                ==> head_commit(RepoView { head: HeadAt::Branch(name), ..now }) == head_commit(repo)
        }),
{
    let current = head_branch(repo.head);
    let sets = set_ops(changes, current);
    let goes = delete_ops(deleted, current);
    let ops = sets + goes;
    lemma_set_ops_leave_first(changes, current);
    lemma_delete_ops_leave_first(deleted, current);
    assert forall|i: int|
        0 <= i < ops.len() && current is Some && #[trigger] touches(ops[i], current->0) implies i
        > 0 && ops[i - 1] == OpView::Detach by {
        if i < sets.len() {
            assert(touches(sets[i], current->0));
            assert(ops[i - 1] == sets[i - 1]);
        } else {
            assert(touches(goes[i - sets.len()], current->0));
            assert(ops[i - 1] == goes[i - sets.len() - 1]);
        }
    }
    assert forall|i: int| 0 <= i < ops.len() implies !(#[trigger] ops[i] is SetHead) by {
        if i < sets.len() {
            assert(ops[i] == sets[i]);
        } else {
            assert(ops[i] == goes[i - sets.len()]);
        }
    }
    lemma_head_stays(repo, ops, k);
    lemma_reattach(assigned, head_commit(repo)->0, repo_after_ops(repo, ops, k).tips);
}

/// The branch to return to is the first one that was assigned the commit that is checked out and that
/// stands on it; there is none only where no branch does.
pub proof fn law_first_branch_on_the_commit(
    assigned: Seq<(Seq<char>, Seq<char>)>,
    head: Seq<char>,
    refs: Refs,
) -> (i: int)
    ensures
        0 <= i <= assigned.len(),
        i < assigned.len() ==> assigned[i].1 == head && refs.contains_key(assigned[i].0)
            && refs[assigned[i].0] == head && reattach_to(assigned, head, refs) == Some(
            assigned[i].0,
        ),
        i == assigned.len() ==> reattach_to(assigned, head, refs) is None,
        forall|j: int|
            0 <= j < i ==> !((#[trigger] assigned[j]).1 == head && refs.contains_key(assigned[j].0)
                && refs[assigned[j].0] == head),
    decreases assigned.len(),
{
    if assigned.len() == 0 || (assigned[0].1 == head && refs.contains_key(assigned[0].0)
        && refs[assigned[0].0] == head) {
        0
    } else {
        let rest = assigned.drop_first();
        let k = law_first_branch_on_the_commit(rest, head, refs);
        assert forall|j: int| 0 <= j < k + 1 implies !((#[trigger] assigned[j]).1 == head
            && refs.contains_key(assigned[j].0) && refs[assigned[j].0] == head) by {
            if j > 0 {
                assert(rest[j - 1] == assigned[j]);
            }
        }
        k + 1
    }
}

} // verus!
