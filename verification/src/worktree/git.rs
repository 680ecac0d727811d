//! What git says about worktrees and branches, and what it is asked to do with them.

use crate::names::NameMap;
use crate::text::{
    cat2, cat3, copy_opt, has_text, is_text, lines_of, list, opt_string, same, split_lines,
    split_once, split_once_spec, strip_prefix, strs, trim, trim_of,
};
use crate::worktree::path_resolver::{normalize_path, normalized};
use vstd::prelude::*;

verus! {

/// A worktree that git knows.
#[derive(Debug, Clone, PartialEq, Eq)]
pub struct LiveWorktree {
    pub path: String,
    pub branch: Option<String>,
    pub detached: bool,
}

/// Path, branch and whether no branch is checked out.
#[verifier::ext_equal]
pub struct LiveView {
    pub path: Seq<char>,
    pub branch: Option<Seq<char>>,
    pub detached: bool,
}

impl View for LiveWorktree {
    type V = LiveView;

    open spec fn view(&self) -> LiveView {
        LiveView { path: self.path@, branch: opt_string(self.branch), detached: self.detached }
    }
}

pub open spec fn live_views(v: Seq<LiveWorktree>) -> Seq<LiveView> {
    Seq::new(v.len(), |i: int| v[i]@)
}

impl LiveWorktree {
    pub fn normalized_path(&self) -> (r: String)
        ensures
            r@ == normalized(self.path@),
    {
        normalize_path(self.path.as_str())
    }

    pub fn copy(&self) -> (r: LiveWorktree)
        ensures
            r == *self,
    {
        LiveWorktree {
            path: self.path.clone(),
            branch: copy_opt(&self.branch),
            detached: self.detached,
        }
    }
}

/// What has been read of the list of worktrees: those that are complete, and what is known of the
/// next one.
#[verifier::ext_equal]
pub struct ListingView {
    pub done: Seq<LiveView>,
    pub path: Option<Seq<char>>,
    pub branch: Option<Seq<char>>,
    pub detached: bool,
}

/// The worktree that is being read is complete.
pub open spec fn flushed(s: ListingView) -> ListingView {
    match s.path {
        Some(p) => ListingView {
            done: s.done.push(
                LiveView { path: normalized(p), branch: s.branch, detached: s.detached },
            ),
            path: None,
            branch: None,
            detached: false,
        },
        None => ListingView { detached: false, ..s },
    }
}

/// The branch of a `branch` line.
pub open spec fn listed_branch(value: Seq<char>) -> Seq<char> {
    let t = trim_of(value);
    if "refs/heads/"@.is_prefix_of(t) {
        t.skip("refs/heads/"@.len() as int)
    } else {
        t
    }
}

/// What one more line adds.
pub open spec fn listing_step(s: ListingView, line: Seq<char>) -> ListingView {
    if line.len() == 0 {
        flushed(s)
    } else if "worktree "@.is_prefix_of(line) {
        let before = if s.path is Some {
            flushed(s)
        } else {
            s
        };
        ListingView { path: Some(trim_of(line.skip("worktree "@.len() as int))), ..before }
    } else if "branch "@.is_prefix_of(line) {
        ListingView { branch: Some(listed_branch(line.skip("branch "@.len() as int))), ..s }
    } else if line == "detached"@ {
        ListingView { detached: true, ..s }
    } else {
        s
    }
}

pub open spec fn listing(lines: Seq<Seq<char>>) -> ListingView
    decreases lines.len(),
{
    if lines.len() == 0 {
        ListingView { done: Seq::empty(), path: None, branch: None, detached: false }
    } else {
        listing_step(listing(lines.drop_last()), lines.last())
    }
}

/// What is being read.
struct Listing {
    done: Vec<LiveWorktree>,
    path: Option<String>,
    branch: Option<String>,
    detached: bool,
}

impl View for Listing {
    type V = ListingView;

    closed spec fn view(&self) -> ListingView {
        ListingView {
            done: live_views(self.done@),
            path: opt_string(self.path),
            branch: opt_string(self.branch),
            detached: self.detached,
        }
    }
}

fn flush(s: &mut Listing)
    ensures
        final(s)@ == flushed(old(s)@),
{
    let ghost before = s.done@;
    if let Some(p) = copy_opt(&s.path) {
        let live = LiveWorktree {
            path: normalize_path(p.as_str()),
            branch: copy_opt(&s.branch),
            detached: s.detached,
        };
        s.done.push(live);
        assert(live_views(s.done@) =~= live_views(before).push(live@));
        s.path = None;
        s.branch = None;
    }
    s.detached = false;
    assert(s@ =~= flushed(old(s)@));
}

/// Reads what `git worktree list --porcelain` prints.
pub fn list_live_worktrees(stdout: &str) -> (r: Vec<LiveWorktree>)
    ensures
        live_views(r@) == flushed(listing(lines_of(stdout@))).done,
{
    let lines = split_lines(stdout);
    let ghost all = strs(lines@);
    let mut s = Listing { done: Vec::new(), path: None, branch: None, detached: false };
    let mut i: usize = 0;
    assert(s@ =~= listing(all.take(0)));
    while i < lines.len()
        invariant
            i <= lines@.len(),
            all == strs(lines@),
            s@ == listing(all.take(i as int)),
        decreases lines@.len() - i,
    {
        let line = lines[i].as_str();
        proof {
            assert(all.take(i + 1).drop_last() =~= all.take(i as int));
            assert(all.take(i + 1).last() == line@);
        }
        let ghost before = s@;
        if line.is_empty() {
            flush(&mut s);
        } else if let Some(path) = strip_prefix(line, "worktree ") {
            if s.path.is_some() {
                flush(&mut s);
            }
            s.path = Some(trim(path.as_str()));
            assert(s@ =~= listing_step(before, line@));
        } else if let Some(reference) = strip_prefix(line, "branch ") {
            let t = trim(reference.as_str());
            let branch = match strip_prefix(t.as_str(), "refs/heads/") {
                Some(b) => b,
                None => t,
            };
            s.branch = Some(branch);
            assert(s@ =~= listing_step(before, line@));
        } else if same(line, "detached") {
            s.detached = true;
            assert(s@ =~= listing_step(before, line@));
        }
        i += 1;
    }
    assert(all.take(all.len() as int) =~= all);
    flush(&mut s);
    s.done
}

/// The worktrees by their paths in plainest form; of two on the same path the later counts.
pub open spec fn by_path(worktrees: Seq<LiveWorktree>) -> Map<Seq<char>, LiveWorktree>
    decreases worktrees.len(),
{
    if worktrees.len() == 0 {
        Map::empty()
    } else {
        by_path(worktrees.drop_last()).insert(
            normalized(worktrees.last().path@),
            worktrees.last(),
        )
    }
}

pub fn live_worktree_map(worktrees: &Vec<LiveWorktree>) -> (r: NameMap<LiveWorktree>)
    ensures
        r@ == by_path(worktrees@),
{
    let mut map: NameMap<LiveWorktree> = NameMap::new();
    let mut i: usize = 0;
    while i < worktrees.len()
        invariant
            i <= worktrees@.len(),
            map@ == by_path(worktrees@.take(i as int)),
        decreases worktrees@.len() - i,
    {
        assert(worktrees@.take(i + 1).drop_last() =~= worktrees@.take(i as int));
        assert(worktrees@.take(i + 1).last() == worktrees@[i as int]);
        map.insert(worktrees[i].normalized_path(), worktrees[i].copy());
        i += 1;
    }
    assert(worktrees@.take(worktrees@.len() as int) =~= worktrees@);
    map
}

/// The arguments with which git makes a worktree. A role's worktree is forced, so that it can have
/// a branch that is checked out elsewhere.
pub fn add_worktree_args(path: &str, branch: &str, force: bool) -> (r: Vec<String>)
    ensures
        strs(r@) == seq!["worktree"@, "add"@] + (if force {
            seq!["--force"@]
        } else {
            seq![]
        }) + seq![path@, branch@],
{
    if force {
        let r = list(&["worktree", "add", "--force", path, branch]);
        assert(strs(r@) =~= seq!["worktree"@, "add"@] + seq!["--force"@] + seq![path@, branch@]);
        r
    } else {
        let r = list(&["worktree", "add", path, branch]);
        assert(strs(r@) =~= seq!["worktree"@, "add"@] + Seq::<Seq<char>>::empty() + seq![
            path@,
            branch@,
        ]);
        r
    }
}

/// The arguments with which git switches a worktree.
pub open spec fn switch_args(target: Seq<char>, discard: bool, detached: bool) -> Seq<Seq<char>> {
    seq!["checkout"@] + (if discard {
        seq!["--force"@]
    } else {
        seq![]
    }) + (if detached {
        seq!["--detach"@]
    } else {
        seq![]
    }) + seq!["--ignore-other-worktrees"@, target]
}

fn checkout_worktree_reference(target: &str, discard: bool, detached: bool) -> (r: Vec<String>)
    ensures
        strs(r@) == switch_args(target@, discard, detached),
{
    let mut out: Vec<String> = Vec::new();
    out.push("checkout".to_owned());
    if discard {
        out.push("--force".to_owned());
    }
    let ghost v1 = out@;
    if detached {
        out.push("--detach".to_owned());
    }
    let ghost v2 = out@;
    out.push("--ignore-other-worktrees".to_owned());
    out.push(target.to_owned());
    proof {
        let d = if discard {
            seq!["--force"@]
        } else {
            seq![]
        };
        let e = if detached {
            seq!["--detach"@]
        } else {
            seq![]
        };
        assert(strs(v1) =~= seq!["checkout"@] + d);
        assert(strs(v2) =~= seq!["checkout"@] + d + e);
        assert(strs(out@) =~= strs(v2) + seq!["--ignore-other-worktrees"@, target@]);
    }
    out
}

/// The arguments with which git switches a worktree to a branch.
pub fn checkout_worktree_branch(branch: &str, discard_local_changes: bool) -> (r: Vec<String>)
    ensures
        strs(r@) == switch_args(branch@, discard_local_changes, false),
{
    checkout_worktree_reference(branch, discard_local_changes, false)
}

/// The arguments with which git switches a worktree to a commit.
pub fn checkout_worktree_detached(target: &str, discard_local_changes: bool) -> (r: Vec<String>)
    ensures
        strs(r@) == switch_args(target@, discard_local_changes, true),
{
    checkout_worktree_reference(target, discard_local_changes, true)
}

/// The arguments with which git removes a worktree.
pub fn remove_worktree_args(path: &str, force: bool) -> (r: Vec<String>)
    ensures
        strs(r@) == seq!["worktree"@, "remove"@] + (if force {
            seq!["--force"@]
        } else {
            seq![]
        }) + seq![path@],
{
    if force {
        let r = list(&["worktree", "remove", "--force", path]);
        assert(strs(r@) =~= seq!["worktree"@, "remove"@] + seq!["--force"@] + seq![path@]);
        r
    } else {
        let r = list(&["worktree", "remove", path]);
        assert(strs(r@) =~= seq!["worktree"@, "remove"@] + Seq::<Seq<char>>::empty() + seq![path@]);
        r
    }
}

/// The remote of the first remote branch of that name.
pub open spec fn remote_of(names: Seq<Seq<char>>, branch: Seq<char>) -> Option<Seq<char>>
    decreases names.len(),
{
    if names.len() == 0 {
        None
    } else {
        match split_once_spec(names[0], '/') {
            Some((remote, name)) => if name == branch {
                Some(remote)
            } else {
                remote_of(names.drop_first(), branch)
            },
            None => remote_of(names.drop_first(), branch),
        }
    }
}

/// The remote that has a branch.
pub fn remote_for_branch(remote_branches: &Vec<String>, branch: &str) -> (r: Option<String>)
    ensures
        opt_string(r) == remote_of(strs(remote_branches@), branch@),
{
    let ghost all = strs(remote_branches@);
    let mut i: usize = 0;
    assert(all.skip(0) =~= all);
    while i < remote_branches.len()
        invariant
            i <= remote_branches@.len(),
            all == strs(remote_branches@),
            remote_of(all, branch@) == remote_of(all.skip(i as int), branch@),
        decreases remote_branches@.len() - i,
    {
        assert(all.skip(i as int)[0] == remote_branches@[i as int]@);
        assert(all.skip(i as int).drop_first() =~= all.skip(i + 1));
        if let Some((remote, name)) = split_once(remote_branches[i].as_str(), '/') {
            if same(name.as_str(), branch) {
                return Some(remote);
            }
        }
        i += 1;
    }
    None
}

/// How a local branch is had.
#[derive(Debug)]
pub enum LocalBranch {
    /// It is there.
    Present,
    /// It is made to track a remote branch, with these arguments of git.
    Track(Vec<String>),
    /// It is nowhere.
    Missing,
}

/// How a local branch is had: it is there, or it is made from the remote that has it.
pub fn ensure_local_branch_exists(
    locals: &Vec<String>,
    remote_branches: &Vec<String>,
    branch: &str,
) -> (r: LocalBranch)
    ensures
        match r {
            LocalBranch::Present => strs(locals@).contains(branch@),
            LocalBranch::Track(args) => !strs(locals@).contains(branch@) && (remote_of(
                strs(remote_branches@),
                branch@,
            ) matches Some(remote) && strs(args@) == seq![
                "branch"@,
                "--track"@,
                branch@,
                remote + "/"@ + branch@,
            ]),
            LocalBranch::Missing => !strs(locals@).contains(branch@) && remote_of(
                strs(remote_branches@),
                branch@,
            ) is None,
        },
{
    if has_text(locals, branch) {
        return LocalBranch::Present;
    }
    match remote_for_branch(remote_branches, branch) {
        Some(remote) => {
            let start = cat3(remote.as_str(), "/", branch);
            let args = list(&["branch", "--track", branch, start.as_str()]);
            assert(strs(args@) =~= seq!["branch"@, "--track"@, branch@, start@]);
            LocalBranch::Track(args)
        },
        None => LocalBranch::Missing,
    }
}

/// The arguments with which git makes a branch from a start point: a remote branch is tracked, and
/// with `strict` anything else is not.
pub fn create_branch_args(
    branch: &str,
    start_point: &str,
    start_is_remote: bool,
    strict: bool,
) -> (r: Vec<String>)
    ensures
        strs(r@) == seq!["branch"@] + (if start_is_remote {
            seq!["--track"@]
        } else if strict {
            seq!["--no-track"@]
        } else {
            seq![]
        }) + seq![branch@, start_point@],
{
    if start_is_remote {
        let r = list(&["branch", "--track", branch, start_point]);
        assert(strs(r@) =~= seq!["branch"@] + seq!["--track"@] + seq![branch@, start_point@]);
        r
    } else if strict {
        let r = list(&["branch", "--no-track", branch, start_point]);
        assert(strs(r@) =~= seq!["branch"@] + seq!["--no-track"@] + seq![branch@, start_point@]);
        r
    } else {
        let r = list(&["branch", branch, start_point]);
        assert(strs(r@) =~= seq!["branch"@] + Seq::<Seq<char>>::empty() + seq![
            branch@,
            start_point@,
        ]);
        r
    }
}

/// Whether a branch may be deleted: it is there, and at the commit that is expected. `existing` is
/// none where there is no such branch; a branch may be without a commit of its own.
pub fn tip_matches(existing: &Option<Option<String>>, expected_tip: &str) -> (r: bool)
    ensures
        r == (*existing is Some && opt_string(existing->0) == Some(expected_tip@)),
{
    match existing {
        Some(tip) => is_text(tip, expected_tip),
        None => false,
    }
}

/// The arguments with which git deletes a branch only if it is still at a commit.
pub fn delete_branch_args(branch: &str, expected_tip: &str) -> (r: Vec<String>)
    ensures
        strs(r@) == seq!["update-ref"@, "-d"@, "refs/heads/"@ + branch@, expected_tip@],
{
    let reference = cat2("refs/heads/", branch);
    let r = list(&["update-ref", "-d", reference.as_str(), expected_tip]);
    assert(strs(r@) =~= seq!["update-ref"@, "-d"@, reference@, expected_tip@]);
    r
}

/// Whether a deletion that git refused is an error: only where the branch is still at the commit
/// that was expected. A branch that moved or went in the meantime was just not deleted.
pub fn refused_deletion_is_error(existing: &Option<Option<String>>, expected_tip: &str) -> (r: bool)
    ensures
        r == (*existing is Some && opt_string(existing->0) == Some(expected_tip@)),
{
    tip_matches(existing, expected_tip)
}

} // verus!
