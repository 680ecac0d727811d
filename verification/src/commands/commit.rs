//! `kin commit`: where the changes go, what has to be rebased after it, and in which order the
//! steps are taken.

use crate::boundary::{collect_first_parent_chain, first_parent_chain, BrokenHistory};
use crate::commands::commit_args::{insert_generated_commit_arg, separator};
use crate::graph::{
    descends, law_descent_is_strict, parents_first, reaches, reaches_commit, CommitGraph, Parents,
};
use crate::interaction::{input_required, InputRequired, Interaction};
use crate::names::{lemma_text_map_empty, lemma_text_map_insert, text_map, NameMap};
use crate::rebase_utils::{Operation, RebaseState};
use crate::stack::{
    collect_descendants_of_id, copy_branches, display_line, display_name, find_branch,
    find_parent_in_stack, has_branch,
    index_named, law_topological, names_of, sort_branches_topologically, topological, parent_in_stack, views,
    with_descendants, BranchView, StackBranch,
};
use crate::text::{
    cat2, cat3, cat5, dec, decimal, from_range, has_text, lines_of, opt_string, same, split_lines,
    starts_with, strs, to_chars,
};
use vstd::prelude::*;

verus! {

/// A commit of the stack, the branch that it belongs to, and its place among the branch's commits.
#[derive(Debug)]
pub struct StackCommit {
    pub commit_id: String,
    pub branch_name: String,
    pub position: (usize, usize),
    pub message: String,
}

impl StackCommit {
    pub fn copy(&self) -> (r: StackCommit)
        ensures
            r == *self,
    {
        StackCommit {
            commit_id: self.commit_id.clone(),
            branch_name: self.branch_name.clone(),
            position: self.position,
            message: self.message.clone(),
        }
    }
}

/// Why `kin commit` stops.
#[derive(Debug)]
pub enum CommitError {
    InProgress,
    NotOnBranch,
    NoBase,
    NoCommits,
    NotInStack(String),
    NothingToCommit,
    UnknownBranch(String),
    UnknownCommit,
    Input(InputRequired),
    CheckoutFailed,
    CommitFailed,
    CommitFailedResumable,
    AutosquashFailed,
    StrayFixup,
}

impl CommitError {
    pub open spec fn text(self) -> Seq<char> {
        match self {
            CommitError::InProgress =>
                "A Kindra operation is already in progress. Use 'kin continue' or 'kin abort'."@,
            CommitError::NotOnBranch => "You must be on a branch to use 'commit'"@,
            CommitError::NoBase =>
                "Could not find a base branch (init.defaultBranch, main, master, or trunk)"@,
            CommitError::NoCommits => "No commits found in the stack."@,
            CommitError::NotInStack(c) => "Commit '"@ + c@
                + "' is not part of the current stack. Only commits in the current stack can be fixed up."@,
            CommitError::NothingToCommit => "nothing to commit, working tree clean"@,
            CommitError::UnknownBranch(line) => "Failed to resolve selected branch '"@ + line@
                + "'."@,
            CommitError::UnknownCommit => "Failed to resolve selected commit."@,
            CommitError::Input(e) => e.0@,
            CommitError::CheckoutFailed =>
                "Failed to checkout target branch. Use 'kin abort' to restore original state."@,
            CommitError::CommitFailed => "git commit failed"@,
            CommitError::CommitFailedResumable =>
                "git commit failed. Resolve and run 'kin continue', or run 'kin abort'."@,
            CommitError::AutosquashFailed =>
                "git rebase --autosquash failed. Resolve conflicts and run 'kin continue', or run 'kin abort'."@,
            CommitError::StrayFixup =>
                "Additionally, failed to roll back the fixup commit; a stray 'fixup!' commit remains at HEAD. Remove it with 'git reset --soft HEAD^'."@,
        }
    }

    pub fn message(&self) -> (r: String)
        ensures
            r@ == self.text(),
    {
        match self {
            CommitError::InProgress =>
                "A Kindra operation is already in progress. Use 'kin continue' or 'kin abort'.".to_owned(),
            CommitError::NotOnBranch => "You must be on a branch to use 'commit'".to_owned(),
            CommitError::NoBase =>
                "Could not find a base branch (init.defaultBranch, main, master, or trunk)".to_owned(),
            CommitError::NoCommits => "No commits found in the stack.".to_owned(),
            CommitError::NotInStack(c) => cat3(
                "Commit '",
                c.as_str(),
                "' is not part of the current stack. Only commits in the current stack can be fixed up.",
            ),
            CommitError::NothingToCommit => "nothing to commit, working tree clean".to_owned(),
            CommitError::UnknownBranch(line) => cat3(
                "Failed to resolve selected branch '",
                line.as_str(),
                "'.",
            ),
            CommitError::UnknownCommit => "Failed to resolve selected commit.".to_owned(),
            CommitError::Input(e) => e.message(),
            CommitError::CheckoutFailed =>
                "Failed to checkout target branch. Use 'kin abort' to restore original state.".to_owned(),
            CommitError::CommitFailed => "git commit failed".to_owned(),
            CommitError::CommitFailedResumable =>
                "git commit failed. Resolve and run 'kin continue', or run 'kin abort'.".to_owned(),
            CommitError::AutosquashFailed =>
                "git rebase --autosquash failed. Resolve conflicts and run 'kin continue', or run 'kin abort'.".to_owned(),
            CommitError::StrayFixup =>
                "Additionally, failed to roll back the fixup commit; a stray 'fixup!' commit remains at HEAD. Remove it with 'git reset --soft HEAD^'.".to_owned(),
        }
    }
}

/// The first commit of the list with that id, or the length.
pub open spec fn index_of_commit(commits: Seq<StackCommit>, id: Seq<char>) -> int
    decreases commits.len(),
{
    if commits.len() == 0 || commits[0].commit_id@ == id {
        0
    } else {
        1 + index_of_commit(commits.drop_first(), id)
    }
}

/// The commit of the stack that is to be fixed up. `target_id` is what `fixup_target` stands for.
pub fn resolve_fixup_commit(commits: &Vec<StackCommit>, target_id: &str, fixup_target: &str) -> (r:
    Result<StackCommit, CommitError>)
    ensures
        ({
            let at = index_of_commit(commits@, target_id@);
            match r {
                Ok(c) => commits@.len() > 0 && at < commits@.len() && c == commits@[at],
                Err(CommitError::NoCommits) => commits@.len() == 0,
                Err(CommitError::NotInStack(t)) => commits@.len() > 0 && at == commits@.len() && t@
                    == fixup_target@,
                Err(_) => false,
            }
        }),
{
    if commits.len() == 0 {
        return Err(CommitError::NoCommits);
    }
    let mut i: usize = 0;
    assert(commits@.skip(0) =~= commits@);
    while i < commits.len()
        invariant
            i <= commits@.len(),
            commits@.len() > 0,
            index_of_commit(commits@, target_id@) == i + index_of_commit(
                commits@.skip(i as int),
                target_id@,
            ),
        decreases commits@.len() - i,
    {
        assert(commits@.skip(i as int)[0] == commits@[i as int]);
        assert(commits@.skip(i as int).drop_first() =~= commits@.skip(i + 1));
        if same(commits[i].commit_id.as_str(), target_id) {
            return Ok(commits[i].copy());
        }
        i += 1;
    }
    Err(CommitError::NotInStack(fixup_target.to_owned()))
}

/// The line of a commit in the list to choose from.
pub open spec fn commit_line_of(c: StackCommit) -> Seq<char> {
    c.branch_name@ + " "@ + (dec(c.position.0 as nat) + "/"@ + dec(c.position.1 as nat)) + " - \""@
        + (c.message@ + "\""@)
}

pub fn commit_line(c: &StackCommit) -> (r: String)
    ensures
        r@ == commit_line_of(*c),
{
    let place = cat3(
        decimal(c.position.0 as u64).as_str(),
        "/",
        decimal(c.position.1 as u64).as_str(),
    );
    let end = cat2(c.message.as_str(), "\"");
    cat5(c.branch_name.as_str(), " ", place.as_str(), " - \"", end.as_str())
}

/// How the commit to amend is found.
#[derive(Debug, Clone, Copy, PartialEq, Eq, Structural)]
pub enum CommitPick {
    /// A person is to choose.
    Ask,
    /// The commit at that place is taken.
    Take(usize),
}

/// How the commit to amend is found: a script may name its place, and takes the first where it
/// names none that there is.
pub fn select_commit_interactive(mode: &Interaction, commits: &Vec<StackCommit>) -> (r: Result<
    CommitPick,
    CommitError,
>)
    ensures
        if commits@.len() == 0 {
            r matches Err(CommitError::NoCommits)
        } else {
            match *mode {
                Interaction::Interactive => r == Ok::<_, CommitError>(CommitPick::Ask),
                Interaction::NonInteractive { .. } => r matches Err(CommitError::Input(e)) && e.0@
                    == "Cannot pick a commit to amend without a terminal."@,
                Interaction::Scripted(a) => r == Ok::<_, CommitError>(
                    CommitPick::Take(
                        if a.single_selection is Some && a.single_selection->0 < commits@.len() {
                            a.single_selection->0
                        } else {
                            0
                        },
                    ),
                ),
            }
        },
{
    if commits.len() == 0 {
        return Err(CommitError::NoCommits);
    }
    match mode {
        Interaction::Interactive => Ok(CommitPick::Ask),
        Interaction::NonInteractive { .. } => Err(
            CommitError::Input(
                input_required("Cannot pick a commit to amend without a terminal.".to_owned()),
            ),
        ),
        Interaction::Scripted(a) => {
            if let Some(i) = a.single_selection {
                if i < commits.len() {
                    return Ok(CommitPick::Take(i));
                }
            }
            Ok(CommitPick::Take(0))
        },
    }
}

/// The first commit whose line is the one that was chosen.
pub open spec fn index_of_line(commits: Seq<StackCommit>, line: Seq<char>) -> int
    decreases commits.len(),
{
    if commits.len() == 0 || commit_line_of(commits[0]) == line {
        0
    } else {
        1 + index_of_line(commits.drop_first(), line)
    }
}

/// The commit behind a line that was chosen.
pub fn resolve_commit_choice(commits: &Vec<StackCommit>, line: &str) -> (r: Result<
    usize,
    CommitError,
>)
    ensures
        match r {
            Ok(i) => i == index_of_line(commits@, line@) && i < commits@.len(),
            Err(e) => e is UnknownCommit && index_of_line(commits@, line@) == commits@.len(),
        },
{
    let mut i: usize = 0;
    assert(commits@.skip(0) =~= commits@);
    while i < commits.len()
        invariant
            i <= commits@.len(),
            index_of_line(commits@, line@) == i + index_of_line(commits@.skip(i as int), line@),
        decreases commits@.len() - i,
    {
        assert(commits@.skip(i as int)[0] == commits@[i as int]);
        assert(commits@.skip(i as int).drop_first() =~= commits@.skip(i + 1));
        if same(commit_line(&commits[i]).as_str(), line) {
            return Ok(i);
        }
        i += 1;
    }
    Err(CommitError::UnknownCommit)
}

/// The stack with the current branch, which may be missing from it, in topological order.
pub open spec fn target_options_of(
    g: Parents,
    stack: Seq<BranchView>,
    current: Seq<char>,
    head: Seq<char>,
) -> Seq<BranchView> {
    topological(
        g,
        if names_of(stack).contains(current) {
            stack
        } else {
            stack.push((current, head))
        },
    )
}

/// The branches onto which a commit can be put.
pub fn target_options(
    graph: &CommitGraph,
    stack_branches: &Vec<StackBranch>,
    current_branch_name: &str,
    current_head_id: &str,
) -> (r: Vec<StackBranch>)
    ensures
        views(r@) == target_options_of(
            graph@,
            views(stack_branches@),
            current_branch_name@,
            current_head_id@,
        ),
{
    let mut options = copy_branches(stack_branches);
    if !has_branch(&options, current_branch_name) {
        let ghost before = options@;
        options.push(
            StackBranch { name: current_branch_name.to_owned(), id: current_head_id.to_owned() },
        );
        assert(views(options@) =~= views(before).push((current_branch_name@, current_head_id@)));
    }
    sort_branches_topologically(graph, &mut options);
    options
}

/// The first branch whose line is the one that was chosen.
pub open spec fn index_of_display(
    options: Seq<BranchView>,
    current: Seq<char>,
    line: Seq<char>,
) -> int
    decreases options.len(),
{
    if options.len() == 0 || display_line(options[0].0, Some(current)) == line {
        0
    } else {
        1 + index_of_display(options.drop_first(), current, line)
    }
}

/// The branch behind a line that was chosen.
pub fn resolve_target_choice(options: &Vec<StackBranch>, current_branch_name: &str, line: &str) -> (r:
    Result<String, CommitError>)
    ensures
        ({
            let all = views(options@);
            let at = index_of_display(all, current_branch_name@, line@);
            match r {
                Ok(name) => at < all.len() && name@ == all[at].0,
                Err(CommitError::UnknownBranch(l)) => at == all.len() && l@ == line@,
                Err(_) => false,
            }
        }),
{
    let ghost all = views(options@);
    let mut i: usize = 0;
    assert(all.skip(0) =~= all);
    while i < options.len()
        invariant
            i <= options@.len(),
            all == views(options@),
            index_of_display(all, current_branch_name@, line@) == i + index_of_display(
                all.skip(i as int),
                current_branch_name@,
                line@,
            ),
        decreases options@.len() - i,
    {
        assert(all.skip(i as int)[0] == options@[i as int]@);
        assert(all.skip(i as int).drop_first() =~= all.skip(i + 1));
        let shown = display_name(options[i].name.as_str(), Some(current_branch_name));
        if same(shown.as_str(), line) {
            return Ok(options[i].name.clone());
        }
        i += 1;
    }
    Err(CommitError::UnknownBranch(line.to_owned()))
}

/// What a commit that was picked means for the run.
#[derive(Debug)]
pub struct Fold {
    /// The commit into which the changes are folded by a fixup; none where the tip is amended.
    pub fixup: Option<String>,
    /// The fixup is made on the current branch, above the commit that it folds into.
    pub inline: bool,
}

/// The arguments with one more before the `--`, unless it is there.
pub open spec fn with_arg(args: Seq<Seq<char>>, arg: Seq<char>) -> Seq<Seq<char>> {
    if args.contains(arg) {
        args
    } else {
        args.insert(separator(args), arg)
    }
}

fn add_arg(args: &mut Vec<String>, arg: &str)
    ensures
        strs(final(args)@) == with_arg(strs(old(args)@), arg@),
{
    if !has_text(args, arg) {
        insert_generated_commit_arg(args, arg.to_owned());
    }
}

/// Folds the changes into the commit that was picked: the tip of the current branch is amended, any
/// other commit gets a fixup, and one strictly below the head is fixed up in place.
pub fn fold_into(
    graph: &CommitGraph,
    picked: &StackCommit,
    head_id: &str,
    current_branch_name: &str,
    git_commit_args: &mut Vec<String>,
) -> (r: Fold)
    ensures
        ({
            let args = strs(old(git_commit_args)@);
            let after = strs(final(git_commit_args)@);
            let id = picked.commit_id@;
            if id == head_id@ && picked.branch_name@ == current_branch_name@ {
                &&& r.fixup is None
                &&& !r.inline
                &&& after == with_arg(with_arg(args, "--amend"@), "--no-edit"@)
            } else {
                &&& opt_string(r.fixup) == Some(id)
                &&& r.inline == (id != head_id@ && descends(graph@, head_id@, id))
                &&& after == args.insert(separator(args), "--fixup="@ + id)
            }
        }),
{
    let id = picked.commit_id.as_str();
    if same(id, head_id) && same(picked.branch_name.as_str(), current_branch_name) {
        add_arg(git_commit_args, "--amend");
        add_arg(git_commit_args, "--no-edit");
        Fold { fixup: None, inline: false }
    } else {
        let inline = !same(id, head_id) && graph.descendant_of(head_id, id);
        insert_generated_commit_arg(git_commit_args, cat2("--fixup=", id));
        Fold { fixup: Some(picked.commit_id.clone()), inline }
    }
}

/// Where the commit goes.
#[derive(Debug)]
pub enum TargetChoice {
    Branch(String),
    /// The user is to choose.
    Ask,
}

/// The branch that the commit goes to. An inline fixup stays on the current branch.
pub fn choose_target(
    picked: &Option<StackCommit>,
    inline_fixup: bool,
    on_target: &Option<Option<String>>,
    current_branch_name: &str,
) -> (r: TargetChoice)
    ensures
        match (*picked, r) {
            (Some(c), TargetChoice::Branch(b)) => b@ == if inline_fixup {
                current_branch_name@
            } else {
                c.branch_name@
            },
            (Some(_), TargetChoice::Ask) => false,
            (None, TargetChoice::Branch(b)) => match *on_target {
                None => b@ == current_branch_name@,
                Some(Some(t)) => b@ == t@,
                Some(None) => false,
            },
            (None, TargetChoice::Ask) => *on_target == Some(None::<String>),
        },
{
    match picked {
        Some(c) => if inline_fixup {
            TargetChoice::Branch(current_branch_name.to_owned())
        } else {
            TargetChoice::Branch(c.branch_name.clone())
        },
        None => match on_target {
            None => TargetChoice::Branch(current_branch_name.to_owned()),
            Some(Some(t)) => TargetChoice::Branch(t.clone()),
            Some(None) => TargetChoice::Ask,
        },
    }
}

/// The branches that have to follow the target: all that come from it, and the target itself where
/// it is part of the stack.
pub open spec fn target_sub_stack(
    g: Parents,
    target: Seq<char>,
    target_head: Seq<char>,
    upstream: Seq<char>,
    all: Seq<BranchView>,
) -> Seq<BranchView> {
    let at = index_named(all, target);
    if target == upstream {
        with_descendants(g, target_head, all, Seq::empty())
    } else if at < all.len() {
        with_descendants(g, all[at].1, all, seq![all[at]])
    } else {
        Seq::empty()
    }
}

pub fn collect_target_sub_stack(
    graph: &CommitGraph,
    target_branch: &str,
    target_head_id: &str,
    upstream_name: &str,
    all_branches_in_stack: &Vec<StackBranch>,
) -> (r: Vec<StackBranch>)
    ensures
        views(r@) == target_sub_stack(
            graph@,
            target_branch@,
            target_head_id@,
            upstream_name@,
            views(all_branches_in_stack@),
        ),
{
    let mut sub: Vec<StackBranch> = Vec::new();
    assert(views(sub@) =~= Seq::<BranchView>::empty());
    if same(target_branch, upstream_name) {
        collect_descendants_of_id(graph, target_head_id, all_branches_in_stack, &mut sub);
    } else if let Some(i) = find_branch(all_branches_in_stack, target_branch) {
        let root = &all_branches_in_stack[i];
        sub.push(root.copy());
        assert(views(sub@) =~= seq![root@]);
        collect_descendants_of_id(graph, root.id.as_str(), all_branches_in_stack, &mut sub);
    }
    sub
}

/// Something stands on the target.
pub open spec fn has_dependents(
    target: Seq<char>,
    upstream: Seq<char>,
    sub: Seq<BranchView>,
) -> bool {
    if target == upstream {
        sub.len() > 0
    } else {
        exists|k: int| 0 <= k < sub.len() && (#[trigger] sub[k]).0 != target
    }
}

pub fn has_dependents_to_rebase(
    target_branch: &str,
    upstream_name: &str,
    sub_stack: &Vec<StackBranch>,
) -> (r: bool)
    ensures
        r == has_dependents(target_branch@, upstream_name@, views(sub_stack@)),
{
    let ghost sub = views(sub_stack@);
    if same(target_branch, upstream_name) {
        return sub_stack.len() > 0;
    }
    let mut i: usize = 0;
    while i < sub_stack.len()
        invariant
            i <= sub_stack@.len(),
            sub == views(sub_stack@),
            target_branch@ != upstream_name@,
            forall|k: int| 0 <= k < i ==> (#[trigger] sub[k]).0 == target_branch@,
        decreases sub_stack@.len() - i,
    {
        assert(sub[i as int].0 == sub_stack@[i as int].name@);
        if !same(sub_stack[i].name.as_str(), target_branch) {
            return true;
        }
        i += 1;
    }
    false
}

/// Whether the user is asked before another stack is rebased: only where `--on` names a branch of
/// another stack on which something stands.
pub fn asks_about_other_stack(
    target_branch: &str,
    upstream_name: &str,
    current_stack: &Vec<StackBranch>,
    on_flag: bool,
    target_has_dependents: bool,
) -> (r: bool)
    ensures
        r == (target_branch@ != upstream_name@ && !names_of(views(current_stack@)).contains(
            target_branch@,
        ) && on_flag && target_has_dependents),
{
    !same(target_branch, upstream_name) && !has_branch(current_stack, target_branch) && on_flag
        && target_has_dependents
}

/// The names of the branches other than the target, in order.
pub open spec fn names_without(sub: Seq<BranchView>, target: Seq<char>) -> Seq<Seq<char>>
    decreases sub.len(),
{
    if sub.len() == 0 {
        Seq::empty()
    } else if sub.last().0 == target {
        names_without(sub.drop_last(), target)
    } else {
        names_without(sub.drop_last(), target).push(sub.last().0)
    }
}

/// The names of the branches other than the target, in order.
pub fn remaining_names(sub_stack: &Vec<StackBranch>, target_branch: &str) -> (r: Vec<String>)
    ensures
        strs(r@) == names_without(views(sub_stack@), target_branch@),
{
    let ghost all = views(sub_stack@);
    let mut remaining: Vec<String> = Vec::new();
    let mut i: usize = 0;
    assert(strs(remaining@) =~= Seq::<Seq<char>>::empty());
    while i < sub_stack.len()
        invariant
            i <= sub_stack@.len(),
            all == views(sub_stack@),
            strs(remaining@) == names_without(all.take(i as int), target_branch@),
        decreases sub_stack@.len() - i,
    {
        proof {
            assert(all.take(i + 1).drop_last() =~= all.take(i as int));
            assert(all.take(i + 1).last() == sub_stack@[i as int]@);
        }
        let ghost before = remaining@;
        if !same(sub_stack[i].name.as_str(), target_branch) {
            remaining.push(sub_stack[i].name.clone());
            assert(strs(remaining@) =~= strs(before).push(sub_stack@[i as int].name@));
        }
        i += 1;
    }
    assert(all.take(all.len() as int) =~= all);
    remaining
}

/// What is settled before the first step.
#[derive(Debug)]
pub struct CommitPlan {
    pub target_branch: String,
    /// Another branch than the current one gets the commit.
    pub switching: bool,
    /// Branches are rebased after the commit.
    pub will_rebase: bool,
    /// A fixup is folded in after the commit.
    pub autosquash: bool,
    /// The branches to rebase, in order.
    pub remaining: Vec<String>,
}

impl CommitPlan {
    /// The state is saved before the commit is made.
    pub open spec fn saved_before(self) -> bool {
        self.switching || self.will_rebase
    }

    /// The state is saved for the folding alone.
    pub open spec fn saved_for_fold(self) -> bool {
        self.autosquash && !self.saved_before()
    }
}

/// Settles what is done. `sub_stack` is the part of the stack that follows the target, sorted.
pub fn plan_commit(
    current_branch_name: &str,
    target_branch: &str,
    sub_stack: &Vec<StackBranch>,
    should_rebase: bool,
    target_has_dependents: bool,
    is_fixup: bool,
) -> (r: CommitPlan)
    ensures
        r.target_branch@ == target_branch@,
        r.switching == (target_branch@ != current_branch_name@),
        strs(r.remaining@) == names_without(views(sub_stack@), target_branch@),
        r.will_rebase == (should_rebase && target_has_dependents && r.remaining@.len() > 0),
        r.autosquash == is_fixup,
{
    let remaining = remaining_names(sub_stack, target_branch);
    let will_rebase = should_rebase && target_has_dependents && remaining.len() > 0;
    CommitPlan {
        target_branch: target_branch.to_owned(),
        switching: !same(target_branch, current_branch_name),
        will_rebase,
        autosquash: is_fixup,
        remaining,
    }
}

/// The commit below the one that is fixed up: from there on history is rewritten. None for a root
/// commit, with which all of it is.
pub open spec fn autosquash_base_of(g: Parents, commit: Seq<char>) -> Option<Seq<char>> {
    if g.contains_key(commit) && g[commit].len() > 0 {
        Some(g[commit][0])
    } else {
        None
    }
}

pub fn autosquash_base(graph: &CommitGraph, fixup_commit: &str) -> (r: Option<String>)
    ensures
        opt_string(r) == autosquash_base_of(graph@, fixup_commit@),
{
    match graph.parents(fixup_commit) {
        Some(ps) => {
            assert(strs(ps@).len() == ps@.len());
            if ps.len() > 0 {
                assert(strs(ps@)[0] == ps@[0]@);
                Some(ps[0].clone())
            } else {
                None
            }
        },
        None => None,
    }
}

/// The tip lies in the range that is rewritten: at or below the head, and not at or below the base.
pub open spec fn in_range(
    g: Parents,
    base: Option<Seq<char>>,
    head: Seq<char>,
    id: Seq<char>,
) -> bool {
    reaches(g, head, id) && !(base is Some && reaches(g, base->0, id))
}

/// The tips with those of the first `n` local branches in the range. A tip that is known stays.
pub open spec fn tips_in_range(
    g: Parents,
    base: Option<Seq<char>>,
    head: Seq<char>,
    locals: Seq<BranchView>,
    tips: Map<Seq<char>, Seq<char>>,
    n: int,
) -> Map<Seq<char>, Seq<char>>
    decreases n,
{
    if n <= 0 {
        tips
    } else {
        let before = tips_in_range(g, base, head, locals, tips, n - 1);
        let b = locals[n - 1];
        if in_range(g, base, head, b.1) && !before.contains_key(b.0) {
            before.insert(b.0, b.1)
        } else {
            before
        }
    }
}

/// Records the tips of the local branches that lie in the range that is rewritten.
pub fn record_branch_tips_in_range(
    graph: &CommitGraph,
    locals: &Vec<StackBranch>,
    base: &Option<String>,
    head_id: &str,
    tips: &mut NameMap<String>,
)
    ensures
        text_map(final(tips)@) == tips_in_range(
            graph@,
            opt_string(*base),
            head_id@,
            views(locals@),
            text_map(old(tips)@),
            locals@.len() as int,
        ),
{
    let ghost all = views(locals@);
    let ghost start = text_map(tips@);
    let mut i: usize = 0;
    while i < locals.len()
        invariant
            i <= locals@.len(),
            all == views(locals@),
            text_map(tips@) == tips_in_range(
                graph@,
                opt_string(*base),
                head_id@,
                all,
                start,
                i as int,
            ),
        decreases locals@.len() - i,
    {
        let b = &locals[i];
        assert(all[i as int] == b@);
        assert(text_map(tips@).contains_key(b.name@) == tips@.contains_key(b.name@));
        let below = match base {
            Some(c) => reaches_commit(graph, c.as_str(), b.id.as_str()),
            None => false,
        };
        if reaches_commit(graph, head_id, b.id.as_str()) && !below && !tips.contains(
            b.name.as_str(),
        ) {
            proof {
                lemma_text_map_insert(tips@, b.name@, b.id);
            }
            tips.insert(b.name.clone(), b.id.clone());
        }
        i += 1;
    }
}

/// After the recording every local branch whose tip is about to be rewritten has a tip to go back
/// to, and no tip that was known has changed.
pub proof fn law_rewritten_tips_are_recorded(
    g: Parents,
    base: Option<Seq<char>>,
    head: Seq<char>,
    locals: Seq<BranchView>,
    tips: Map<Seq<char>, Seq<char>>,
    n: int,
)
    requires
        0 <= n <= locals.len(),
    ensures
        forall|k: int|
            0 <= k < n && in_range(g, base, head, (#[trigger] locals[k]).1) ==> tips_in_range(
                g,
                base,
                head,
                locals,
                tips,
                n,
            ).contains_key(locals[k].0),
        forall|name: Seq<char>| #[trigger]
            tips.contains_key(name) ==> tips_in_range(g, base, head, locals, tips, n).contains_key(
                name,
            ) && tips_in_range(g, base, head, locals, tips, n)[name] == tips[name],
    decreases n,
{
    if n > 0 {
        law_rewritten_tips_are_recorded(g, base, head, locals, tips, n - 1);
    }
}

/// The tips with those of the first `n` branches.
pub open spec fn with_tips(
    tips: Map<Seq<char>, Seq<char>>,
    branches: Seq<BranchView>,
    n: int,
) -> Map<Seq<char>, Seq<char>>
    decreases n,
{
    if n <= 0 {
        tips
    } else {
        with_tips(tips, branches, n - 1).insert(branches[n - 1].0, branches[n - 1].1)
    }
}

/// Every branch that is about to move has a tip to go back to: its own, where no two branches have
/// one name.
pub proof fn law_every_tip_is_noted(
    tips: Map<Seq<char>, Seq<char>>,
    branches: Seq<BranchView>,
    n: int,
)
    requires
        0 <= n <= branches.len(),
    ensures
        forall|k: int|
            0 <= k < n ==> with_tips(tips, branches, n).contains_key((#[trigger] branches[k]).0),
        names_of(branches).no_duplicates() ==> forall|k: int|
            0 <= k < n ==> with_tips(tips, branches, n)[(#[trigger] branches[k]).0] == branches[k].1,
    decreases n,
{
    if n > 0 {
        law_every_tip_is_noted(tips, branches, n - 1);
        if names_of(branches).no_duplicates() {
            assert forall|k: int| 0 <= k < n implies with_tips(tips, branches, n)[(
            #[trigger] branches[k]).0] == branches[k].1 by {
                if k < n - 1 {
                    assert(names_of(branches)[k] != names_of(branches)[n - 1]);
                }
            }
        }
    }
}

/// The tips before the operation: the target's and, where branches are rebased, theirs.
pub fn original_tips(
    target_branch: &str,
    target_id: &str,
    sub_stack: &Vec<StackBranch>,
    will_rebase: bool,
) -> (r: NameMap<String>)
    ensures
        ({
            let target = Map::<Seq<char>, Seq<char>>::empty().insert(target_branch@, target_id@);
            text_map(r@) == if will_rebase {
                with_tips(target, views(sub_stack@), sub_stack@.len() as int)
            } else {
                target
            }
        }),
{
    let ghost all = views(sub_stack@);
    let mut tips: NameMap<String> = NameMap::new();
    let first = target_id.to_owned();
    proof {
        lemma_text_map_empty();
        lemma_text_map_insert(tips@, target_branch@, first);
    }
    tips.insert(target_branch.to_owned(), first);
    let ghost target = text_map(tips@);
    if will_rebase {
        let mut i: usize = 0;
        while i < sub_stack.len()
            invariant
                i <= sub_stack@.len(),
                all == views(sub_stack@),
                text_map(tips@) == with_tips(target, all, i as int),
            decreases sub_stack@.len() - i,
        {
            let b = &sub_stack[i];
            assert(all[i as int] == b@);
            proof {
                lemma_text_map_insert(tips@, b.name@, b.id);
            }
            tips.insert(b.name.clone(), b.id.clone());
            i += 1;
        }
    }
    tips
}

/// The state that a commit leaves behind for `kin continue` and `kin abort`. The maps are those of
/// the branches to rebase; they hold nothing where none are.
pub fn commit_state(
    plan: &CommitPlan,
    current_branch_name: &str,
    parent_id_map: NameMap<String>,
    parent_name_map: NameMap<String>,
    original_tip_map: NameMap<String>,
    autostash: bool,
) -> (r: RebaseState)
    ensures
        r.operation == Operation::Commit,
        r.original_branch@ == plan.target_branch@,
        r.target_branch@ == plan.target_branch@,
        opt_string(r.caller_branch) == if plan.switching {
            Some(current_branch_name@)
        } else {
            None
        },
        strs(r.remaining_branches@) == if plan.will_rebase {
            strs(plan.remaining@)
        } else {
            Seq::empty()
        },
        r.in_progress_branch is None,
        r.parent_id_map == parent_id_map,
        r.parent_name_map == parent_name_map,
        r.new_base_map@ == Map::<Seq<char>, String>::empty(),
        r.original_commit_count_map@ == Map::<Seq<char>, usize>::empty(),
        r.original_tip_map == original_tip_map,
        r.owned_tip_map@ == Map::<Seq<char>, String>::empty(),
        r.stash_ref is None,
        r.unstage_on_restore == plan.switching,
        r.autostash == autostash,
        !r.suppress_editor,
        r.cleanup_merged_branches@.len() == 0,
        r.cleanup_checkout_fallback is None,
{
    let remaining = if plan.will_rebase {
        crate::text::copy_texts(&plan.remaining)
    } else {
        Vec::new()
    };
    assert(!plan.will_rebase ==> strs(remaining@) =~= Seq::<Seq<char>>::empty());
    RebaseState {
        operation: Operation::Commit,
        original_branch: plan.target_branch.clone(),
        target_branch: plan.target_branch.clone(),
        caller_branch: if plan.switching {
            Some(current_branch_name.to_owned())
        } else {
            None
        },
        remaining_branches: remaining,
        in_progress_branch: None,
        parent_id_map,
        parent_name_map,
        new_base_map: NameMap::new(),
        original_commit_count_map: NameMap::new(),
        original_tip_map,
        owned_tip_map: NameMap::new(),
        stash_ref: None,
        unstage_on_restore: plan.switching,
        autostash,
        suppress_editor: false,
        cleanup_merged_branches: Vec::new(),
        cleanup_checkout_fallback: None,
    }
}

/// Takes in that what was set aside has been brought back.
pub fn stash_restored(state: &mut RebaseState)
    ensures
        *final(state) == (RebaseState {
            stash_ref: None,
            in_progress_branch: None,
            ..*old(state)
        }),
{
    state.stash_ref = None;
    state.in_progress_branch = None;
}

/// The steps of a commit.
#[derive(Debug, Clone, Copy, PartialEq, Eq, Structural)]
pub enum CommitStep {
    /// Set aside what is not staged, before another branch is checked out.
    StashForSwitch,
    /// Save the state.
    Save,
    /// The state could not be saved: bring back what was set aside and fail.
    GiveBackStash,
    /// Check out the target.
    Checkout,
    /// Make the commit.
    Commit,
    /// Set aside what is not staged, before the fixup is folded in.
    StashForFold,
    /// That could not be done: take the fixup commit back and fail.
    TakeBackFixup,
    /// Save the state for the folding.
    SaveForFold,
    /// Fold the fixup in.
    Fold,
    /// The folding stopped in the middle: save that the target is in progress and fail.
    SaveInProgress,
    /// The folding failed at the start: bring back what was set aside and fail.
    RestoreAndFail,
    /// The fixup is in: bring back what was set aside and delete the state.
    RestoreAndClear,
    /// Rebase the branches and return to where the user was.
    Rebase,
    /// All is done.
    Done,
    /// The run ends with an error.
    Fail(CommitFailure),
}

/// How a run ends that fails.
#[derive(Debug, Clone, Copy, PartialEq, Eq, Structural)]
pub enum CommitFailure {
    /// The error of the step that failed is reported as it is.
    Step,
    Checkout,
    Commit,
    CommitResumable,
    StrayFixup,
    Autosquash,
}

/// The step after a commit that was made.
pub open spec fn after_commit(plan: CommitPlan) -> CommitStep {
    if plan.saved_for_fold() {
        CommitStep::StashForFold
    } else if plan.autosquash {
        CommitStep::Fold
    } else if plan.saved_before() {
        CommitStep::Rebase
    } else {
        CommitStep::Done
    }
}

/// The first step.
pub open spec fn first_step(plan: CommitPlan) -> CommitStep {
    if plan.switching {
        CommitStep::StashForSwitch
    } else if plan.will_rebase {
        CommitStep::Save
    } else {
        CommitStep::Commit
    }
}

/// The step that follows. `ok` says whether the step succeeded, `git_rebase` whether git is in the
/// middle of a rebase after it.
pub open spec fn step_after(
    plan: CommitPlan,
    step: CommitStep,
    ok: bool,
    git_rebase: bool,
) -> CommitStep {
    match step {
        CommitStep::StashForSwitch => if ok {
            CommitStep::Save
        } else {
            CommitStep::Fail(CommitFailure::Step)
        },
        CommitStep::Save => if !ok {
            CommitStep::GiveBackStash
        } else if plan.switching {
            CommitStep::Checkout
        } else {
            CommitStep::Commit
        },
        CommitStep::GiveBackStash => CommitStep::Fail(CommitFailure::Step),
        CommitStep::Checkout => if ok {
            CommitStep::Commit
        } else {
            CommitStep::Fail(CommitFailure::Checkout)
        },
        CommitStep::Commit => if ok {
            after_commit(plan)
        } else if plan.saved_before() {
            CommitStep::Fail(CommitFailure::CommitResumable)
        } else {
            CommitStep::Fail(CommitFailure::Commit)
        },
        CommitStep::StashForFold => if ok {
            CommitStep::SaveForFold
        } else {
            CommitStep::TakeBackFixup
        },
        CommitStep::TakeBackFixup => if ok {
            CommitStep::Fail(CommitFailure::Step)
        } else {
            CommitStep::Fail(CommitFailure::StrayFixup)
        },
        CommitStep::SaveForFold => if ok {
            CommitStep::Fold
        } else {
            CommitStep::GiveBackStash
        },
        CommitStep::Fold => if ok {
            if plan.saved_for_fold() {
                CommitStep::RestoreAndClear
            } else {
                CommitStep::Rebase
            }
        } else if git_rebase {
            CommitStep::SaveInProgress
        } else if plan.saved_for_fold() {
            CommitStep::RestoreAndFail
        } else {
            CommitStep::Fail(CommitFailure::Autosquash)
        },
        CommitStep::SaveInProgress | CommitStep::RestoreAndFail => if ok {
            CommitStep::Fail(CommitFailure::Autosquash)
        } else {
            CommitStep::Fail(CommitFailure::Step)
        },
        CommitStep::RestoreAndClear | CommitStep::Rebase => if ok {
            CommitStep::Done
        } else {
            CommitStep::Fail(CommitFailure::Step)
        },
        CommitStep::Done => CommitStep::Done,
        CommitStep::Fail(f) => CommitStep::Fail(f),
    }
}

pub fn first_commit_step(plan: &CommitPlan) -> (r: CommitStep)
    ensures
        r == first_step(*plan),
{
    if plan.switching {
        CommitStep::StashForSwitch
    } else if plan.will_rebase {
        CommitStep::Save
    } else {
        CommitStep::Commit
    }
}

pub fn next_commit_step(plan: &CommitPlan, step: CommitStep, ok: bool, git_rebase: bool) -> (r:
    CommitStep)
    ensures
        r == step_after(*plan, step, ok, git_rebase),
{
    let saved_before = plan.switching || plan.will_rebase;
    let saved_for_fold = plan.autosquash && !saved_before;
    match step {
        CommitStep::StashForSwitch => if ok {
            CommitStep::Save
        } else {
            CommitStep::Fail(CommitFailure::Step)
        },
        CommitStep::Save => if !ok {
            CommitStep::GiveBackStash
        } else if plan.switching {
            CommitStep::Checkout
        } else {
            CommitStep::Commit
        },
        CommitStep::GiveBackStash => CommitStep::Fail(CommitFailure::Step),
        CommitStep::Checkout => if ok {
            CommitStep::Commit
        } else {
            CommitStep::Fail(CommitFailure::Checkout)
        },
        CommitStep::Commit => if !ok {
            if saved_before {
                CommitStep::Fail(CommitFailure::CommitResumable)
            } else {
                CommitStep::Fail(CommitFailure::Commit)
            }
        } else if saved_for_fold {
            CommitStep::StashForFold
        } else if plan.autosquash {
            CommitStep::Fold
        } else if saved_before {
            CommitStep::Rebase
        } else {
            CommitStep::Done
        },
        CommitStep::StashForFold => if ok {
            CommitStep::SaveForFold
        } else {
            CommitStep::TakeBackFixup
        },
        CommitStep::TakeBackFixup => if ok {
            CommitStep::Fail(CommitFailure::Step)
        } else {
            CommitStep::Fail(CommitFailure::StrayFixup)
        },
        CommitStep::SaveForFold => if ok {
            CommitStep::Fold
        } else {
            CommitStep::GiveBackStash
        },
        CommitStep::Fold => if ok {
            if saved_for_fold {
                CommitStep::RestoreAndClear
            } else {
                CommitStep::Rebase
            }
        } else if git_rebase {
            CommitStep::SaveInProgress
        } else if saved_for_fold {
            CommitStep::RestoreAndFail
        } else {
            CommitStep::Fail(CommitFailure::Autosquash)
        },
        CommitStep::SaveInProgress | CommitStep::RestoreAndFail => if ok {
            CommitStep::Fail(CommitFailure::Autosquash)
        } else {
            CommitStep::Fail(CommitFailure::Step)
        },
        CommitStep::RestoreAndClear | CommitStep::Rebase => if ok {
            CommitStep::Done
        } else {
            CommitStep::Fail(CommitFailure::Step)
        },
        CommitStep::Done => CommitStep::Done,
        CommitStep::Fail(f) => CommitStep::Fail(f),
    }
}

/// Where another branch gets the commit or branches are rebased, the state has been saved before
/// anything is checked out or committed.
pub proof fn law_saved_before_commit(plan: CommitPlan, step: CommitStep, ok: bool, git_rebase: bool)
    requires
        plan.saved_before(),
        step_after(plan, step, ok, git_rebase) is Checkout || step_after(
            plan,
            step,
            ok,
            git_rebase,
        ) is Commit,
    ensures
        ok,
        step is Save || (step is Checkout && step_after(plan, step, ok, git_rebase) is Commit),
        !(first_step(plan) is Checkout) && !(first_step(plan) is Commit),
{
}

/// A state that cannot be saved never leaves changes in a stash that nothing knows of: the stash is
/// given back before the run fails.
pub proof fn law_unsaved_stash_is_given_back(plan: CommitPlan, step: CommitStep, git_rebase: bool)
    requires
        step is Save || step is SaveForFold,
    ensures
        step_after(plan, step, false, git_rebase) is GiveBackStash,
{
}

/// Every run ends: each step moves on to a later one.
pub open spec fn step_rank(step: CommitStep) -> int {
    match step {
        CommitStep::StashForSwitch => 0,
        CommitStep::Save => 1,
        CommitStep::Checkout => 2,
        CommitStep::Commit => 3,
        CommitStep::StashForFold => 4,
        CommitStep::TakeBackFixup => 5,
        CommitStep::SaveForFold => 5,
        CommitStep::GiveBackStash => 6,
        CommitStep::Fold => 6,
        CommitStep::SaveInProgress => 7,
        CommitStep::RestoreAndFail => 7,
        CommitStep::RestoreAndClear => 7,
        CommitStep::Rebase => 7,
        CommitStep::Done => 8,
        CommitStep::Fail(_) => 8,
    }
}

/// Every run ends: each step that is not the last leads to a later one.
pub proof fn law_commit_ends(plan: CommitPlan, step: CommitStep, ok: bool, git_rebase: bool)
    requires
        !(step is Done),
        !(step is Fail),
    ensures
        step_rank(step_after(plan, step, ok, git_rebase)) > step_rank(step),
        step_rank(step) <= 7,
{
}

/// The arguments with which git folds the fixup in.
pub fn autosquash_args(autostash: bool, base: &Option<String>) -> (r: Vec<String>)
    ensures
        strs(r@) == seq!["rebase"@, "-i"@, "--autosquash"@] + (if autostash {
            seq!["--autostash"@]
        } else {
            seq![]
        }) + seq!["--update-refs"@, match *base {
            Some(b) => b@,
            None => "--root"@,
        }],
{
    let last = match base {
        Some(b) => b.as_str(),
        None => "--root",
    };
    if autostash {
        let r = crate::text::list(
            &["rebase", "-i", "--autosquash", "--autostash", "--update-refs", last],
        );
        assert(strs(r@) =~= seq!["rebase"@, "-i"@, "--autosquash"@] + seq!["--autostash"@] + seq![
            "--update-refs"@,
            last@,
        ]);
        r
    } else {
        let r = crate::text::list(&["rebase", "-i", "--autosquash", "--update-refs", last]);
        assert(strs(r@) =~= seq!["rebase"@, "-i"@, "--autosquash"@] + Seq::<Seq<char>>::empty()
            + seq!["--update-refs"@, last@]);
        r
    }
}

proof fn lemma_names_without(sub: Seq<BranchView>, target: Seq<char>, name: Seq<char>)
    ensures
        names_without(sub, target).contains(name) <==> names_of(sub).contains(name) && name
            != target,
    decreases sub.len(),
{
    if sub.len() > 0 {
        let rest = sub.drop_last();
        lemma_names_without(rest, target, name);
        let before = names_without(rest, target);
        let all = names_of(sub);
        let last = sub.last().0;
        assert(all =~= names_of(rest).push(last));
        if names_of(rest).contains(name) {
            assert(all[names_of(rest).index_of(name)] == name);
        }
        assert(all[rest.len() as int] == last);
        if all.contains(name) {
            let k = all.index_of(name);
            if k < rest.len() {
                assert(names_of(rest)[k] == name);
            }
        }
        if last != target {
            let after = before.push(last);
            if before.contains(name) {
                assert(after[before.index_of(name)] == name);
            }
            assert(after[before.len() as int] == last);
            if after.contains(name) {
                let k = after.index_of(name);
                if k < before.len() {
                    assert(before[k] == name);
                }
            }
        }
    }
}

proof fn lemma_with_descendants(
    g: Parents,
    root: Seq<char>,
    all: Seq<BranchView>,
    have: Seq<BranchView>,
    b: BranchView,
)
    ensures
        ({
            let found = with_descendants(g, root, all, have);
            &&& all.contains(b) && b.1 != root && descends(g, b.1, root) ==> names_of(
                found,
            ).contains(b.0)
            &&& found.contains(b) ==> have.contains(b) || (all.contains(b) && descends(
                g,
                b.1,
                root,
            ))
        }),
    decreases all.len(),
{
    if all.len() > 0 {
        let rest = all.drop_last();
        let x = all.last();
        lemma_with_descendants(g, root, rest, have, b);
        let before = with_descendants(g, root, rest, have);
        let found = with_descendants(g, root, all, have);
        if all.contains(b) {
            let k = all.index_of(b);
            if k < rest.len() {
                assert(rest[k] == b);
            }
        }
        if rest.contains(b) {
            assert(all[rest.index_of(b)] == b);
        }
        assert(all[all.len() - 1] == x);
        if x.1 != root && descends(g, x.1, root) && !names_of(before).contains(x.0) {
            assert(names_of(found) =~= names_of(before).push(x.0));
            assert(names_of(found)[before.len() as int] == x.0);
            if names_of(before).contains(b.0) {
                let k = names_of(before).index_of(b.0);
                assert(names_of(found)[k] == b.0);
            }
            if found.contains(b) {
                let k = found.index_of(b);
                if k < before.len() {
                    assert(before[k] == b);
                }
            }
        }
    }
}

/// The commit that the dependents of a target come from: what the target points at.
pub open spec fn target_root(
    target: Seq<char>,
    target_head: Seq<char>,
    upstream: Seq<char>,
    all: Seq<BranchView>,
) -> Seq<char> {
    if target == upstream {
        target_head
    } else {
        all[index_named(all, target)].1
    }
}

/// A commit to a branch is followed by the rebase of every branch of the stack that comes from it,
/// and of no other.
pub proof fn law_every_dependent_is_rebased(
    g: Parents,
    order: Seq<Seq<char>>,
    target: Seq<char>,
    target_head: Seq<char>,
    upstream: Seq<char>,
    all: Seq<BranchView>,
    name: Seq<char>,
)
    requires
        parents_first(g, order),
        target == upstream || index_named(all, target) < all.len(),
    ensures
        ({
            let root = target_root(target, target_head, upstream, all);
            let sorted = topological(g, target_sub_stack(g, target, target_head, upstream, all));
            names_without(sorted, target).contains(name) <==> name != target && exists|k: int|
                0 <= k < all.len() && (#[trigger] all[k]).0 == name && descends(g, all[k].1, root)
        }),
{
    let root = target_root(target, target_head, upstream, all);
    let sub = target_sub_stack(g, target, target_head, upstream, all);
    let sorted = topological(g, sub);
    let have = if target == upstream {
        Seq::empty()
    } else {
        seq![all[index_named(all, target)]]
    };
    law_topological(g, order, sub);
    lemma_names_without(sorted, target, name);
    broadcast use vstd::seq_lib::group_to_multiset_ensures;

    if exists|k: int|
        0 <= k < all.len() && (#[trigger] all[k]).0 == name && descends(g, all[k].1, root) {
        let k = choose|k: int|
            0 <= k < all.len() && (#[trigger] all[k]).0 == name && descends(g, all[k].1, root);
        law_descent_is_strict(g, order, all[k].1, root);
        assert(all.contains(all[k]));
        lemma_with_descendants(g, root, all, have, all[k]);
        let i = names_of(sub).index_of(name);
        assert(sub[i].0 == name);
        assert(sub.contains(sub[i]));
        assert(sub.to_multiset().count(sub[i]) > 0);
        assert(sorted.contains(sub[i]));
        let j = sorted.index_of(sub[i]);
        assert(names_of(sorted)[j] == name);
    }
    if names_of(sorted).contains(name) && name != target {
        let j = names_of(sorted).index_of(name);
        let b = sorted[j];
        assert(sorted.contains(b));
        assert(sorted.to_multiset().count(b) > 0);
        assert(sub.contains(b));
        lemma_with_descendants(g, root, all, have, b);
        if have.contains(b) {
            let at = index_named(all, target);
            assert(have[0] == b);
            lemma_index_named_is(all, target);
            assert(b.0 == target);
        } else {
            let k = all.index_of(b);
            assert(all[k].0 == name);
        }
    }
}

proof fn lemma_index_named_is(all: Seq<BranchView>, name: Seq<char>)
    ensures
        0 <= index_named(all, name) <= all.len(),
        index_named(all, name) < all.len() ==> all[index_named(all, name)].0 == name,
    decreases all.len(),
{
    if all.len() > 0 && all[0].0 != name {
        lemma_index_named_is(all.drop_first(), name);
    }
}

/// A commit of the stack: its id, its branch, its place and the number of places, and its message.
pub type StackCommitView = (Seq<char>, Seq<char>, nat, nat, Seq<char>);

pub open spec fn commit_views(v: Seq<StackCommit>) -> Seq<StackCommitView> {
    Seq::new(
        v.len(),
        |i: int|
            (
                v[i].commit_id@,
                v[i].branch_name@,
                v[i].position.0 as nat,
                v[i].position.1 as nat,
                v[i].message@,
            ),
    )
}

/// The message of a commit; nothing where it is not known.
pub open spec fn message_of(messages: Map<Seq<char>, Seq<char>>, id: Seq<char>) -> Seq<char> {
    if messages.contains_key(id) {
        messages[id]
    } else {
        ""@
    }
}

/// The commits of one branch, the lowest first.
pub open spec fn branch_commits(
    chain: Seq<Seq<char>>,
    branch: Seq<char>,
    messages: Map<Seq<char>, Seq<char>>,
) -> Seq<StackCommitView> {
    Seq::new(
        chain.len(),
        |i: int|
            (chain[i], branch, (i + 1) as nat, chain.len(), message_of(messages, chain[i])),
    )
}

/// The commits of the first `n` branches; none where the history of one is broken.
pub open spec fn stack_commits_of(
    g: Parents,
    steps: nat,
    all: Seq<BranchView>,
    merge_base: Seq<char>,
    messages: Map<Seq<char>, Seq<char>>,
    n: int,
) -> Option<Seq<StackCommitView>>
    decreases n,
{
    if n <= 0 {
        Some(Seq::empty())
    } else {
        let b = all[n - 1];
        match (
            stack_commits_of(g, steps, all, merge_base, messages, n - 1),
            first_parent_chain(g, parent_in_stack(g, b.0, all, merge_base), b.1, steps),
        ) {
            (Some(before), Some(chain)) => Some(before + branch_commits(chain, b.0, messages)),
            _ => None,
        }
    }
}

proof fn lemma_broken_stays(
    g: Parents,
    steps: nat,
    all: Seq<BranchView>,
    merge_base: Seq<char>,
    messages: Map<Seq<char>, Seq<char>>,
    n: int,
)
    requires
        0 <= n <= all.len(),
        stack_commits_of(g, steps, all, merge_base, messages, n) is None,
    ensures
        stack_commits_of(g, steps, all, merge_base, messages, all.len() as int) is None,
    decreases all.len() - n,
{
    if n < all.len() {
        lemma_broken_stays(g, steps, all, merge_base, messages, n + 1);
    }
}

/// The commits of the stack, branch by branch from the bottom up; each belongs to the branch above
/// whose parent it lies.
pub fn enumerate_stack_commits(
    graph: &CommitGraph,
    stack_branches: &Vec<StackBranch>,
    merge_base: &str,
    messages: &NameMap<String>,
) -> (r: Result<Vec<StackCommit>, BrokenHistory>)
    ensures
        ({
            let sorted = topological(graph@, views(stack_branches@));
            let want = stack_commits_of(
                graph@,
                graph.order().len(),
                sorted,
                merge_base@,
                text_map(messages@),
                sorted.len() as int,
            );
            match r {
                Ok(v) => want == Some(commit_views(v@)),
                Err(e) => want is None && exists|k: int|
                    0 <= k < sorted.len() && stack_commits_of(
                        graph@,
                        graph.order().len(),
                        sorted,
                        merge_base@,
                        text_map(messages@),
                        k,
                    ) is Some && first_parent_chain(
                        graph@,
                        parent_in_stack(graph@, (#[trigger] sorted[k]).0, sorted, merge_base@),
                        sorted[k].1,
                        graph.order().len(),
                    ) is None && e.tip@ == sorted[k].1 && e.base@ == parent_in_stack(
                        graph@,
                        sorted[k].0,
                        sorted,
                        merge_base@,
                    ),
            }
        }),
{
    let mut branches = copy_branches(stack_branches);
    sort_branches_topologically(graph, &mut branches);
    let ghost all = views(branches@);
    let ghost texts = text_map(messages@);
    let ghost steps = graph.order().len();
    let mut out: Vec<StackCommit> = Vec::new();
    let mut i: usize = 0;
    assert(commit_views(out@) =~= Seq::<StackCommitView>::empty());
    while i < branches.len()
        invariant
            i <= branches@.len(),
            all == views(branches@),
            all == topological(graph@, views(stack_branches@)),
            texts == text_map(messages@),
            steps == graph.order().len(),
            stack_commits_of(graph@, steps, all, merge_base@, texts, i as int) == Some(
                commit_views(out@),
            ),
        decreases branches@.len() - i,
    {
        let b = &branches[i];
        proof {
            assert(all[i as int] == b@);
            lemma_listed_is_named(all, i as int);
        }
        let parent = match find_parent_in_stack(graph, b.name.as_str(), &branches, merge_base) {
            Ok(id) => id,
            Err(_) => merge_base.to_owned(),
        };
        let chain = match collect_first_parent_chain(graph, parent.as_str(), b.id.as_str()) {
            Ok(c) => c,
            Err(e) => {
                proof {
                    lemma_broken_stays(graph@, steps, all, merge_base@, texts, i + 1);
                }
                return Err(e);
            },
        };
        let ghost line = strs(chain@);
        let ghost before = commit_views(out@);
        let ghost own = branch_commits(line, b.name@, texts);
        let n: usize = chain.len();
        let mut k: usize = 0;
        assert(commit_views(out@) =~= before + own.take(0));
        while k < n
            invariant
                k <= n,
                n == chain@.len(),
                line == strs(chain@),
                texts == text_map(messages@),
                own == branch_commits(line, b.name@, texts),
                commit_views(out@) == before + own.take(k as int),
            decreases n - k,
        {
            let id = chain[k].as_str();
            assert(line[k as int] == id@);
            assert(texts.contains_key(id@) == messages@.contains_key(id@));
            let message = match messages.get(id) {
                Some(m) => m.clone(),
                None => "".to_owned(),
            };
            let ghost was = out@;
            out.push(
                StackCommit {
                    commit_id: chain[k].clone(),
                    branch_name: b.name.clone(),
                    position: (k + 1, n),
                    message,
                },
            );
            assert(commit_views(out@) =~= commit_views(was).push(own[k as int]));
            assert(commit_views(out@) =~= before + own.take(k + 1));
            k += 1;
        }
        assert(own.take(n as int) =~= own);
        i += 1;
    }
    Ok(out)
}

proof fn lemma_listed_is_named(all: Seq<BranchView>, i: int)
    requires
        0 <= i < all.len(),
    ensures
        0 <= index_named(all, all[i].0) < all.len(),
    decreases all.len(),
{
    if all[0].0 != all[i].0 {
        let rest = all.drop_first();
        assert(rest[i - 1] == all[i]);
        lemma_listed_is_named(rest, i - 1);
    }
}

/// The first characters of an id, at most twelve.
pub open spec fn abbreviated(id: Seq<char>) -> Seq<char> {
    if id.len() <= 12 {
        id
    } else {
        id.take(12)
    }
}

/// The first line of a message.
pub open spec fn subject_of(message: Seq<char>) -> Seq<char> {
    if lines_of(message).len() > 0 {
        lines_of(message)[0]
    } else {
        ""@
    }
}

/// The commits whose abbreviated id begins with what has been typed, with their subjects.
pub open spec fn fixup_candidates_of(
    commits: Seq<StackCommit>,
    typed: Seq<char>,
) -> Seq<(Seq<char>, Seq<char>)>
    decreases commits.len(),
{
    if commits.len() == 0 {
        Seq::empty()
    } else {
        let rest = fixup_candidates_of(commits.drop_last(), typed);
        let c = commits.last();
        if typed.is_prefix_of(abbreviated(c.commit_id@)) {
            rest.push((abbreviated(c.commit_id@), subject_of(c.message@)))
        } else {
            rest
        }
    }
}

/// The texts of pairs of strings.
pub open spec fn text_pairs(v: Seq<(String, String)>) -> Seq<(Seq<char>, Seq<char>)> {
    Seq::new(v.len(), |i: int| (v[i].0@, v[i].1@))
}

/// What completes a commit that has been typed in part.
pub fn fixup_commit_candidates(commits: &Vec<StackCommit>, current: &str) -> (r: Vec<
    (String, String),
>)
    ensures
        text_pairs(r@) == fixup_candidates_of(commits@, current@),
{
    let mut out: Vec<(String, String)> = Vec::new();
    let mut i: usize = 0;
    assert(text_pairs(out@) =~= Seq::<(Seq<char>, Seq<char>)>::empty());
    while i < commits.len()
        invariant
            i <= commits@.len(),
            text_pairs(out@) == fixup_candidates_of(commits@.take(i as int), current@),
        decreases commits@.len() - i,
    {
        let c = &commits[i];
        assert(commits@.take(i + 1).drop_last() =~= commits@.take(i as int));
        let chars = to_chars(c.commit_id.as_str());
        let n: usize = chars.len();
        let short = from_range(
            &chars,
            0,
            if n <= 12 {
                n
            } else {
                12
            },
        );
        assert(short@ =~= abbreviated(c.commit_id@));
        if starts_with(short.as_str(), current) {
            let lines = split_lines(c.message.as_str());
            assert(strs(lines@).len() == lines@.len());
            let subject = if lines.len() > 0 {
                assert(strs(lines@)[0] == lines@[0]@);
                lines[0].clone()
            } else {
                "".to_owned()
            };
            let ghost before = out@;
            out.push((short, subject));
            assert(text_pairs(out@) =~= text_pairs(before).push((short@, subject@)));
        }
        i += 1;
    }
    assert(commits@.take(commits@.len() as int) =~= commits@);
    out
}

/// What a run has done so far.
pub struct CommitWork {
    pub step: CommitStep,
    /// What was not staged is set aside.
    pub stashed: bool,
    /// There is a state for `kin continue` and `kin abort`.
    pub saved: bool,
    /// The target is checked out.
    pub switched: bool,
    pub committed: bool,
    /// The fixup is folded in.
    pub folded: bool,
    /// The branches that depend on the target are rebased, and the user is back.
    pub rebased: bool,
    /// A step has failed.
    pub failed: bool,
}

/// What a step that succeeded has done.
pub open spec fn commit_work_done(w: CommitWork) -> CommitWork {
    match w.step {
        CommitStep::StashForSwitch | CommitStep::StashForFold => CommitWork { stashed: true, ..w },
        CommitStep::Save | CommitStep::SaveForFold => CommitWork { saved: true, ..w },
        CommitStep::Checkout => CommitWork { switched: true, ..w },
        CommitStep::Commit => CommitWork { committed: true, ..w },
        CommitStep::Fold => CommitWork { folded: true, ..w },
        CommitStep::TakeBackFixup => CommitWork { committed: false, ..w },
        CommitStep::GiveBackStash | CommitStep::RestoreAndFail => CommitWork {
            stashed: false,
            ..w
        },
        CommitStep::RestoreAndClear => CommitWork { stashed: false, saved: false, ..w },
        CommitStep::Rebase => CommitWork { rebased: true, stashed: false, saved: false, ..w },
        CommitStep::SaveInProgress | CommitStep::Done | CommitStep::Fail(_) => w,
    }
}

/// A run after its first `n` steps, each of which went as `outcomes` says: whether it succeeded, and
/// whether git is in the middle of a rebase after it.
pub open spec fn commit_run(plan: CommitPlan, outcomes: spec_fn(int) -> (bool, bool), n: int) -> CommitWork
    decreases n,
{
    if n <= 0 {
        CommitWork {
            step: first_step(plan),
            stashed: false,
            saved: false,
            switched: false,
            committed: false,
            folded: false,
            rebased: false,
            failed: false,
        }
    } else {
        let w = commit_run(plan, outcomes, n - 1);
        let (ok, git_rebase) = outcomes(n - 1);
        let over = w.step is Done || w.step is Fail;
        CommitWork {
            step: step_after(plan, w.step, ok, git_rebase),
            failed: w.failed || (!ok && !over),
            ..if ok {
                commit_work_done(w)
            } else {
                w
            }
        }
    }
}

/// What holds of a run at each step.
spec fn commit_in_order(plan: CommitPlan, w: CommitWork) -> bool {
    let moves = plan.switching || plan.will_rebase;
    let fold_only = plan.autosquash && !moves;
    match w.step {
        CommitStep::StashForSwitch => plan.switching && !w.stashed && !w.saved && !w.switched
            && !w.committed && !w.folded && !w.rebased && !w.failed,
        CommitStep::Save => moves && w.stashed == plan.switching && !w.saved && !w.switched
            && !w.committed && !w.folded && !w.rebased && !w.failed,
        CommitStep::Checkout => plan.switching && w.stashed && w.saved && !w.switched
            && !w.committed && !w.folded && !w.rebased && !w.failed,
        CommitStep::Commit => w.stashed == plan.switching && w.saved == moves && w.switched
            == plan.switching && !w.committed && !w.folded && !w.rebased && !w.failed,
        CommitStep::StashForFold => fold_only && !w.stashed && !w.saved && !w.switched
            && w.committed && !w.folded && !w.rebased && !w.failed,
        CommitStep::SaveForFold => fold_only && w.stashed && !w.saved && !w.switched && w.committed
            && !w.folded && !w.rebased && !w.failed,
        CommitStep::Fold => plan.autosquash && w.stashed == (plan.switching || fold_only) && w.saved
            && w.switched == plan.switching && w.committed && !w.folded && !w.rebased && !w.failed,
        CommitStep::Rebase => moves && w.stashed == plan.switching && w.saved && w.switched
            == plan.switching && w.committed && w.folded == plan.autosquash && !w.rebased
            && !w.failed,
        CommitStep::RestoreAndClear => fold_only && w.stashed && w.saved && !w.switched
            && w.committed && w.folded && !w.rebased && !w.failed,
        CommitStep::Done => !w.stashed && !w.saved && w.switched == plan.switching && w.committed
            && w.folded == plan.autosquash && w.rebased == moves && !w.failed,
        CommitStep::TakeBackFixup => w.failed && fold_only && !w.stashed && !w.saved && w.committed
            && !w.folded && !w.rebased,
        CommitStep::GiveBackStash => w.failed && !w.saved && !w.folded && !w.rebased,
        CommitStep::SaveInProgress => w.failed && w.saved && w.committed && !w.folded && !w.rebased,
        CommitStep::RestoreAndFail => w.failed && w.saved && w.committed && !w.folded && !w.rebased,
        CommitStep::Fail(_) => w.failed && !w.rebased,
    }
}

proof fn lemma_commit_in_order(plan: CommitPlan, outcomes: spec_fn(int) -> (bool, bool), n: int)
    ensures
        commit_in_order(plan, commit_run(plan, outcomes, n)),
    decreases n,
{
    if n > 0 {
        lemma_commit_in_order(plan, outcomes, n - 1);
    }
}

/// A run that ends well has done all that was planned: the commit is made, on the target where that
/// is another branch, a fixup is folded in, and where branches depend on the target or the user was
/// elsewhere, the branches are rebased and the user is back. Nothing is left set aside or saved, and
/// no step has failed.
pub proof fn law_done_commit_is_complete(
    plan: CommitPlan,
    outcomes: spec_fn(int) -> (bool, bool),
    n: int,
)
    requires
        commit_run(plan, outcomes, n).step is Done,
    ensures
        ({
            let w = commit_run(plan, outcomes, n);
            &&& w.committed
            &&& w.switched == plan.switching
            &&& w.folded == plan.autosquash
            &&& plan.will_rebase ==> w.rebased
            &&& plan.switching ==> w.rebased
            &&& w.rebased ==> plan.will_rebase || plan.switching
            &&& !w.stashed
            &&& !w.saved
            &&& !w.failed
        }),
{
    lemma_commit_in_order(plan, outcomes, n);
}

/// A run that fails has had a step fail, and a run of which no step fails ends well within eight
/// steps.
pub proof fn law_commit_fails_only_where_a_step_does(
    plan: CommitPlan,
    outcomes: spec_fn(int) -> (bool, bool),
    n: int,
)
    ensures
        commit_run(plan, outcomes, n).step is Fail ==> commit_run(plan, outcomes, n).failed,
        n >= 8 && !commit_run(plan, outcomes, n).failed ==> commit_run(
            plan,
            outcomes,
            n,
        ).step is Done,
{
    lemma_commit_in_order(plan, outcomes, n);
    if n >= 8 {
        lemma_commit_rank(plan, outcomes, n);
    }
}

proof fn lemma_commit_rank(plan: CommitPlan, outcomes: spec_fn(int) -> (bool, bool), n: int)
    requires
        n >= 0,
    ensures
        step_rank(commit_run(plan, outcomes, n).step) >= if n <= 8 {
            n
        } else {
            8
        },
    decreases n,
{
    if n > 0 {
        lemma_commit_rank(plan, outcomes, n - 1);
    }
}

/// The order of a run: nothing is checked out or committed on another branch, and nothing committed
/// below other branches, before the state is saved; the changes are set aside before the target is
/// checked out; a fixup is folded in only after the commit and with a saved state; branches are
/// rebased only after the commit and the folding.
pub proof fn law_commit_steps_are_in_order(
    plan: CommitPlan,
    outcomes: spec_fn(int) -> (bool, bool),
    n: int,
)
    ensures
        ({
            let w = commit_run(plan, outcomes, n);
            &&& w.step is Checkout ==> w.stashed && w.saved && !w.committed && plan.switching
            &&& w.step is Commit ==> w.switched == plan.switching && (plan.switching
                || plan.will_rebase ==> w.saved) && !w.failed
            &&& w.step is Fold ==> w.committed && w.saved && plan.autosquash && !w.failed
            &&& w.step is Rebase ==> w.committed && w.saved && w.folded == plan.autosquash
                && !w.failed
            &&& w.step is TakeBackFixup ==> w.committed && !w.stashed && !w.saved
        }),
{
    lemma_commit_in_order(plan, outcomes, n);
}

} // verus!
