//! What is promised of `kin commit` and `kin absorb` around the steps: what follows the target, which
//! commits can be folded into, and what is noted of where branches were.

use crate::boundary_laws::{is_first_parent_line, law_chain_is_the_line_of_first_parents};
use crate::commands::absorb::{absorb_sub_stack, absorb_tips_of};
use crate::commands::commit::{
    autosquash_base_of, fixup_candidates_of, has_dependents, index_of_commit, index_of_display,
    index_of_line, commit_line_of, names_without, stack_commits_of, step_after, target_sub_stack,
    tips_in_range, with_arg, with_tips, CommitFailure, CommitPlan, CommitStep, StackCommit,
    StackCommitView, target_options_of, abbreviated, subject_of,
};
use crate::commands::commit_args::separator;
use crate::commands::commit_plan::{
    is_fold, stack_of_target, target_of, tips_to_keep, CommitScope,
};
use crate::commands::commit::Fold;
use crate::graph::{descends, law_descent_is_strict, parents_first, reaches, Parents};
use crate::lists::{chosen, lemma_chosen_next, lemma_chosen_none};
use crate::stack::{
    display_line, index_named, law_topological, names_of, parent_in_stack, topological, views,
    with_descendants, BranchView,
};
use crate::stack_laws::{
    law_descendants_are_collected, law_index_named, law_stack_from_the_merge_base,
};
use crate::text::lines_of;
use vstd::prelude::*;

verus! {

/// How a run of `kin commit` fails: a commit that git refuses can be gone on with exactly where the
/// state was saved before it; a checkout that fails says so; a folding that stopped in the middle is
/// saved, and one that did not begin gives back what was set aside for it; a fixup that cannot be
/// taken back is told of.
pub proof fn law_failed_commit_says_why(plan: CommitPlan, git_rebase: bool)
    ensures
        ({
            let moves = plan.switching || plan.will_rebase;
            &&& step_after(plan, CommitStep::Checkout, false, git_rebase) == CommitStep::Fail(
                CommitFailure::Checkout,
            )
            &&& moves ==> step_after(plan, CommitStep::Commit, false, git_rebase)
                == CommitStep::Fail(CommitFailure::CommitResumable)
            &&& !moves ==> step_after(plan, CommitStep::Commit, false, git_rebase)
                == CommitStep::Fail(CommitFailure::Commit)
            &&& step_after(plan, CommitStep::StashForFold, false, git_rebase)
                == CommitStep::TakeBackFixup
            &&& step_after(plan, CommitStep::TakeBackFixup, false, git_rebase) == CommitStep::Fail(
                CommitFailure::StrayFixup,
            )
            &&& step_after(plan, CommitStep::TakeBackFixup, true, git_rebase) == CommitStep::Fail(
                CommitFailure::Step,
            )
            &&& step_after(plan, CommitStep::Fold, false, true) == CommitStep::SaveInProgress
            &&& plan.autosquash && !moves ==> step_after(plan, CommitStep::Fold, false, false)
                == CommitStep::RestoreAndFail
            &&& moves ==> step_after(plan, CommitStep::Fold, false, false) == CommitStep::Fail(
                CommitFailure::Autosquash,
            )
            &&& step_after(plan, CommitStep::SaveInProgress, true, git_rebase) == CommitStep::Fail(
                CommitFailure::Autosquash,
            )
            &&& step_after(plan, CommitStep::RestoreAndFail, true, git_rebase) == CommitStep::Fail(
                CommitFailure::Autosquash,
            )
        }),
{
}

/// The branches other than the target keep their order, and none is left out or added.
pub proof fn law_names_without_the_target(sub: Seq<BranchView>, target: Seq<char>, n: int)
    requires
        0 <= n <= sub.len(),
    ensures
        names_without(sub.take(n), target) == chosen(
            n,
            |k: int| sub[k].0 != target,
            |k: int| sub[k].0,
        ),
    decreases n,
{
    let keep = |k: int| sub[k].0 != target;
    let give = |k: int| sub[k].0;
    if n > 0 {
        law_names_without_the_target(sub, target, n - 1);
        lemma_chosen_next(n - 1, keep, give);
        assert(sub.take(n).drop_last() =~= sub.take(n - 1));
        assert(sub.take(n).last() == sub[n - 1]);
    } else {
        lemma_chosen_none(keep, give);
    }
}

/// Something depends on a target exactly where another branch follows it; for the upstream, where any
/// branch does.
pub proof fn law_dependents_are_other_branches(
    target: Seq<char>,
    upstream: Seq<char>,
    sub: Seq<BranchView>,
)
    ensures
        target == upstream ==> (has_dependents(target, upstream, sub) <==> sub.len() > 0),
        target != upstream ==> (has_dependents(target, upstream, sub) <==> exists|k: int|
            0 <= k < sub.len() && (#[trigger] sub[k]).0 != target),
{
}

/// What follows a target is the target itself, where it is a branch of the stack, and every branch of
/// the stack on another commit that comes from it; nothing else.
pub proof fn law_target_is_followed_by_what_stands_on_it(
    g: Parents,
    target: Seq<char>,
    head: Seq<char>,
    upstream: Seq<char>,
    all: Seq<BranchView>,
    i: int,
)
    requires
        names_of(all).no_duplicates(),
        0 <= i < all.len(),
    ensures
        ({
            let sub = target_sub_stack(g, target, head, upstream, all);
            let names = names_of(sub);
            &&& target == upstream ==> (names.contains(all[i].0) <==> all[i].1 != head && descends(
                g,
                all[i].1,
                head,
            ))
            &&& target != upstream && !names_of(all).contains(target) ==> sub.len() == 0
            &&& forall|t: int|
                target != upstream && 0 <= t < all.len() && (#[trigger] all[t]).0 == target ==> (
                names.contains(all[i].0) <==> i == t || (all[i].1 != all[t].1 && descends(
                    g,
                    all[i].1,
                    all[t].1,
                )))
        }),
{
    let sub = target_sub_stack(g, target, head, upstream, all);
    let n = all.len() as int;
    assert(all.take(n) =~= all);
    law_index_named(all, target);
    let at = index_named(all, target);
    if target == upstream {
        law_descendants_are_collected(g, head, all, Seq::empty(), n);
        lemma_found(g, head, all, Seq::empty(), i);
    } else if at < n {
        law_descendants_are_collected(g, all[at].1, all, seq![all[at]], n);
        lemma_found(g, all[at].1, all, seq![all[at]], i);
        assert forall|t: int| 0 <= t < all.len() && (#[trigger] all[t]).0 == target implies t
            == at by {
            assert(names_of(all)[t] == names_of(all)[at]);
        }
        assert(names_of(all)[at] == target);
        let have = seq![all[at]];
        assert(names_of(have)[0] == all[at].0);
        assert forall|name: Seq<char>| names_of(have).contains(name) implies name == target by {}
        if i == at {
            assert(names_of(have).contains(all[i].0));
        } else {
            assert(names_of(all)[i] != names_of(all)[at]);
        }
    } else {
        assert forall|t: int| 0 <= t < all.len() implies (#[trigger] all[t]).0 != target by {}
    }
}

proof fn lemma_found(
    g: Parents,
    root: Seq<char>,
    all: Seq<BranchView>,
    have: Seq<BranchView>,
    i: int,
)
    requires
        names_of(all).no_duplicates(),
        0 <= i < all.len(),
    ensures
        names_of(with_descendants(g, root, all, have)).contains(all[i].0) <==> names_of(
            have,
        ).contains(all[i].0) || (all[i].1 != root && descends(g, all[i].1, root)),
{
    let n = all.len() as int;
    assert(all.take(n) =~= all);
    law_descendants_are_collected(g, root, all, have, n);
    let found = with_descendants(g, root, all, have);
    let names = names_of(found);
    if names_of(have).contains(all[i].0) {
        let k = names_of(have).index_of(all[i].0);
        assert(found.take(have.len() as int)[k] == have[k]);
        assert(names[k] == all[i].0);
    }
    if names.contains(all[i].0) {
        let k = names.index_of(all[i].0);
        if k < have.len() {
            assert(found.take(have.len() as int)[k] == have[k]);
            assert(names_of(have)[k] == all[i].0);
        } else {
            assert(all.contains(found[k]));
            let m = all.index_of(found[k]);
            assert(names_of(all)[m] == names_of(all)[i]);
        }
    }
}

/// The tips that are noted: of the first branches, each under its name, the last of a name; every
/// other tip stays.
pub proof fn law_tips_are_noted_by_name(
    tips: Map<Seq<char>, Seq<char>>,
    branches: Seq<BranchView>,
    n: int,
    name: Seq<char>,
)
    requires
        0 <= n <= branches.len(),
    ensures
        ({
            let after = with_tips(tips, branches, n);
            ||| exists|k: int|
                0 <= k < n && (#[trigger] branches[k]).0 == name && after.contains_key(name)
                    && after[name] == branches[k].1 && forall|j: int|
                    k < j < n ==> (#[trigger] branches[j]).0 != name
            ||| (forall|k: int| 0 <= k < n ==> (#[trigger] branches[k]).0 != name)
                && after.contains_key(name) == tips.contains_key(name) && (tips.contains_key(name)
                ==> after[name] == tips[name])
        }),
    decreases n,
{
    if n > 0 {
        law_tips_are_noted_by_name(tips, branches, n - 1, name);
        let before = with_tips(tips, branches, n - 1);
        if branches[n - 1].0 == name {
            assert(0 <= n - 1 < n && branches[n - 1].0 == name);
        } else if exists|k: int|
            0 <= k < n - 1 && (#[trigger] branches[k]).0 == name && before.contains_key(name)
                && before[name] == branches[k].1 && forall|j: int|
                k < j < n - 1 ==> (#[trigger] branches[j]).0 != name {
            let k = choose|k: int|
                0 <= k < n - 1 && (#[trigger] branches[k]).0 == name && before.contains_key(name)
                    && before[name] == branches[k].1 && forall|j: int|
                    k < j < n - 1 ==> (#[trigger] branches[j]).0 != name;
            assert(0 <= k < n && branches[k].0 == name);
        }
    }
}

/// The tips that are noted of what a folding rewrites: a local branch at or below the head and not at
/// or below the base gets its tip noted, unless one is known; no other tip changes.
pub proof fn law_tips_in_range_are_noted(
    g: Parents,
    base: Option<Seq<char>>,
    head: Seq<char>,
    locals: Seq<BranchView>,
    tips: Map<Seq<char>, Seq<char>>,
    n: int,
    name: Seq<char>,
)
    requires
        0 <= n <= locals.len(),
    ensures
        ({
            let after = tips_in_range(g, base, head, locals, tips, n);
            &&& tips.contains_key(name) ==> after.contains_key(name) && after[name] == tips[name]
            &&& after.contains_key(name) && !tips.contains_key(name) ==> exists|k: int| {
                &&& 0 <= k < n
                &&& (#[trigger] locals[k]).0 == name
                &&& after[name] == locals[k].1
                &&& reaches(g, head, locals[k].1)
                &&& base is Some ==> !reaches(g, base->0, locals[k].1)
            }
            &&& forall|k: int|
                0 <= k < n && (#[trigger] locals[k]).0 == name && reaches(g, head, locals[k].1) && (
                base is Some ==> !reaches(g, base->0, locals[k].1)) ==> after.contains_key(name)
        }),
    decreases n,
{
    if n > 0 {
        law_tips_in_range_are_noted(g, base, head, locals, tips, n - 1, name);
        let before = tips_in_range(g, base, head, locals, tips, n - 1);
        let after = tips_in_range(g, base, head, locals, tips, n);
        if before.contains_key(name) && !tips.contains_key(name) {
            let k = choose|k: int| {
                &&& 0 <= k < n - 1
                &&& (#[trigger] locals[k]).0 == name
                &&& before[name] == locals[k].1
                &&& reaches(g, head, locals[k].1)
                &&& base is Some ==> !reaches(g, base->0, locals[k].1)
            };
            assert(0 <= k < n && locals[k].0 == name);
        } else if after.contains_key(name) && !tips.contains_key(name) {
            assert(0 <= n - 1 < n && locals[n - 1].0 == name);
        }
    }
}

/// A folding rewrites history from the commit below the one that is folded into; a root commit has
/// none.
pub proof fn law_folding_begins_below_the_commit(g: Parents, commit: Seq<char>)
    ensures
        autosquash_base_of(g, commit) matches Some(base) ==> g.contains_key(commit)
            && g[commit].len() > 0 && g[commit][0] == base,
        autosquash_base_of(g, commit) is None ==> !g.contains_key(commit) || g[commit].len() == 0,
{
}

/// The commits of one branch of the stack: the line of first parents above what it stands on, each
/// with its place.
pub open spec fn lists_branch(
    part: Seq<StackCommitView>,
    line: Seq<Seq<char>>,
    branch: Seq<char>,
    messages: Map<Seq<char>, Seq<char>>,
) -> bool {
    &&& part.len() == line.len() - 1
    &&& forall|i: int|
        0 <= i < part.len() ==> {
            let c = #[trigger] part[i];
            &&& c.0 == line[i + 1]
            &&& c.1 == branch
            &&& c.2 == i + 1
            &&& c.3 == part.len()
            &&& messages.contains_key(c.0) ==> c.4 == messages[c.0]
            &&& !messages.contains_key(c.0) ==> c.4 == ""@
        }
}

/// The commits of the stack are listed branch by branch, each branch with the commits of the line of
/// first parents from what it stands on up to its tip; one more branch adds its commits behind.
pub proof fn law_every_commit_of_the_stack_is_listed(
    g: Parents,
    order: Seq<Seq<char>>,
    all: Seq<BranchView>,
    merge_base: Seq<char>,
    messages: Map<Seq<char>, Seq<char>>,
    n: int,
)
    requires
        parents_first(g, order),
        0 < n <= all.len(),
    ensures
        stack_commits_of(g, order.len(), all, merge_base, messages, 0) == Some(
            Seq::<StackCommitView>::empty(),
        ),
        ({
            let b = all[n - 1];
            let before = stack_commits_of(g, order.len(), all, merge_base, messages, n - 1);
            match stack_commits_of(g, order.len(), all, merge_base, messages, n) {
                Some(v) => before is Some && before->0.len() <= v.len() && v.take(
                    before->0.len() as int,
                ) == before->0 && exists|line: Seq<Seq<char>>| {
                    &&& line.len() > 0
                    &&& line[0] == parent_in_stack(g, b.0, all, merge_base)
                    &&& line.last() == b.1
                    &&& #[trigger] is_first_parent_line(g, line)
                    &&& lists_branch(v.skip(before->0.len() as int), line, b.0, messages)
                },
                None => before is None || forall|line: Seq<Seq<char>>|
                    line.len() > 0 && line[0] == parent_in_stack(g, b.0, all, merge_base)
                        && line.last() == b.1 ==> !#[trigger] is_first_parent_line(g, line),
            }
        }),
{
    let b = all[n - 1];
    let parent = parent_in_stack(g, b.0, all, merge_base);
    law_chain_is_the_line_of_first_parents(g, order, parent, b.1);
    let before = stack_commits_of(g, order.len(), all, merge_base, messages, n - 1);
    match stack_commits_of(g, order.len(), all, merge_base, messages, n) {
        Some(v) => {
            let chain = crate::boundary::first_parent_chain(g, parent, b.1, order.len())->0;
            let line = seq![parent] + chain;
            let part = v.skip(before->0.len() as int);
            assert(v.take(before->0.len() as int) =~= before->0);
            assert(part =~= crate::commands::commit::branch_commits(chain, b.0, messages));
            assert(line[0] == parent);
            assert(lists_branch(part, line, b.0, messages));
            assert(is_first_parent_line(g, line));
        },
        None => {},
    }
}

/// The commit that is found is the first in the list with that id; where none has it, none is found.
pub proof fn law_fixup_target_is_found(commits: Seq<StackCommit>, id: Seq<char>)
    ensures
        0 <= index_of_commit(commits, id) <= commits.len(),
        index_of_commit(commits, id) < commits.len() ==> commits[index_of_commit(
            commits,
            id,
        )].commit_id@ == id,
        forall|k: int|
            0 <= k < index_of_commit(commits, id) ==> (#[trigger] commits[k]).commit_id@ != id,
    decreases commits.len(),
{
    if commits.len() > 0 && commits[0].commit_id@ != id {
        let rest = commits.drop_first();
        law_fixup_target_is_found(rest, id);
        assert forall|k: int| 0 <= k < index_of_commit(commits, id) implies (
        #[trigger] commits[k]).commit_id@ != id by {
            if k > 0 {
                assert(rest[k - 1] == commits[k]);
            }
        }
    }
}

/// A line that was chosen stands for the first commit that has it.
pub proof fn law_chosen_line_is_its_commit(commits: Seq<StackCommit>, line: Seq<char>)
    ensures
        0 <= index_of_line(commits, line) <= commits.len(),
        index_of_line(commits, line) < commits.len() ==> commit_line_of(
            commits[index_of_line(commits, line)],
        ) == line,
        forall|k: int|
            0 <= k < index_of_line(commits, line) ==> commit_line_of(#[trigger] commits[k]) != line,
    decreases commits.len(),
{
    if commits.len() > 0 && commit_line_of(commits[0]) != line {
        let rest = commits.drop_first();
        law_chosen_line_is_its_commit(rest, line);
        assert forall|k: int| 0 <= k < index_of_line(commits, line) implies commit_line_of(
            #[trigger] commits[k],
        ) != line by {
            if k > 0 {
                assert(rest[k - 1] == commits[k]);
            }
        }
    }
}

/// A line that was chosen stands for the first branch that has it.
pub proof fn law_chosen_line_is_its_target(
    options: Seq<BranchView>,
    current: Seq<char>,
    line: Seq<char>,
)
    ensures
        ({
            let at = index_of_display(options, current, line);
            &&& 0 <= at <= options.len()
            &&& at < options.len() ==> display_line(options[at].0, Some(current)) == line
            &&& forall|k: int|
                0 <= k < at ==> display_line((#[trigger] options[k]).0, Some(current)) != line
        }),
    decreases options.len(),
{
    if options.len() > 0 && display_line(options[0].0, Some(current)) != line {
        let rest = options.drop_first();
        law_chosen_line_is_its_target(rest, current, line);
        assert forall|k: int| 0 <= k < index_of_display(options, current, line) implies display_line(
            (#[trigger] options[k]).0,
            Some(current),
        ) != line by {
            if k > 0 {
                assert(rest[k - 1] == options[k]);
            }
        }
    }
}

/// The branches that a commit can go to are those of the stack and the current one, each behind those
/// that it comes from.
pub proof fn law_every_branch_can_be_the_target(
    g: Parents,
    order: Seq<Seq<char>>,
    stack: Seq<BranchView>,
    current: Seq<char>,
    head: Seq<char>,
    b: BranchView,
)
    requires
        parents_first(g, order),
    ensures
        ({
            let options = target_options_of(g, stack, current, head);
            &&& options.contains(b) <==> stack.contains(b) || (b == (current, head) && !names_of(
                stack,
            ).contains(current))
            &&& forall|i: int, j: int|
                0 <= i < j < options.len() ==> !descends(
                    g,
                    (#[trigger] options[i]).1,
                    (#[trigger] options[j]).1,
                )
        }),
{
    let list = if names_of(stack).contains(current) {
        stack
    } else {
        stack.push((current, head))
    };
    law_topological(g, order, list);
    let options = target_options_of(g, stack, current, head);
    broadcast use vstd::seq_lib::group_to_multiset_ensures;

    assert(options.contains(b) <==> options.to_multiset().count(b) > 0);
    assert(list.contains(b) <==> list.to_multiset().count(b) > 0);
    if stack.contains(b) {
        assert(list[stack.index_of(b)] == b);
    }
    if !names_of(stack).contains(current) {
        assert(list[stack.len() as int] == (current, head));
        if list.contains(b) {
            let k = list.index_of(b);
            if k < stack.len() {
                assert(stack[k] == b);
            }
        }
    }
}

/// What is offered while a commit is typed: the commits whose first twelve characters begin with it,
/// in their order, each with the first line of its message.
pub proof fn law_completions_begin_as_typed(commits: Seq<StackCommit>, typed: Seq<char>, n: int)
    requires
        0 <= n <= commits.len(),
    ensures
        fixup_candidates_of(commits.take(n), typed) == chosen(
            n,
            |k: int| typed.is_prefix_of(abbreviated(commits[k].commit_id@)),
            |k: int| (abbreviated(commits[k].commit_id@), subject_of(commits[k].message@)),
        ),
        forall|id: Seq<char>|
            #![trigger abbreviated(id)]
            abbreviated(id).len() == (if id.len() < 12 {
                id.len()
            } else {
                12
            }) && abbreviated(id).is_prefix_of(id),
        forall|message: Seq<char>|
            #![trigger subject_of(message)]
            lines_of(message).len() > 0 ==> subject_of(message) == lines_of(message)[0],
    decreases n,
{
    let keep = |k: int| typed.is_prefix_of(abbreviated(commits[k].commit_id@));
    let give = |k: int| (abbreviated(commits[k].commit_id@), subject_of(commits[k].message@));
    if n > 0 {
        law_completions_begin_as_typed(commits, typed, n - 1);
        lemma_chosen_next(n - 1, keep, give);
        assert(commits.take(n).drop_last() =~= commits.take(n - 1));
        assert(commits.take(n).last() == commits[n - 1]);
    } else {
        lemma_chosen_none(keep, give);
    }
    assert forall|id: Seq<char>| #![trigger abbreviated(id)] abbreviated(id).len() == (if id.len()
        < 12 {
        id.len()
    } else {
        12
    }) && abbreviated(id).is_prefix_of(id) by {
        if id.len() <= 12 {
            assert(id.subrange(0, id.len() as int) =~= id);
        }
    }
}

/// An argument that is added stands before the `--`, once; the others keep their order.
pub proof fn law_argument_is_added_once(args: Seq<Seq<char>>, arg: Seq<char>)
    requires
        0 <= separator(args) <= args.len(),
    ensures
        with_arg(args, arg).contains(arg),
        args.contains(arg) ==> with_arg(args, arg) == args,
        !args.contains(arg) ==> with_arg(args, arg).len() == args.len() + 1 && with_arg(
            args,
            arg,
        ).remove(separator(args)) == args && with_arg(args, arg)[separator(args)] == arg,
{
    if !args.contains(arg) {
        let at = separator(args);
        assert(with_arg(args, arg)[at] == arg);
        assert(with_arg(args, arg).remove(at) =~= args);
    }
}

/// A commit that was picked is folded into: the tip of the current branch is amended in place, and any
/// other commit gets a fixup of its own id, in place exactly where it lies strictly below the head.
pub proof fn law_picked_commit_is_folded_into(
    g: Parents,
    c: StackCommit,
    head: Seq<char>,
    current: Seq<char>,
    before: Seq<Seq<char>>,
    after: Seq<Seq<char>>,
    fold: Fold,
)
    requires
        is_fold(g, Some(c), head, current, before, after, fold),
        0 <= separator(before) <= before.len(),
    ensures
        ({
            let amends = c.commit_id@ == head && c.branch_name@ == current;
            &&& amends <==> fold.fixup is None
            &&& amends ==> after.contains("--amend"@) && after.contains("--no-edit"@)
                && !fold.inline
            &&& !amends ==> fold.fixup->0@ == c.commit_id@ && after.contains(
                "--fixup="@ + c.commit_id@,
            )
            &&& fold.inline <==> c.commit_id@ != head && descends(g, head, c.commit_id@)
        }),
{
    if c.commit_id@ == head && c.branch_name@ == current {
        let once = with_arg(before, "--amend"@);
        if !before.contains("--amend"@) {
            assert(once[separator(before)] == "--amend"@);
        }
        assert(once.contains("--amend"@));
        crate::commands::commit_args::lemma_separator(once);
        if !once.contains("--no-edit"@) {
            let at = separator(once);
            assert(after[at] == "--no-edit"@);
            let k = once.index_of("--amend"@);
            if k < at {
                assert(after[k] == "--amend"@);
            } else {
                assert(after[k + 1] == "--amend"@);
            }
        }
    } else {
        assert(after[separator(before)] == "--fixup="@ + c.commit_id@);
    }
}

/// A commit goes to the branch of the commit that was picked, or stays where the fixup is made in
/// place; without one it goes where `--on` says, and else to the current branch.
pub proof fn law_commit_goes_where_it_is_sent(
    picked: Option<StackCommit>,
    inline: bool,
    on_target: Option<Option<Seq<char>>>,
    current: Seq<char>,
)
    ensures
        picked is Some && inline ==> target_of(picked, inline, on_target, current) == Some(current),
        picked is Some && !inline ==> target_of(picked, inline, on_target, current) == Some(
            picked->0.branch_name@,
        ),
        picked is None && on_target is None ==> target_of(picked, inline, on_target, current)
            == Some(current),
        picked is None && on_target is Some ==> target_of(picked, inline, on_target, current)
            == on_target->0,
{
}

/// An abort of a commit can go back to where every branch was that the run moves: the target, the
/// branches that follow it, and, for a fixup made in place, the local branches in the range that is
/// rewritten. This holds of branches of different names, of which the target's own tip is noted.
pub proof fn law_commit_notes_every_tip_it_moves(
    g: Parents,
    locals: Seq<BranchView>,
    scope: CommitScope,
    will_rebase: bool,
    fold: Fold,
)
    ensures
        ({
            let tips = tips_to_keep(g, locals, scope, will_rebase, fold);
            let sub = views(scope.sub_stack@);
            &&& tips.contains_key(scope.target_branch@)
            &&& !will_rebase ==> tips[scope.target_branch@] == scope.target_id@
            &&& will_rebase ==> forall|k: int|
                0 <= k < sub.len() ==> tips.contains_key((#[trigger] sub[k]).0)
            &&& will_rebase && names_of(sub).no_duplicates() ==> forall|k: int|
                0 <= k < sub.len() ==> tips[(#[trigger] sub[k]).0] == sub[k].1
            &&& fold.inline && fold.fixup is Some ==> forall|k: int|
                0 <= k < locals.len() && reaches(g, scope.target_id@, (#[trigger] locals[k]).1) && (
                autosquash_base_of(g, fold.fixup->0@) is Some ==> !reaches(
                    g,
                    autosquash_base_of(g, fold.fixup->0@)->0,
                    locals[k].1,
                )) ==> tips.contains_key(locals[k].0)
        }),
{
    let tips = tips_to_keep(g, locals, scope, will_rebase, fold);
    let sub = views(scope.sub_stack@);
    let n = sub.len() as int;
    let target = Map::<Seq<char>, Seq<char>>::empty().insert(
        scope.target_branch@,
        scope.target_id@,
    );
    let base = autosquash_base_of(g, fold.fixup->0@);
    let kept = if will_rebase {
        with_tips(target, sub, n)
    } else {
        target
    };
    law_tips_are_noted_by_name(target, sub, n, scope.target_branch@);
    law_tips_in_range_are_noted(
        g,
        base,
        scope.target_id@,
        locals,
        kept,
        locals.len() as int,
        scope.target_branch@,
    );
    assert forall|k: int| 0 <= k < n && will_rebase implies tips.contains_key(
        (#[trigger] sub[k]).0,
    ) && (names_of(sub).no_duplicates() ==> tips[sub[k].0] == sub[k].1) by {
        law_tips_are_noted_by_name(target, sub, n, sub[k].0);
        law_tips_in_range_are_noted(
            g,
            base,
            scope.target_id@,
            locals,
            kept,
            locals.len() as int,
            sub[k].0,
        );
        if names_of(sub).no_duplicates() {
            assert forall|j: int| 0 <= j < n && (#[trigger] sub[j]).0 == sub[k].0 implies j == k by {
                assert(names_of(sub)[j] == names_of(sub)[k]);
            }
        }
    }
    assert forall|k: int|
        0 <= k < locals.len() && fold.inline && fold.fixup is Some && reaches(
            g,
            scope.target_id@,
            (#[trigger] locals[k]).1,
        ) && (base is Some ==> !reaches(g, base->0, locals[k].1)) implies tips.contains_key(
        locals[k].0,
    ) by {
        law_tips_in_range_are_noted(
            g,
            base,
            scope.target_id@,
            locals,
            kept,
            locals.len() as int,
            locals[k].0,
        );
    }
}

/// What follows an absorb: the current branch and every branch of the stack that comes from it, each
/// behind those that it comes from; nothing else.
pub proof fn law_absorb_is_followed_by_what_stands_on_it(
    g: Parents,
    order: Seq<Seq<char>>,
    all: Seq<BranchView>,
    t: int,
    i: int,
)
    requires
        parents_first(g, order),
        names_of(all).no_duplicates(),
        0 <= t < all.len(),
        0 <= i < all.len(),
    ensures
        ({
            let sub = absorb_sub_stack(g, all[t].0, all);
            &&& names_of(sub).contains(all[i].0) <==> i == t || descends(g, all[i].1, all[t].1)
            &&& forall|a: int, b: int|
                0 <= a < b < sub.len() ==> !descends(
                    g,
                    (#[trigger] sub[a]).1,
                    (#[trigger] sub[b]).1,
                )
        }),
{
    let current = all[t].0;
    law_index_named(all, current);
    let at = index_named(all, current);
    assert(names_of(all)[at] == names_of(all)[t]);
    let own = all[at];
    let have = seq![own];
    let found = with_descendants(g, own.1, all, have);
    law_topological(g, order, found);
    let sub = topological(g, found);
    lemma_found(g, own.1, all, have, i);
    law_descent_is_strict(g, order, own.1, own.1);
    assert(names_of(have)[0] == own.0);
    if i != t {
        assert(names_of(all)[i] != names_of(all)[t]);
    }
    broadcast use vstd::seq_lib::group_to_multiset_ensures;

    if names_of(sub).contains(all[i].0) {
        let k = names_of(sub).index_of(all[i].0);
        assert(sub.contains(sub[k]));
        assert(sub.to_multiset().count(sub[k]) > 0);
        assert(found.contains(sub[k]));
        let m = found.index_of(sub[k]);
        assert(names_of(found)[m] == all[i].0);
    }
    if names_of(found).contains(all[i].0) {
        let m = names_of(found).index_of(all[i].0);
        assert(found.contains(found[m]));
        assert(found.to_multiset().count(found[m]) > 0);
        assert(sub.contains(found[m]));
        let k = sub.index_of(found[m]);
        assert(names_of(sub)[k] == all[i].0);
    }
}

/// An abort of an absorb can go back to where every branch was that the run moves: the current one,
/// those that follow it, and the local branches above the base and at or below the head.
pub proof fn law_absorb_notes_every_tip_it_moves(
    g: Parents,
    locals: Seq<BranchView>,
    current: Seq<char>,
    head: Seq<char>,
    base: Seq<char>,
    sub: Seq<BranchView>,
)
    ensures
        ({
            let tips = absorb_tips_of(g, locals, current, head, base, sub);
            &&& tips.contains_key(current)
            &&& forall|k: int| 0 <= k < sub.len() ==> tips.contains_key((#[trigger] sub[k]).0)
            &&& names_of(sub).no_duplicates() ==> forall|k: int|
                0 <= k < sub.len() ==> tips[(#[trigger] sub[k]).0] == sub[k].1
            &&& forall|k: int|
                0 <= k < locals.len() && reaches(g, head, (#[trigger] locals[k]).1) && !reaches(
                    g,
                    base,
                    locals[k].1,
                ) ==> tips.contains_key(locals[k].0)
        }),
{
    let tips = absorb_tips_of(g, locals, current, head, base, sub);
    let own = Map::<Seq<char>, Seq<char>>::empty().insert(current, head);
    let n = sub.len() as int;
    let kept = with_tips(own, sub, n);
    law_tips_are_noted_by_name(own, sub, n, current);
    law_tips_in_range_are_noted(g, Some(base), head, locals, kept, locals.len() as int, current);
    assert forall|k: int| 0 <= k < n implies tips.contains_key((#[trigger] sub[k]).0) && (names_of(
        sub,
    ).no_duplicates() ==> tips[sub[k].0] == sub[k].1) by {
        law_tips_are_noted_by_name(own, sub, n, sub[k].0);
        law_tips_in_range_are_noted(
            g,
            Some(base),
            head,
            locals,
            kept,
            locals.len() as int,
            sub[k].0,
        );
        if names_of(sub).no_duplicates() {
            assert forall|j: int| 0 <= j < n && (#[trigger] sub[j]).0 == sub[k].0 implies j == k by {
                assert(names_of(sub)[j] == names_of(sub)[k]);
            }
        }
    }
    assert forall|k: int|
        0 <= k < locals.len() && reaches(g, head, (#[trigger] locals[k]).1) && !reaches(
            g,
            base,
            locals[k].1,
        ) implies tips.contains_key(locals[k].0) by {
        law_tips_in_range_are_noted(
            g,
            Some(base),
            head,
            locals,
            kept,
            locals.len() as int,
            locals[k].0,
        );
    }
}

/// The stack of a target holds exactly the local branches, other than the upstream, that are not merged
/// into it and lie on the target's line. Where the target itself is merged, those above it count that
/// come from the merge base.
pub proof fn law_stack_of_the_target(
    g: Parents,
    locals: Seq<BranchView>,
    merge_base: Seq<char>,
    target: Seq<char>,
    upstream: Seq<char>,
    upstream_name: Seq<char>,
    b: BranchView,
)
    ensures
        stack_of_target(g, locals, merge_base, target, upstream, upstream_name).contains(b)
            <==> locals.contains(b) && b.0 != upstream_name && !reaches(g, upstream, b.1) && (
        descends(g, b.1, target) || reaches(g, target, b.1)) && (reaches(g, upstream, target)
            ==> reaches(g, b.1, merge_base)),
{
    law_stack_from_the_merge_base(g, locals, merge_base, target, upstream, upstream_name, b);
}

} // verus!
