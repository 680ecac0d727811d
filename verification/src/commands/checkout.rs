//! `kin checkout`: up, down, to the top, to a branch of the stack or to any other.

use crate::graph::{CommitGraph, Parents};
use crate::names::{in_order, sorted_texts};
use crate::oid::{full_oid, git_oid_from_str, is_oid_text, oid_problem};
use crate::stack::{
    display_line, get_immediate_successors, get_stack_tips, immediate_successors, stack_tips,
    topological, views, visualize_stack, StackBranch, VisualBranch,
};
use crate::text::{
    cat3, cat5, is_text, lemma_text_lt_total, lemma_text_lt_transitive, less, lines_of, opt_string,
    same, split_char, split_lines, split_on, split_once, split_once_spec, strip_prefix, strs,
    text_lt, trim, trim_of,
};
use vstd::prelude::*;

verus! {

#[derive(Debug, Clone, Copy, PartialEq, Eq, Structural)]
pub enum CheckoutSubcommand {
    /// The branch above the current one.
    Up,
    /// The branch below the current one.
    Down,
    /// The top branch of the stack.
    Top,
}

/// Why a checkout is refused.
#[derive(Debug)]
pub enum CheckoutError {
    InProgress,
    AtTop,
    NotOnBranch,
    NoBranches,
    Unknown(String),
    /// The branch has no counterpart in the repository of its pull request.
    NoRemote(String, String),
    /// The remotes disagree about the branch.
    Ambiguous(String, String),
    /// The branch moved after its checkout was planned.
    Changed(String),
    /// The planned commit is no object id, and git says this of it.
    BadTip(String),
}

impl CheckoutError {
    pub open spec fn text(self) -> Seq<char> {
        match self {
            CheckoutError::InProgress =>
                "A Kindra operation is in progress. Use 'kin continue' or 'kin abort'."@,
            CheckoutError::AtTop => "Already at the top of the stack"@,
            CheckoutError::NotOnBranch => "Not on a branch"@,
            CheckoutError::NoBranches => "No branches in stack"@,
            CheckoutError::Unknown(line) => "Failed to find selected branch '"@ + line@ + "'"@,
            CheckoutError::NoRemote(b, r) =>
                "No remote-tracking branch found for discovered stack branch '"@ + b@
                + "' in PR repository '"@ + r@ + "'."@,
            CheckoutError::Ambiguous(b, r) => "Ambiguous remote-tracking branches for '"@ + b@
                + "' in PR repository '"@ + r@ + "'"@,
            CheckoutError::Changed(b) => "Branch '"@ + b@
                + "' changed since hydration was planned; refusing to overwrite it"@,
            CheckoutError::BadTip(e) => e@,
        }
    }

    pub fn message(&self) -> (r: String)
        ensures
            r@ == self.text(),
    {
        match self {
            CheckoutError::InProgress =>
                "A Kindra operation is in progress. Use 'kin continue' or 'kin abort'.".to_owned(),
            CheckoutError::AtTop => "Already at the top of the stack".to_owned(),
            CheckoutError::NotOnBranch => "Not on a branch".to_owned(),
            CheckoutError::NoBranches => "No branches in stack".to_owned(),
            CheckoutError::Unknown(line) => cat3(
                "Failed to find selected branch '",
                line.as_str(),
                "'",
            ),
            CheckoutError::NoRemote(b, r) => cat5(
                "No remote-tracking branch found for discovered stack branch '",
                b.as_str(),
                "' in PR repository '",
                r.as_str(),
                "'.",
            ),
            CheckoutError::Ambiguous(b, r) => cat5(
                "Ambiguous remote-tracking branches for '",
                b.as_str(),
                "' in PR repository '",
                r.as_str(),
                "'",
            ),
            CheckoutError::Changed(b) => cat3(
                "Branch '",
                b.as_str(),
                "' changed since hydration was planned; refusing to overwrite it",
            ),
            CheckoutError::BadTip(e) => e.clone(),
        }
    }
}

/// Where a checkout goes.
#[derive(Debug)]
pub enum CheckoutPlan {
    /// To this branch.
    Go(String),
    /// To one of these, which the user is to choose.
    Choose(Vec<String>),
}

/// A list in order that holds the texts.
pub open spec fn ordered_list(v: Seq<String>, texts: Seq<Seq<char>>) -> bool {
    in_order(strs(v)) && forall|t: Seq<char>| #[trigger] strs(v).contains(t) <==> texts.contains(t)
}

/// To the branch above: the only one, or one that the user chooses.
pub fn plan_up(graph: &CommitGraph, head_id: &str, stack_branches: &Vec<StackBranch>) -> (r: Result<
    CheckoutPlan,
    CheckoutError,
>)
    ensures
        ({
            let up = immediate_successors(graph@, head_id@, views(stack_branches@));
            match r {
                Err(e) => e is AtTop && up.len() == 0,
                Ok(CheckoutPlan::Go(b)) => up.len() == 1 && b@ == up[0],
                Ok(CheckoutPlan::Choose(v)) => up.len() > 1 && ordered_list(v@, up),
            }
        }),
{
    let up = get_immediate_successors(graph, head_id, stack_branches);
    assert(strs(up@).len() == up@.len());
    if up.len() == 0 {
        Err(CheckoutError::AtTop)
    } else if up.len() == 1 {
        assert(strs(up@)[0] == up@[0]@);
        Ok(CheckoutPlan::Go(up[0].clone()))
    } else {
        Ok(CheckoutPlan::Choose(sorted_texts(&up)))
    }
}

/// To the top of the stack: the only tip, or one that the user chooses.
pub fn plan_top(graph: &CommitGraph, stack_branches: &Vec<StackBranch>) -> (r: Result<
    CheckoutPlan,
    CheckoutError,
>)
    ensures
        ({
            let tips = stack_tips(graph@, views(stack_branches@));
            match r {
                Err(e) => e is NoBranches && tips.len() == 0,
                Ok(CheckoutPlan::Go(b)) => tips.len() == 1 && b@ == tips[0],
                Ok(CheckoutPlan::Choose(v)) => tips.len() > 1 && ordered_list(v@, tips),
            }
        }),
{
    let tips = get_stack_tips(graph, stack_branches);
    assert(strs(tips@).len() == tips@.len());
    if tips.len() == 0 {
        Err(CheckoutError::NoBranches)
    } else if tips.len() == 1 {
        assert(strs(tips@)[0] == tips@[0]@);
        Ok(CheckoutPlan::Go(tips[0].clone()))
    } else {
        Ok(CheckoutPlan::Choose(sorted_texts(&tips)))
    }
}

/// The local branch that a decoration of `git log` names.
pub open spec fn token_branch(token: Seq<char>) -> Option<Seq<char>> {
    let item = trim_of(token);
    let reference = if "HEAD -> "@.is_prefix_of(item) {
        trim_of(item.skip("HEAD -> "@.len() as int))
    } else {
        item
    };
    if "refs/heads/"@.is_prefix_of(reference) {
        Some(reference.skip("refs/heads/"@.len() as int))
    } else {
        None
    }
}

fn read_token(token: &str) -> (r: Option<String>)
    ensures
        opt_string(r) == token_branch(token@),
{
    let item = trim(token);
    let reference = match strip_prefix(item.as_str(), "HEAD -> ") {
        Some(rest) => trim(rest.as_str()),
        None => item,
    };
    strip_prefix(reference.as_str(), "refs/heads/")
}

/// The local branches that the decorations name, without the two that are given.
pub open spec fn decorated(
    tokens: Seq<Seq<char>>,
    upstream: Seq<char>,
    current: Seq<char>,
) -> Seq<Seq<char>>
    decreases tokens.len(),
{
    if tokens.len() == 0 {
        Seq::empty()
    } else {
        let before = decorated(tokens.drop_last(), upstream, current);
        match token_branch(tokens.last()) {
            Some(b) => if b != current && b != upstream {
                before.push(b)
            } else {
                before
            },
            None => before,
        }
    }
}

/// The decorations of a line: what follows the zero character.
pub open spec fn decorations(line: Seq<char>) -> Seq<char> {
    match split_once_spec(line, '\0') {
        Some((_, d)) => d,
        None => Seq::empty(),
    }
}

/// The branches of the first line that names any.
pub open spec fn first_decorated(
    lines: Seq<Seq<char>>,
    upstream: Seq<char>,
    current: Seq<char>,
) -> Seq<Seq<char>>
    decreases lines.len(),
{
    if lines.len() == 0 {
        Seq::empty()
    } else {
        let names = decorated(split_on(decorations(lines[0]), ','), upstream, current);
        if names.len() > 0 {
            names
        } else {
            first_decorated(lines.drop_first(), upstream, current)
        }
    }
}

/// The branches of the nearest commit below the first line that has any, in what
/// `git log --first-parent --decorate=full --format=%H%x00%D` prints.
pub open spec fn branches_below(
    stdout: Seq<char>,
    upstream: Seq<char>,
    current: Seq<char>,
) -> Seq<Seq<char>> {
    let lines = lines_of(stdout);
    if lines.len() == 0 {
        Seq::empty()
    } else {
        first_decorated(lines.drop_first(), upstream, current)
    }
}

fn read_decorated(line: &str, upstream_name: &str, current_branch: &str) -> (r: Vec<String>)
    ensures
        strs(r@) == decorated(split_on(decorations(line@), ','), upstream_name@, current_branch@),
{
    let text = match split_once(line, '\0') {
        Some((_, d)) => d,
        None => String::new(),
    };
    let tokens = split_char(text.as_str(), ',');
    let ghost all = strs(tokens@);
    let mut out: Vec<String> = Vec::new();
    let mut i: usize = 0;
    assert(strs(out@) =~= Seq::<Seq<char>>::empty());
    while i < tokens.len()
        invariant
            i <= tokens@.len(),
            all == strs(tokens@),
            strs(out@) == decorated(all.take(i as int), upstream_name@, current_branch@),
        decreases tokens@.len() - i,
    {
        proof {
            assert(all.take(i + 1).drop_last() =~= all.take(i as int));
            assert(all.take(i + 1).last() == tokens@[i as int]@);
        }
        let ghost before = out@;
        if let Some(b) = read_token(tokens[i].as_str()) {
            if !same(b.as_str(), current_branch) && !same(b.as_str(), upstream_name) {
                out.push(b);
                assert(strs(out@) =~= strs(before).push(b@));
            }
        }
        i += 1;
    }
    assert(all.take(all.len() as int) =~= all);
    out
}

/// The branches right below the current one, in order, from what
/// `git log --first-parent --decorate=full --format=%H%x00%D` prints.
pub fn find_first_parent_branches_via_git_log(
    stdout: &str,
    upstream_name: &str,
    current_branch: &str,
) -> (r: Vec<String>)
    ensures
        ordered_list(r@, branches_below(stdout@, upstream_name@, current_branch@)),
        r@.len() == 0 <==> branches_below(stdout@, upstream_name@, current_branch@).len() == 0,
{
    let lines = split_lines(stdout);
    let ghost all = strs(lines@);
    let ghost want = branches_below(stdout@, upstream_name@, current_branch@);
    let mut i: usize = 1;
    proof {
        if all.len() > 0 {
            assert(all.skip(1) =~= all.drop_first());
        }
    }
    while i < lines.len()
        invariant
            1 <= i,
            all == strs(lines@),
            all.len() > 0 ==> i <= lines@.len() && want == first_decorated(
                all.skip(i as int),
                upstream_name@,
                current_branch@,
            ),
            want == branches_below(stdout@, upstream_name@, current_branch@),
        decreases lines@.len() - i,
    {
        let names = read_decorated(lines[i].as_str(), upstream_name, current_branch);
        proof {
            assert(all.skip(i as int)[0] == lines@[i as int]@);
            assert(all.skip(i as int).drop_first() =~= all.skip(i + 1));
            assert(strs(names@).len() == names@.len());
        }
        if names.len() > 0 {
            let r = sorted_texts(&names);
            proof {
                assert(strs(names@).contains(strs(names@)[0]));
                assert(strs(r@).contains(strs(names@)[0]));
            }
            return r;
        }
        i += 1;
    }
    let none: Vec<String> = Vec::new();
    proof {
        if all.len() > 0 {
            assert(all.skip(i as int) =~= Seq::<Seq<char>>::empty());
        }
        assert(strs(none@) =~= Seq::<Seq<char>>::empty());
        assert(want =~= Seq::<Seq<char>>::empty());
    }
    none
}

/// To the branch below: the upstream where there is none, the only one, or one that the user
/// chooses.
pub fn plan_down(git_log: &str, upstream_name: &str, current_branch: &Option<String>) -> (r: Result<
    CheckoutPlan,
    CheckoutError,
>)
    ensures
        match *current_branch {
            None => r matches Err(e) && e is NotOnBranch,
            Some(current) => {
                let below = branches_below(git_log@, upstream_name@, current@);
                match r {
                    Err(_) => false,
                    Ok(CheckoutPlan::Go(b)) => if below.len() == 0 {
                        b@ == upstream_name@
                    } else {
                        forall|t: Seq<char>| #[trigger] below.contains(t) <==> t == b@
                    },
                    Ok(CheckoutPlan::Choose(v)) => v@.len() > 1 && ordered_list(v@, below),
                }
            },
        },
{
    let current = match current_branch {
        Some(b) => b.as_str(),
        None => return Err(CheckoutError::NotOnBranch),
    };
    let below = find_first_parent_branches_via_git_log(git_log, upstream_name, current);
    let ghost want = branches_below(git_log@, upstream_name@, current@);
    if below.len() == 0 {
        Ok(CheckoutPlan::Go(upstream_name.to_owned()))
    } else if below.len() == 1 {
        proof {
            let only = below@[0]@;
            assert forall|t: Seq<char>| #[trigger] want.contains(t) <==> t == only by {
                assert(strs(below@).contains(t) <==> want.contains(t));
                assert(strs(below@)[0] == only);
                if strs(below@).contains(t) {
                    assert(strs(below@).index_of(t) == 0);
                }
            }
        }
        Ok(CheckoutPlan::Go(below[0].clone()))
    } else {
        Ok(CheckoutPlan::Choose(below))
    }
}

/// The first branch with that line, or the number of branches.
pub open spec fn index_of_visual(visual: Seq<VisualBranch>, line: Seq<char>) -> int
    decreases visual.len(),
{
    if visual.len() == 0 || visual[0].display_name@ == line {
        0
    } else {
        1 + index_of_visual(visual.drop_first(), line)
    }
}

/// The branch behind a line that was chosen.
pub fn resolve_visual_choice(visualized: &Vec<VisualBranch>, line: &str) -> (r: Result<
    String,
    CheckoutError,
>)
    ensures
        ({
            let at = index_of_visual(visualized@, line@);
            match r {
                Ok(name) => at < visualized@.len() && name@ == visualized@[at].name@,
                Err(CheckoutError::Unknown(l)) => at == visualized@.len() && l@ == line@,
                Err(_) => false,
            }
        }),
{
    let mut i: usize = 0;
    assert(visualized@.skip(0) =~= visualized@);
    while i < visualized.len()
        invariant
            i <= visualized@.len(),
            index_of_visual(visualized@, line@) == i + index_of_visual(
                visualized@.skip(i as int),
                line@,
            ),
        decreases visualized@.len() - i,
    {
        assert(visualized@.skip(i as int)[0] == visualized@[i as int]);
        assert(visualized@.skip(i as int).drop_first() =~= visualized@.skip(i + 1));
        if same(visualized[i].display_name.as_str(), line) {
            return Ok(visualized[i].name.clone());
        }
        i += 1;
    }
    Err(CheckoutError::Unknown(line.to_owned()))
}

/// What is seen of the repository before a checkout. Only the names of the local branches are needed
/// to choose among all of them, and nothing for a branch that is named.
#[derive(Debug)]
pub struct CheckoutFacts {
    /// The names of the local branches.
    pub locals: Vec<String>,
    pub upstream_name: String,
    pub head_id: String,
    pub stack_branches: Vec<StackBranch>,
    pub current_branch: Option<String>,
    /// What `git log --first-parent --decorate=full --format=%H%x00%D` prints of the commits from
    /// the head down to the upstream.
    pub git_log: String,
}

/// What a checkout does next.
#[derive(Debug)]
pub enum CheckoutStep {
    /// The branch is fetched with its stack, and checked out.
    Hydrate(String),
    /// The branch is checked out.
    Go(String),
    /// The user answers the question with one of these branches.
    Choose(String, Vec<String>),
    /// The user answers the question with the line of one of these branches.
    ChooseLine(String, Vec<VisualBranch>),
    /// There is nothing to check out, and that is said.
    Note(String),
}

/// The plan with its question.
pub open spec fn is_step(step: CheckoutStep, plan: CheckoutPlan, question: Seq<char>) -> bool {
    match plan {
        CheckoutPlan::Go(b) => step == CheckoutStep::Go(b),
        CheckoutPlan::Choose(v) => step matches CheckoutStep::Choose(q, w) && q@ == question && w
            == v,
    }
}

/// Where a direction leads.
pub open spec fn is_plan(
    subcommand: CheckoutSubcommand,
    g: Parents,
    f: CheckoutFacts,
    r: Result<CheckoutPlan, CheckoutError>,
) -> bool {
    match subcommand {
        CheckoutSubcommand::Up => {
            let up = immediate_successors(g, f.head_id@, views(f.stack_branches@));
            match r {
                Err(e) => e is AtTop && up.len() == 0,
                Ok(CheckoutPlan::Go(b)) => up.len() == 1 && b@ == up[0],
                Ok(CheckoutPlan::Choose(v)) => up.len() > 1 && ordered_list(v@, up),
            }
        },
        CheckoutSubcommand::Top => {
            let tips = stack_tips(g, views(f.stack_branches@));
            match r {
                Err(e) => e is NoBranches && tips.len() == 0,
                Ok(CheckoutPlan::Go(b)) => tips.len() == 1 && b@ == tips[0],
                Ok(CheckoutPlan::Choose(v)) => tips.len() > 1 && ordered_list(v@, tips),
            }
        },
        CheckoutSubcommand::Down => match f.current_branch {
            None => r matches Err(e) && e is NotOnBranch,
            Some(current) => {
                let below = branches_below(f.git_log@, f.upstream_name@, current@);
                match r {
                    Err(_) => false,
                    Ok(CheckoutPlan::Go(b)) => if below.len() == 0 {
                        b@ == f.upstream_name@
                    } else {
                        forall|t: Seq<char>| #[trigger] below.contains(t) <==> t == b@
                    },
                    Ok(CheckoutPlan::Choose(v)) => v@.len() > 1 && ordered_list(v@, below),
                }
            },
        },
    }
}

/// The question where a direction leads to several branches.
pub open spec fn direction_question(subcommand: CheckoutSubcommand) -> Seq<char> {
    match subcommand {
        CheckoutSubcommand::Up => "Multiple branches ahead. Select one:"@,
        CheckoutSubcommand::Down => "Multiple parent branches found. Select one:"@,
        CheckoutSubcommand::Top => "Multiple stack tips found. Select one:"@,
    }
}

/// What a checkout does next.
pub open spec fn is_checkout(
    subcommand: Option<CheckoutSubcommand>,
    branch: Option<String>,
    all: bool,
    g: Parents,
    f: CheckoutFacts,
    r: Result<CheckoutStep, CheckoutError>,
) -> bool {
    match (branch, subcommand) {
        (Some(b), _) => r == Ok::<_, CheckoutError>(CheckoutStep::Hydrate(b)),
        (None, Some(direction)) => exists|plan: Result<CheckoutPlan, CheckoutError>|
            #[trigger] is_plan(direction, g, f, plan) && match (plan, r) {
                (Ok(p), Ok(step)) => is_step(step, p, direction_question(direction)),
                (Err(e), Err(x)) => x == e,
                _ => false,
            },
        (None, None) => if all {
            if f.locals@.len() == 0 {
                r matches Ok(CheckoutStep::Note(n)) && n@ == "No local branches found."@
            } else {
                r matches Ok(CheckoutStep::Choose(q, v)) && q@ == "Select branch to checkout:"@
                    && ordered_list(v@, strs(f.locals@))
            }
        } else {
            let sorted = topological(g, views(f.stack_branches@));
            if sorted.len() == 0 {
                r matches Ok(CheckoutStep::Note(n)) && n@
                    == "No branches found in the current stack (excluding "@ + f.upstream_name@
                    + "). Use --all to see everything."@
            } else {
                r matches Ok(CheckoutStep::ChooseLine(q, v)) && q@ == "Select branch to checkout:"@
                    && v@.len() == sorted.len() && forall|i: int|
                    0 <= i < v@.len() ==> (#[trigger] v@[i]).name@ == sorted[i].0
                        && v@[i].display_name@ == display_line(
                        sorted[i].0,
                        opt_string(f.current_branch),
                    )
            }
        },
    }
}

/// Settles what a checkout does: a branch that is named comes before everything else, then a
/// direction, then `--all`.
pub fn checkout(
    subcommand: Option<CheckoutSubcommand>,
    branch: &Option<String>,
    all: bool,
    graph: &CommitGraph,
    facts: &CheckoutFacts,
) -> (r: Result<CheckoutStep, CheckoutError>)
    ensures
        is_checkout(subcommand, *branch, all, graph@, *facts, r),
{
    if let Some(b) = branch {
        return Ok(CheckoutStep::Hydrate(b.clone()));
    }
    if let Some(direction) = subcommand {
        let (plan, question) = match direction {
            CheckoutSubcommand::Up => (
                plan_up(graph, facts.head_id.as_str(), &facts.stack_branches),
                "Multiple branches ahead. Select one:",
            ),
            CheckoutSubcommand::Down => (
                plan_down(
                    facts.git_log.as_str(),
                    facts.upstream_name.as_str(),
                    &facts.current_branch,
                ),
                "Multiple parent branches found. Select one:",
            ),
            CheckoutSubcommand::Top => (
                plan_top(graph, &facts.stack_branches),
                "Multiple stack tips found. Select one:",
            ),
        };
        assert(is_plan(direction, graph@, *facts, plan));
        return match plan {
            Ok(CheckoutPlan::Go(b)) => Ok(CheckoutStep::Go(b)),
            Ok(CheckoutPlan::Choose(v)) => Ok(CheckoutStep::Choose(question.to_owned(), v)),
            Err(e) => Err(e),
        };
    }
    if all {
        if facts.locals.len() == 0 {
            return Ok(CheckoutStep::Note("No local branches found.".to_owned()));
        }
        return Ok(
            CheckoutStep::Choose(
                "Select branch to checkout:".to_owned(),
                sorted_texts(&facts.locals),
            ),
        );
    }
    let current = match &facts.current_branch {
        Some(b) => Some(b.as_str()),
        None => None,
    };
    let lines = visualize_stack(graph, &facts.stack_branches, current);
    if lines.len() == 0 {
        return Ok(
            CheckoutStep::Note(
                cat3(
                    "No branches found in the current stack (excluding ",
                    facts.upstream_name.as_str(),
                    "). Use --all to see everything.",
                ),
            ),
        );
    }
    Ok(CheckoutStep::ChooseLine("Select branch to checkout:".to_owned(), lines))
}

/// Whether a checkout may begin: no other operation is under way.
pub fn ensure_checkout_available(hydration: bool, rebase_state: bool, run_state: bool) -> (r: Result<
    (),
    CheckoutError,
>)
    ensures
        r is Ok <==> !hydration && !rebase_state && !run_state,
        r matches Err(e) ==> e is InProgress,
{
    if hydration || rebase_state || run_state {
        Err(CheckoutError::InProgress)
    } else {
        Ok(())
    }
}

/// A branch of a stack that is being fetched.
#[derive(Debug)]
pub struct HydrationStep {
    pub branch: String,
    /// The branch on the remote that it comes from; none for a branch that was there.
    pub remote_ref: Option<String>,
    pub tip: String,
    pub completed: bool,
}

/// A stack that is being fetched, branch by branch.
#[derive(Debug)]
pub struct HydrationState {
    /// The branch to check out at the end.
    pub branch: String,
    pub repository: String,
    pub steps: Vec<HydrationStep>,
}

/// Plans one branch: one that is there counts as done, any other comes from its remote.
pub fn hydration_step(
    branch: &str,
    local_tip: &Option<String>,
    remote: &Option<(String, String)>,
    repository: &str,
) -> (r: Result<HydrationStep, CheckoutError>)
    ensures
        match (*local_tip, *remote) {
            (Some(tip), _) => r matches Ok(s) && s.branch@ == branch@ && s.remote_ref is None
                && s.tip@ == tip@ && s.completed,
            (None, Some((name, tip))) => r matches Ok(s) && s.branch@ == branch@ && opt_string(
                s.remote_ref,
            ) == Some(name@) && s.tip@ == tip@ && !s.completed,
            (None, None) => r matches Err(CheckoutError::NoRemote(b, p)) && b@ == branch@ && p@
                == repository@,
        },
{
    match local_tip {
        Some(tip) => Ok(
            HydrationStep {
                branch: branch.to_owned(),
                remote_ref: None,
                tip: tip.clone(),
                completed: true,
            },
        ),
        None => match remote {
            Some(found) => Ok(
                HydrationStep {
                    branch: branch.to_owned(),
                    remote_ref: Some(found.0.clone()),
                    tip: found.1.clone(),
                    completed: false,
                },
            ),
            None => Err(CheckoutError::NoRemote(branch.to_owned(), repository.to_owned())),
        },
    }
}

/// Every step before place `n` is done.
pub open spec fn done_before(steps: Seq<HydrationStep>, n: int) -> bool {
    forall|i: int| 0 <= i < n ==> (#[trigger] steps[i]).completed
}

/// The first step that is not done.
pub fn next_hydration_step(state: &HydrationState) -> (r: Option<usize>)
    ensures
        match r {
            Some(i) => i < state.steps@.len() && !state.steps@[i as int].completed && done_before(
                state.steps@,
                i as int,
            ),
            None => done_before(state.steps@, state.steps@.len() as int),
        },
{
    let mut i: usize = 0;
    while i < state.steps.len()
        invariant
            i <= state.steps@.len(),
            done_before(state.steps@, i as int),
        decreases state.steps@.len() - i,
    {
        if !state.steps[i].completed {
            return Some(i);
        }
        i += 1;
    }
    None
}

/// Marks a step as done; nothing else changes.
pub fn complete_hydration_step(state: &mut HydrationState, i: usize)
    requires
        i < old(state).steps@.len(),
    ensures
        final(state).branch == old(state).branch,
        final(state).repository == old(state).repository,
        final(state).steps@.len() == old(state).steps@.len(),
        forall|k: int|
            0 <= k < old(state).steps@.len() && k != i ==> #[trigger] final(state).steps@[k] == old(state).steps@[k],
        final(state).steps@[i as int].completed,
        final(state).steps@[i as int].branch@ == old(state).steps@[i as int].branch@,
        final(state).steps@[i as int].tip@ == old(state).steps@[i as int].tip@,
        opt_string(final(state).steps@[i as int].remote_ref) == opt_string(
            old(state).steps@[i as int].remote_ref,
        ),
{
    let step = HydrationStep {
        branch: state.steps[i].branch.clone(),
        remote_ref: crate::text::copy_opt(&state.steps[i].remote_ref),
        tip: state.steps[i].tip.clone(),
        completed: true,
    };
    state.steps.remove(i);
    state.steps.insert(i, step);
}

/// What is done about the local branch of a step.
#[derive(Debug, Clone, Copy, PartialEq, Eq, Structural)]
pub enum LocalBranchAction {
    Create,
    /// It was made just before the step was marked.
    Adopt,
}

/// Decides about the local branch of a step: a branch that stands elsewhere is not overwritten.
/// `existing` is none where there is no such branch; a branch may be without a commit of its own.
pub fn local_branch_for_checkout(step: &HydrationStep, existing: &Option<Option<String>>) -> (r:
    Result<LocalBranchAction, CheckoutError>)
    ensures
        ({
            let tip = step.tip@;
            match r {
                Ok(LocalBranchAction::Create) => is_oid_text(tip) && *existing is None,
                Ok(LocalBranchAction::Adopt) => is_oid_text(tip) && *existing is Some && opt_string(
                    existing->0,
                ) == Some(full_oid(tip)),
                Err(CheckoutError::BadTip(e)) => !is_oid_text(tip) && e@ == oid_problem(tip),
                Err(CheckoutError::Changed(b)) => is_oid_text(tip) && *existing is Some
                    && opt_string(existing->0) != Some(full_oid(tip)) && b@ == step.branch@,
                Err(_) => false,
            }
        }),
{
    let tip = match git_oid_from_str(step.tip.as_str()) {
        Ok(t) => t,
        Err(e) => return Err(CheckoutError::BadTip(e)),
    };
    match existing {
        None => Ok(LocalBranchAction::Create),
        Some(now) => if is_text(now, tip.as_str()) {
            Ok(LocalBranchAction::Adopt)
        } else {
            Err(CheckoutError::Changed(step.branch.clone()))
        },
    }
}

/// A remote: the repository that it stands for, and the commit that it has for a branch.
#[derive(Debug)]
pub struct RemoteCandidate {
    pub name: String,
    pub identity: Option<String>,
    pub tip: Option<String>,
}

/// The remote stands for the repository and has the branch.
pub open spec fn is_candidate(c: RemoteCandidate, repository: Seq<char>) -> bool {
    opt_string(c.identity) == Some(repository) && c.tip is Some
}

/// The branch on a remote.
pub open spec fn tracking_of(c: RemoteCandidate, branch: Seq<char>) -> Seq<char> {
    c.name@ + "/"@ + branch
}

/// The branch on a remote from which a local branch is made: where several remotes stand for the
/// repository they must agree on its commit, and the first by name is taken.
pub fn resolve_remote_tracking_ref(
    remotes: &Vec<RemoteCandidate>,
    branch: &str,
    repository: &str,
) -> (r: Result<Option<String>, CheckoutError>)
    ensures
        ({
            match r {
                Ok(None) => forall|k: int|
                    0 <= k < remotes@.len() ==> !is_candidate(#[trigger] remotes@[k], repository@),
                Ok(Some(name)) => {
                    &&& exists|k: int|
                        0 <= k < remotes@.len() && is_candidate(#[trigger] remotes@[k], repository@)
                            && name@ == tracking_of(remotes@[k], branch@)
                    &&& forall|k: int|
                        0 <= k < remotes@.len() && is_candidate(#[trigger] remotes@[k], repository@)
                            ==> name@ == tracking_of(remotes@[k], branch@) || text_lt(
                            name@,
                            tracking_of(remotes@[k], branch@),
                        )
                    &&& forall|j: int, k: int|
                        0 <= j < remotes@.len() && 0 <= k < remotes@.len() && is_candidate(
                            #[trigger] remotes@[j],
                            repository@,
                        ) && is_candidate(#[trigger] remotes@[k], repository@)
                            ==> remotes@[j].tip->0@ == remotes@[k].tip->0@
                },
                Err(CheckoutError::Ambiguous(b, p)) => {
                    &&& b@ == branch@ && p@ == repository@
                    &&& exists|j: int, k: int|
                        0 <= j < remotes@.len() && 0 <= k < remotes@.len() && is_candidate(
                            #[trigger] remotes@[j],
                            repository@,
                        ) && is_candidate(#[trigger] remotes@[k], repository@)
                            && remotes@[j].tip->0@ != remotes@[k].tip->0@
                },
                Err(_) => false,
            }
        }),
{
    let mut best: Option<(String, usize)> = None;
    let mut i: usize = 0;
    while i < remotes.len()
        invariant
            i <= remotes@.len(),
            match best {
                None => forall|k: int|
                    0 <= k < i ==> !is_candidate(#[trigger] remotes@[k], repository@),
                Some((name, at)) => {
                    &&& at < i && is_candidate(remotes@[at as int], repository@)
                    &&& name@ == tracking_of(remotes@[at as int], branch@)
                    &&& forall|k: int|
                        0 <= k < i && is_candidate(#[trigger] remotes@[k], repository@) ==> name@
                            == tracking_of(remotes@[k], branch@) || text_lt(
                            name@,
                            tracking_of(remotes@[k], branch@),
                        )
                    &&& forall|k: int|
                        0 <= k < i && is_candidate(#[trigger] remotes@[k], repository@)
                            ==> remotes@[k].tip->0@ == remotes@[at as int].tip->0@
                },
            },
        decreases remotes@.len() - i,
    {
        let c = &remotes[i];
        if is_text(&c.identity, repository) {
            if let Some(tip) = &c.tip {
                let tracking = cat3(c.name.as_str(), "/", branch);
                assert(is_candidate(remotes@[i as int], repository@));
                match &best {
                    None => {
                        best = Some((tracking, i));
                    },
                    Some((name, at)) => {
                        if let Some(first) = &remotes[*at].tip {
                            if !same(first.as_str(), tip.as_str()) {
                                return Err(
                                    CheckoutError::Ambiguous(
                                        branch.to_owned(),
                                        repository.to_owned(),
                                    ),
                                );
                            }
                        }
                        proof {
                            lemma_text_lt_total(name@, tracking@);
                            assert forall|k: int|
                                0 <= k < i && is_candidate(#[trigger] remotes@[k], repository@)
                                    && text_lt(tracking@, name@) implies text_lt(
                                tracking@,
                                tracking_of(remotes@[k], branch@),
                            ) by {
                                if name@ != tracking_of(remotes@[k], branch@) {
                                    lemma_text_lt_transitive(
                                        tracking@,
                                        name@,
                                        tracking_of(remotes@[k], branch@),
                                    );
                                }
                            }
                        }
                        if less(tracking.as_str(), name.as_str()) {
                            best = Some((tracking, i));
                        }
                    },
                }
            }
        }
        i += 1;
    }
    match best {
        Some((name, _)) => Ok(Some(name)),
        None => Ok(None),
    }
}

} // verus!
