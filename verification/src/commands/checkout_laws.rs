//! What is promised of `kin checkout`: where up, down and top lead.

use crate::commands::checkout::{
    branches_below, decorated, decorations, first_decorated, index_of_visual, is_candidate,
    is_checkout, tracking_of, RemoteCandidate,
    token_branch, CheckoutError, CheckoutFacts, CheckoutStep, CheckoutSubcommand,
};
use crate::graph::{descends, Parents};
use crate::names::in_order;
use crate::oid::is_zero_oid;
use crate::stack::{
    immediate_successors, stack_tips, views, BranchView, VisualBranch,
};
use crate::stack_laws::{law_successors_are_right_above, law_tips_have_nothing_above};
use crate::text::{
    index_of_char, lemma_index_of_char, lemma_index_of_char_is, lines_of, split_on, strs, trim_of,
};
use vstd::prelude::*;

verus! {

/// A decoration of `git log` names a local branch exactly where it is the full name of the branch, or
/// an arrow from `HEAD` to it.
pub proof fn law_decoration_names_a_branch(token: Seq<char>, b: Seq<char>)
    ensures
        token_branch(token) == Some(b) <==> trim_of(token) == "refs/heads/"@ + b || exists|
            u: Seq<char>,
        | #[trigger]
            trim_of(u) == "refs/heads/"@ + b && trim_of(token) == "HEAD -> "@ + u,
{
    let arrow = "HEAD -> "@;
    let full = "refs/heads/"@;
    reveal_strlit("HEAD -> ");
    reveal_strlit("refs/heads/");
    let item = trim_of(token);
    let rest = item.skip(arrow.len() as int);
    if arrow.is_prefix_of(item) {
        assert(item =~= arrow + rest);
        let reference = trim_of(rest);
        if full.is_prefix_of(reference) {
            assert(reference =~= full + reference.skip(full.len() as int));
        }
        if reference == full + b {
            assert(full.is_prefix_of(reference));
            assert(reference.skip(full.len() as int) =~= b);
        }
        if exists|u: Seq<char>| #[trigger] trim_of(u) == full + b && item == arrow + u {
            let u = choose|u: Seq<char>| #[trigger] trim_of(u) == full + b && item == arrow + u;
            assert(rest =~= u);
        }
        if item == full + b {
            assert(item[0] == 'r' && arrow[0] == 'H');
            assert(item.subrange(0, arrow.len() as int)[0] == item[0]);
        }
    } else {
        if full.is_prefix_of(item) {
            assert(item =~= full + item.skip(full.len() as int));
        }
        if item == full + b {
            assert(full.is_prefix_of(item)) by {
                assert(item.subrange(0, full.len() as int) =~= full);
            }
            assert(item.skip(full.len() as int) =~= b);
        }
        if exists|u: Seq<char>| #[trigger] trim_of(u) == full + b && item == arrow + u {
            let u = choose|u: Seq<char>| #[trigger] trim_of(u) == full + b && item == arrow + u;
            assert(item.subrange(0, arrow.len() as int) =~= arrow);
        }
    }
}

/// The decorations of a line are what follows its first zero character; a line without one has none.
pub proof fn law_decorations_follow_the_id(line: Seq<char>, id: Seq<char>, rest: Seq<char>)
    ensures
        !id.contains('\0') && line == id + seq!['\0'] + rest ==> decorations(line) == rest,
        !line.contains('\0') ==> decorations(line) == Seq::<char>::empty(),
{
    if !id.contains('\0') && line == id + seq!['\0'] + rest {
        assert forall|k: int| 0 <= k < id.len() implies line[k] != '\0' by {
            assert(line[k] == id[k]);
            assert(id.contains(id[k]));
        }
        assert(line[id.len() as int] == '\0');
        lemma_index_of_char_is(line, '\0', id.len() as int);
        assert(line.skip(id.len() as int + 1) =~= rest);
    }
    if !line.contains('\0') {
        lemma_index_of_char(line, '\0');
        let i = index_of_char(line, '\0');
        if i < line.len() {
            assert(line.contains(line[i]));
        }
    }
}

/// The line of `git log` names the branch, which is neither the current one nor the upstream.
pub open spec fn names_branch(
    line: Seq<char>,
    name: Seq<char>,
    upstream: Seq<char>,
    current: Seq<char>,
) -> bool {
    &&& name != upstream
    &&& name != current
    &&& exists|k: int|
        0 <= k < split_on(decorations(line), ',').len() && token_branch(
            #[trigger] split_on(decorations(line), ',')[k],
        ) == Some(name)
}

proof fn lemma_decorated(
    tokens: Seq<Seq<char>>,
    upstream: Seq<char>,
    current: Seq<char>,
    name: Seq<char>,
)
    ensures
        decorated(tokens, upstream, current).contains(name) <==> name != upstream && name != current
            && exists|k: int|
            0 <= k < tokens.len() && token_branch(#[trigger] tokens[k]) == Some(name),
    decreases tokens.len(),
{
    if tokens.len() > 0 {
        let rest = tokens.drop_last();
        let n = tokens.len() - 1;
        lemma_decorated(rest, upstream, current, name);
        let before = decorated(rest, upstream, current);
        let all = decorated(tokens, upstream, current);
        assert forall|i: int| 0 <= i < n implies #[trigger] rest[i] == tokens[i] by {}
        assert forall|i: int| 0 <= i < n implies #[trigger] tokens[i] == rest[i] by {}
        assert(tokens[n] == tokens.last());
        if before.contains(name) {
            assert(all[before.index_of(name)] == name);
        }
        if all.len() > before.len() {
            assert(all[before.len() as int] == all.last());
            if all.contains(name) {
                let k = all.index_of(name);
                if k < before.len() {
                    assert(before[k] == name);
                }
            }
        }
    }
}

proof fn lemma_first_decorated(lines: Seq<Seq<char>>, upstream: Seq<char>, current: Seq<char>)
    ensures
        ({
            let names = first_decorated(lines, upstream, current);
            if names.len() == 0 {
                forall|j: int, name: Seq<char>|
                    0 <= j < lines.len() ==> !#[trigger] names_branch(
                        lines[j],
                        name,
                        upstream,
                        current,
                    )
            } else {
                exists|i: int| {
                    &&& 0 <= i < lines.len()
                    &&& forall|name: Seq<char>| #[trigger]
                        names.contains(name) <==> names_branch(
                            #[trigger] lines[i],
                            name,
                            upstream,
                            current,
                        )
                    &&& forall|j: int, name: Seq<char>|
                        0 <= j < i ==> !#[trigger] names_branch(lines[j], name, upstream, current)
                }
            }
        }),
    decreases lines.len(),
{
    if lines.len() > 0 {
        let names = first_decorated(lines, upstream, current);
        let tokens = split_on(decorations(lines[0]), ',');
        let here = decorated(tokens, upstream, current);
        assert forall|name: Seq<char>| #[trigger] here.contains(name) <==> names_branch(
            lines[0],
            name,
            upstream,
            current,
        ) by {
            lemma_decorated(tokens, upstream, current, name);
        }
        if here.len() == 0 {
            let rest = lines.drop_first();
            lemma_first_decorated(rest, upstream, current);
            assert forall|name: Seq<char>| !#[trigger] names_branch(
                lines[0],
                name,
                upstream,
                current,
            ) by {
                assert(!here.contains(name));
            }
            if names.len() == 0 {
                assert forall|j: int, name: Seq<char>| 0 <= j < lines.len() implies !#[trigger] names_branch(
                    lines[j],
                    name,
                    upstream,
                    current,
                ) by {
                    if j > 0 {
                        assert(rest[j - 1] == lines[j]);
                        assert(!names_branch(rest[j - 1], name, upstream, current));
                    }
                }
            } else {
                let i = choose|i: int| {
                    &&& 0 <= i < rest.len()
                    &&& forall|name: Seq<char>| #[trigger]
                        names.contains(name) <==> names_branch(
                            #[trigger] rest[i],
                            name,
                            upstream,
                            current,
                        )
                    &&& forall|j: int, name: Seq<char>|
                        0 <= j < i ==> !#[trigger] names_branch(rest[j], name, upstream, current)
                };
                assert(lines[i + 1] == rest[i]);
                assert forall|j: int, name: Seq<char>| 0 <= j < i + 1 implies !#[trigger] names_branch(
                    lines[j],
                    name,
                    upstream,
                    current,
                ) by {
                    if j > 0 {
                        assert(rest[j - 1] == lines[j]);
                        assert(!names_branch(rest[j - 1], name, upstream, current));
                    }
                }
            }
        } else {
            assert(names == here);
            assert(0 <= 0 < lines.len());
        }
    }
}

/// The branches below are those of the nearest commit: there is a line below the first that names
/// exactly these branches, other than the current one and the upstream, and no line between it and
/// the first names any. Where there are no branches below, no line below the first names any.
pub proof fn law_branches_below_are_the_nearest(
    stdout: Seq<char>,
    upstream: Seq<char>,
    current: Seq<char>,
)
    ensures
        ({
            let lines = lines_of(stdout);
            let below = branches_below(stdout, upstream, current);
            if below.len() == 0 {
                forall|j: int, name: Seq<char>|
                    1 <= j < lines.len() ==> !#[trigger] names_branch(
                        lines[j],
                        name,
                        upstream,
                        current,
                    )
            } else {
                exists|i: int| {
                    &&& 1 <= i < lines.len()
                    &&& forall|name: Seq<char>| #[trigger]
                        below.contains(name) <==> names_branch(
                            #[trigger] lines[i],
                            name,
                            upstream,
                            current,
                        )
                    &&& forall|j: int, name: Seq<char>|
                        1 <= j < i ==> !#[trigger] names_branch(lines[j], name, upstream, current)
                }
            }
        }),
{
    let lines = lines_of(stdout);
    let below = branches_below(stdout, upstream, current);
    if lines.len() > 0 {
        let rest = lines.drop_first();
        lemma_first_decorated(rest, upstream, current);
        assert(below == first_decorated(rest, upstream, current));
        if below.len() == 0 {
            assert forall|j: int, name: Seq<char>| 1 <= j < lines.len() implies !#[trigger] names_branch(
                lines[j],
                name,
                upstream,
                current,
            ) by {
                assert(rest[j - 1] == lines[j]);
                assert(!names_branch(rest[j - 1], name, upstream, current));
            }
        } else {
            let i = choose|i: int| {
                &&& 0 <= i < rest.len()
                &&& forall|name: Seq<char>| #[trigger]
                    below.contains(name) <==> names_branch(
                        #[trigger] rest[i],
                        name,
                        upstream,
                        current,
                    )
                &&& forall|j: int, name: Seq<char>|
                    0 <= j < i ==> !#[trigger] names_branch(rest[j], name, upstream, current)
            };
            assert(lines[i + 1] == rest[i]);
            assert forall|j: int, name: Seq<char>| 1 <= j < i + 1 implies !#[trigger] names_branch(
                lines[j],
                name,
                upstream,
                current,
            ) by {
                assert(rest[j - 1] == lines[j]);
                assert(!names_branch(rest[j - 1], name, upstream, current));
            }
        }
    }
}

/// The branch lies right above the commit: it comes from it, and no other branch that comes from it
/// lies between.
pub open spec fn is_right_above(
    g: Parents,
    stack: Seq<BranchView>,
    current: Seq<char>,
    name: Seq<char>,
) -> bool {
    exists|i: int| {
        &&& 0 <= i < stack.len()
        &&& (#[trigger] stack[i]).0 == name
        &&& stack[i].1 != current
        &&& is_zero_oid(current) || descends(g, stack[i].1, current)
        &&& forall|k: int|
            0 <= k < stack.len() && (#[trigger] stack[k]).1 != current && (is_zero_oid(current)
                || descends(g, stack[k].1, current)) && stack[k].1 != stack[i].1 ==> !descends(
                g,
                stack[i].1,
                stack[k].1,
            )
    }
}

/// No branch of the stack on another commit comes from the branch.
pub open spec fn is_at_the_top(g: Parents, stack: Seq<BranchView>, name: Seq<char>) -> bool {
    exists|i: int|
        0 <= i < stack.len() && (#[trigger] stack[i]).0 == name && forall|k: int|
            0 <= k < stack.len() && (#[trigger] stack[k]).1 != stack[i].1 ==> !descends(
                g,
                stack[k].1,
                stack[i].1,
            )
}

proof fn lemma_one_or_more(v: Seq<Seq<char>>)
    ensures
        v.len() == 1 ==> forall|t: Seq<char>| #[trigger] v.contains(t) <==> t == v[0],
        v.len() > 0 ==> v.contains(v[0]),
        v.len() > 1 ==> v.contains(v[1]),
{
    if v.len() == 1 {
        assert forall|t: Seq<char>| #[trigger] v.contains(t) <==> t == v[0] by {
            assert(v[0] == v[0]);
        }
    }
}

/// `kin checkout up` leads to a branch right above the head: to the only one, or, by the user's
/// choice, to one of the several there are, all of which are offered in order. It fails where there
/// is none.
pub proof fn law_up_leads_right_above(
    g: Parents,
    f: CheckoutFacts,
    all: bool,
    r: Result<CheckoutStep, CheckoutError>,
)
    requires
        is_checkout(Some(CheckoutSubcommand::Up), None, all, g, f, r),
    ensures
        ({
            let stack = views(f.stack_branches@);
            match r {
                Ok(CheckoutStep::Go(b)) => forall|t: Seq<char>| #[trigger]
                    is_right_above(g, stack, f.head_id@, t) <==> t == b@,
                Ok(CheckoutStep::Choose(_, v)) => in_order(strs(v@)) && v@.len() > 1 && forall|
                    t: Seq<char>,
                | #[trigger]
                    is_right_above(g, stack, f.head_id@, t) <==> strs(v@).contains(t),
                Err(_) => forall|t: Seq<char>| !#[trigger] is_right_above(g, stack, f.head_id@, t),
                _ => false,
            }
        }),
{
    let stack = views(f.stack_branches@);
    let up = immediate_successors(g, f.head_id@, stack);
    assert forall|t: Seq<char>| #[trigger] is_right_above(g, stack, f.head_id@, t) <==> up.contains(
        t,
    ) by {
        law_successors_are_right_above(g, f.head_id@, stack, t);
    }
    law_successors_are_right_above(g, f.head_id@, stack, Seq::empty());
    lemma_one_or_more(up);
    if let Ok(CheckoutStep::Choose(_, v)) = r {
        lemma_several(v@, up);
    }
}

/// A list that holds two texts is longer than one.
proof fn lemma_several(v: Seq<String>, texts: Seq<Seq<char>>)
    requires
        texts.len() > 1,
        texts.no_duplicates(),
        forall|t: Seq<char>| #[trigger] strs(v).contains(t) <==> texts.contains(t),
    ensures
        v.len() > 1,
{
    assert(texts.contains(texts[0]));
    assert(texts.contains(texts[1]));
    assert(strs(v).contains(texts[0]) && strs(v).contains(texts[1]));
    let a = strs(v).index_of(texts[0]);
    let b = strs(v).index_of(texts[1]);
    assert(a != b);
}

/// `kin checkout top` leads to a tip of the stack: to the only one, or, by the user's choice, to one
/// of the several there are, all of which are offered in order. It fails where there is none.
pub proof fn law_top_leads_to_a_tip(
    g: Parents,
    f: CheckoutFacts,
    all: bool,
    r: Result<CheckoutStep, CheckoutError>,
)
    requires
        is_checkout(Some(CheckoutSubcommand::Top), None, all, g, f, r),
    ensures
        ({
            let stack = views(f.stack_branches@);
            match r {
                Ok(CheckoutStep::Go(b)) => forall|t: Seq<char>| #[trigger]
                    is_at_the_top(g, stack, t) <==> t == b@,
                Ok(CheckoutStep::Choose(_, v)) => in_order(strs(v@)) && v@.len() > 1 && forall|
                    t: Seq<char>,
                | #[trigger]
                    is_at_the_top(g, stack, t) <==> strs(v@).contains(t),
                Err(_) => forall|t: Seq<char>| !#[trigger] is_at_the_top(g, stack, t),
                _ => false,
            }
        }),
{
    let stack = views(f.stack_branches@);
    let tips = stack_tips(g, stack);
    assert forall|t: Seq<char>| #[trigger] is_at_the_top(g, stack, t) <==> tips.contains(t) by {
        law_tips_have_nothing_above(g, stack, t);
    }
    law_tips_have_nothing_above(g, stack, Seq::empty());
    lemma_one_or_more(tips);
    if let Ok(CheckoutStep::Choose(_, v)) = r {
        lemma_several(v@, tips);
    }
}

/// No line between the first and line `i` names a branch.
pub open spec fn silent_before(
    lines: Seq<Seq<char>>,
    i: int,
    upstream: Seq<char>,
    current: Seq<char>,
) -> bool {
    forall|j: int, name: Seq<char>|
        1 <= j < i ==> !#[trigger] names_branch(lines[j], name, upstream, current)
}

/// `kin checkout down` leads to the branches of the nearest commit below that has any: to the only
/// one, or, by the user's choice, to one of several. Where no commit down to the upstream has a
/// branch it leads to the upstream.
pub proof fn law_down_leads_to_the_nearest_branch(
    g: Parents,
    f: CheckoutFacts,
    all: bool,
    r: Result<CheckoutStep, CheckoutError>,
)
    requires
        f.current_branch is Some,
        is_checkout(Some(CheckoutSubcommand::Down), None, all, g, f, r),
    ensures
        ({
            let lines = lines_of(f.git_log@);
            let current = f.current_branch->0@;
            let upstream = f.upstream_name@;
            match r {
                Ok(CheckoutStep::Go(b)) => (b@ == upstream && forall|j: int, name: Seq<char>|
                    1 <= j < lines.len() ==> !#[trigger] names_branch(
                        lines[j],
                        name,
                        upstream,
                        current,
                    )) || exists|i: int| {
                    &&& 1 <= i < lines.len()
                    &&& #[trigger] silent_before(lines, i, upstream, current)
                    &&& forall|name: Seq<char>| #[trigger]
                        names_branch(lines[i], name, upstream, current) <==> name == b@
                },
                Ok(CheckoutStep::Choose(_, v)) => in_order(strs(v@)) && exists|i: int| {
                    &&& 1 <= i < lines.len()
                    &&& #[trigger] silent_before(lines, i, upstream, current)
                    &&& forall|name: Seq<char>| #[trigger]
                        names_branch(lines[i], name, upstream, current) <==> strs(v@).contains(name)
                },
                _ => false,
            }
        }),
{
    let lines = lines_of(f.git_log@);
    let current = f.current_branch->0@;
    let upstream = f.upstream_name@;
    let below = branches_below(f.git_log@, upstream, current);
    law_branches_below_are_the_nearest(f.git_log@, upstream, current);
    if below.len() > 0 {
        let i = choose|i: int| {
            &&& 1 <= i < lines.len()
            &&& forall|name: Seq<char>| #[trigger]
                below.contains(name) <==> names_branch(
                    #[trigger] lines[i],
                    name,
                    upstream,
                    current,
                )
            &&& forall|j: int, name: Seq<char>|
                1 <= j < i ==> !#[trigger] names_branch(lines[j], name, upstream, current)
        };
        assert(silent_before(lines, i, upstream, current));
        if let Ok(CheckoutStep::Go(b)) = r {
            assert forall|name: Seq<char>| #[trigger]
                names_branch(lines[i], name, upstream, current) <==> name == b@ by {
                assert(below.contains(name) <==> names_branch(lines[i], name, upstream, current));
            }
        }
        if let Ok(CheckoutStep::Choose(_, v)) = r {
            assert forall|name: Seq<char>| #[trigger]
                names_branch(lines[i], name, upstream, current) <==> strs(v@).contains(name) by {
                assert(below.contains(name) <==> names_branch(lines[i], name, upstream, current));
                assert(strs(v@).contains(name) <==> below.contains(name));
            }
        }
    } else if let Ok(CheckoutStep::Choose(_, v)) = r {
        assert(strs(v@).contains(strs(v@)[0]));
        assert(below.contains(strs(v@)[0]));
    }
}

/// A line that was chosen stands for the first branch that has it.
pub proof fn law_chosen_line_is_its_branch(visual: Seq<VisualBranch>, line: Seq<char>)
    ensures
        0 <= index_of_visual(visual, line) <= visual.len(),
        index_of_visual(visual, line) < visual.len() ==> visual[index_of_visual(
            visual,
            line,
        )].display_name@ == line,
        forall|k: int|
            0 <= k < index_of_visual(visual, line) ==> (#[trigger] visual[k]).display_name@ != line,
    decreases visual.len(),
{
    if visual.len() > 0 && visual[0].display_name@ != line {
        let rest = visual.drop_first();
        law_chosen_line_is_its_branch(rest, line);
        assert forall|k: int| 0 <= k < index_of_visual(visual, line) implies (
        #[trigger] visual[k]).display_name@ != line by {
            if k > 0 {
                assert(rest[k - 1] == visual[k]);
            }
        }
    }
}

/// A remote counts for a pull request only where it stands for its repository and has the branch; the
/// branch on it has the remote's name in front.
pub proof fn law_remote_of_the_repository(
    c: RemoteCandidate,
    repository: Seq<char>,
    branch: Seq<char>,
)
    ensures
        is_candidate(c, repository) <==> c.tip is Some && (c.identity matches Some(id) && id@
            == repository),
        tracking_of(c, branch) == c.name@ + "/"@ + branch,
{
}

} // verus!
