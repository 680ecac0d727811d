//! `kin reorder`: a text with one row per branch and its parent, and the rebases that follow.

use crate::boundary::{collect_first_parent_chain, first_parent_chain, BrokenHistory};
use crate::commands::commit::with_tips;
use crate::graph::{CommitGraph, Parents};
use crate::names::{lemma_text_map_empty, lemma_text_map_insert, text_map, NameMap};
use crate::rebase_utils::{Operation, RebaseState};
use crate::stack::{
    find_parent_in_stack, index_named, names_of, parent_in_stack, views, BranchView, StackBranch,
};
use crate::text::{
    cat2, cat3, cat4, cat5, find_char, from_range, has_text, index_of_char, join, join_of, lines_of,
    list, opt_string, same, split_lines, strs, to_chars, trim, trim_of, unlines, unlines_of, words,
    words_of,
};
use vstd::prelude::*;

verus! {

/// The options of `kin reorder`.
#[derive(Debug)]
pub struct ReorderArgs {
    pub force: bool,
    pub autostash: bool,
    pub no_autostash: bool,
}

/// What is wrong with an edited text.
pub enum ReorderProblem {
    FirstRow(Seq<char>),
    BadLine(Seq<char>),
    NotInStack(Seq<char>),
    UnknownParent(Seq<char>, Seq<char>),
    Duplicate(Seq<char>),
    Missing(Seq<Seq<char>>),
}

/// Why branches cannot be reordered.
#[derive(Debug)]
pub enum ReorderError {
    /// The first row has no parent.
    FirstRow(String),
    /// The line is no row.
    BadLine(String),
    NotInStack(String),
    UnknownParent(String, String),
    Duplicate(String),
    /// Branches without a row.
    Missing(Vec<String>),
}

impl View for ReorderError {
    type V = ReorderProblem;

    open spec fn view(&self) -> ReorderProblem {
        match *self {
            ReorderError::FirstRow(l) => ReorderProblem::FirstRow(l@),
            ReorderError::BadLine(l) => ReorderProblem::BadLine(l@),
            ReorderError::NotInStack(b) => ReorderProblem::NotInStack(b@),
            ReorderError::UnknownParent(b, p) => ReorderProblem::UnknownParent(b@, p@),
            ReorderError::Duplicate(b) => ReorderProblem::Duplicate(b@),
            ReorderError::Missing(v) => ReorderProblem::Missing(strs(v@)),
        }
    }
}

impl ReorderError {
    pub open spec fn text(self) -> Seq<char> {
        match self@ {
            ReorderProblem::FirstRow(l) => "Invalid reorder line '"@ + l
                + "'. The first branch row must spell out its parent."@,
            ReorderProblem::BadLine(l) => "Invalid reorder line '"@ + l
                + "'. Expected format: branch <name> [parent <parent>]."@,
            ReorderProblem::NotInStack(b) => "Branch '"@ + b
                + "' is not part of the current stack component."@,
            ReorderProblem::UnknownParent(b, p) => "Branch '"@ + b + "' has unknown parent '"@ + p
                + "'."@,
            ReorderProblem::Duplicate(b) => "Duplicate branch row for '"@ + b + "'."@,
            ReorderProblem::Missing(v) => "Edited reorder graph is missing branch rows for: "@
                + join_of(v, ", "@),
        }
    }

    pub fn message(&self) -> (r: String)
        ensures
            r@ == self.text(),
    {
        match self {
            ReorderError::FirstRow(l) => cat3(
                "Invalid reorder line '",
                l.as_str(),
                "'. The first branch row must spell out its parent.",
            ),
            ReorderError::BadLine(l) => cat3(
                "Invalid reorder line '",
                l.as_str(),
                "'. Expected format: branch <name> [parent <parent>].",
            ),
            ReorderError::NotInStack(b) => cat3(
                "Branch '",
                b.as_str(),
                "' is not part of the current stack component.",
            ),
            ReorderError::UnknownParent(b, p) => cat5(
                "Branch '",
                b.as_str(),
                "' has unknown parent '",
                p.as_str(),
                "'.",
            ),
            ReorderError::Duplicate(b) => cat3("Duplicate branch row for '", b.as_str(), "'."),
            ReorderError::Missing(v) => cat2(
                "Edited reorder graph is missing branch rows for: ",
                join(v, ", ").as_str(),
            ),
        }
    }
}

/// The row of a branch: its parent is left out where it is the branch of the row above.
pub open spec fn parent_row(
    name: Seq<char>,
    parent: Seq<char>,
    above: Option<Seq<char>>,
    current: Seq<char>,
) -> Seq<char> {
    let row = if above == Some(parent) {
        "branch "@ + name
    } else {
        "branch "@ + name + " parent "@ + parent
    };
    if name == current {
        row + "  # current"@
    } else {
        row
    }
}

/// The rows of the first `n` branches.
pub open spec fn parent_rows(
    names: Seq<Seq<char>>,
    parents: Map<Seq<char>, Seq<char>>,
    current: Seq<char>,
    n: int,
) -> Seq<Seq<char>>
    decreases n,
{
    if n <= 0 {
        Seq::empty()
    } else {
        parent_rows(names, parents, current, n - 1).push(
            parent_row(
                names[n - 1],
                parents[names[n - 1]],
                if n >= 2 {
                    Some(names[n - 2])
                } else {
                    None
                },
                current,
            ),
        )
    }
}

/// What stands below the rows.
pub open spec fn reorder_help(upstream: Seq<char>) -> Seq<Seq<char>> {
    seq![
        ""@,
        "# kin reorder"@,
        "# Edit only the parent target for each branch."@,
        "# Keep exactly one row per branch."@,
        "# Parent targets must be another listed branch or '"@ + upstream + "'."@,
        "# 'branch <name>' means the branch above it is the parent."@,
        "# Forks are created by assigning multiple branches the same parent."@,
        "# Cycles and self-parenting are not allowed."@,
    ]
}

/// The text that the user edits; the name of the first branch without a parent where there is one.
pub fn reorder_buffer(
    branches: &Vec<StackBranch>,
    current_parent_map: &NameMap<String>,
    upstream_name: &str,
    current_branch_name: &str,
) -> (r: Result<String, String>)
    ensures
        ({
            let names = names_of(views(branches@));
            match r {
                Ok(text) => {
                    &&& forall|k: int|
                        0 <= k < names.len() ==> current_parent_map@.contains_key(
                            #[trigger] names[k],
                        )
                    &&& text@ == unlines_of(
                        parent_rows(
                            names,
                            text_map(current_parent_map@),
                            current_branch_name@,
                            names.len() as int,
                        ) + reorder_help(upstream_name@),
                    )
                },
                Err(name) => exists|k: int|
                    0 <= k < names.len() && #[trigger] names[k] == name@
                        && !current_parent_map@.contains_key(name@) && forall|j: int|
                        0 <= j < k ==> current_parent_map@.contains_key(#[trigger] names[j]),
            }
        }),
{
    let ghost names = names_of(views(branches@));
    let ghost parents = text_map(current_parent_map@);
    let mut rows: Vec<String> = Vec::new();
    let mut i: usize = 0;
    assert(strs(rows@) =~= Seq::<Seq<char>>::empty());
    while i < branches.len()
        invariant
            i <= branches@.len(),
            names == names_of(views(branches@)),
            parents == text_map(current_parent_map@),
            forall|k: int| 0 <= k < i ==> current_parent_map@.contains_key(#[trigger] names[k]),
            strs(rows@) == parent_rows(names, parents, current_branch_name@, i as int),
        decreases branches@.len() - i,
    {
        let name = branches[i].name.as_str();
        assert(names[i as int] == name@);
        let parent = match current_parent_map.get(name) {
            Some(p) => p,
            None => {
                return Err(name.to_owned());
            },
        };
        let shorthand = i >= 1 && same(branches[i - 1].name.as_str(), parent.as_str());
        proof {
            if i >= 1 {
                assert(names[i - 1] == branches@[i - 1].name@);
            }
        }
        let row = if shorthand {
            cat2("branch ", name)
        } else {
            cat4("branch ", name, " parent ", parent.as_str())
        };
        let line = if same(name, current_branch_name) {
            cat2(row.as_str(), "  # current")
        } else {
            row
        };
        let ghost before = rows@;
        rows.push(line);
        assert(strs(rows@) =~= strs(before).push(line@));
        i += 1;
    }
    let base = cat3("# Parent targets must be another listed branch or '", upstream_name, "'.");
    let mut help = list(
        &[
            "",
            "# kin reorder",
            "# Edit only the parent target for each branch.",
            "# Keep exactly one row per branch.",
            base.as_str(),
            "# 'branch <name>' means the branch above it is the parent.",
            "# Forks are created by assigning multiple branches the same parent.",
            "# Cycles and self-parenting are not allowed.",
        ],
    );
    let ghost top = rows@;
    let ghost more = help@;
    assert(strs(more) =~= reorder_help(upstream_name@));
    rows.append(&mut help);
    assert(strs(rows@) =~= strs(top) + strs(more));
    Ok(unlines(&rows))
}

/// What the rows say so far: the parents, and the branch of the last row.
#[verifier::ext_equal]
pub struct ParentsView {
    pub parents: Map<Seq<char>, Seq<char>>,
    pub above: Option<Seq<char>>,
}

/// A line up to a `#`, without white space around it.
pub open spec fn row_text(raw: Seq<char>) -> Seq<char> {
    trim_of(raw.take(index_of_char(raw, '#')))
}

/// What a row with that branch and parent adds.
pub open spec fn take_row(
    s: ParentsView,
    branch: Seq<char>,
    parent: Seq<char>,
    names: Seq<Seq<char>>,
    upstream: Seq<char>,
) -> Result<ParentsView, ReorderProblem> {
    if !names.contains(branch) {
        Err(ReorderProblem::NotInStack(branch))
    } else if parent != upstream && !names.contains(parent) {
        Err(ReorderProblem::UnknownParent(branch, parent))
    } else if s.parents.contains_key(branch) {
        Err(ReorderProblem::Duplicate(branch))
    } else {
        Ok(ParentsView { parents: s.parents.insert(branch, parent), above: Some(branch) })
    }
}

/// What one more line adds.
pub open spec fn parent_step(
    s: ParentsView,
    raw: Seq<char>,
    names: Seq<Seq<char>>,
    upstream: Seq<char>,
) -> Result<ParentsView, ReorderProblem> {
    let line = row_text(raw);
    let parts = words_of(line);
    if line.len() == 0 {
        Ok(s)
    } else if parts.len() == 2 && parts[0] == "branch"@ {
        match s.above {
            Some(parent) => take_row(s, parts[1], parent, names, upstream),
            None => Err(ReorderProblem::FirstRow(trim_of(raw))),
        }
    } else if parts.len() == 4 && parts[0] == "branch"@ && parts[2] == "parent"@ {
        take_row(s, parts[1], parts[3], names, upstream)
    } else {
        Err(ReorderProblem::BadLine(trim_of(raw)))
    }
}

pub open spec fn parents_of_lines(
    lines: Seq<Seq<char>>,
    names: Seq<Seq<char>>,
    upstream: Seq<char>,
) -> Result<ParentsView, ReorderProblem>
    decreases lines.len(),
{
    if lines.len() == 0 {
        Ok(ParentsView { parents: Map::empty(), above: None })
    } else {
        match parents_of_lines(lines.drop_last(), names, upstream) {
            Ok(s) => parent_step(s, lines.last(), names, upstream),
            Err(p) => Err(p),
        }
    }
}

/// The names without a parent, in order.
pub open spec fn without_parent(
    names: Seq<Seq<char>>,
    parents: Map<Seq<char>, Seq<char>>,
) -> Seq<Seq<char>>
    decreases names.len(),
{
    if names.len() == 0 {
        Seq::empty()
    } else if parents.contains_key(names.last()) {
        without_parent(names.drop_last(), parents)
    } else {
        without_parent(names.drop_last(), parents).push(names.last())
    }
}

/// What an edited text says.
pub open spec fn parsed_parents(
    text: Seq<char>,
    names: Seq<Seq<char>>,
    upstream: Seq<char>,
) -> Result<Map<Seq<char>, Seq<char>>, ReorderProblem> {
    match parents_of_lines(lines_of(text), names, upstream) {
        Err(p) => Err(p),
        Ok(s) => if without_parent(names, s.parents).len() > 0 {
            Err(ReorderProblem::Missing(without_parent(names, s.parents)))
        } else {
            Ok(s.parents)
        },
    }
}

proof fn lemma_error_stays(
    lines: Seq<Seq<char>>,
    names: Seq<Seq<char>>,
    upstream: Seq<char>,
    n: int,
)
    requires
        0 <= n <= lines.len(),
        parents_of_lines(lines.take(n), names, upstream) is Err,
    ensures
        parents_of_lines(lines, names, upstream) == parents_of_lines(
            lines.take(n),
            names,
            upstream,
        ),
    decreases lines.len() - n,
{
    if n < lines.len() {
        assert(lines.take(n + 1).drop_last() =~= lines.take(n));
        lemma_error_stays(lines, names, upstream, n + 1);
    } else {
        assert(lines.take(n) =~= lines);
    }
}

/// Reads an edited text: one row for each branch, with its parent.
pub fn parse_parent_map(
    edited_buffer: &str,
    branches: &Vec<StackBranch>,
    upstream_name: &str,
) -> (r: Result<NameMap<String>, ReorderError>)
    ensures
        ({
            let want = parsed_parents(
                edited_buffer@,
                names_of(views(branches@)),
                upstream_name@,
            );
            match r {
                Ok(map) => want == Ok::<_, ReorderProblem>(text_map(map@)),
                Err(e) => want == Err::<Map<Seq<char>, Seq<char>>, _>(e@),
            }
        }),
{
    let ghost names = names_of(views(branches@));
    let lines = split_lines(edited_buffer);
    let ghost all = strs(lines@);
    let mut map: NameMap<String> = NameMap::new();
    let mut above: Option<String> = None;
    let mut i: usize = 0;
    proof {
        lemma_text_map_empty();
    }
    while i < lines.len()
        invariant
            i <= lines@.len(),
            all == strs(lines@),
            all == lines_of(edited_buffer@),
            names == names_of(views(branches@)),
            parents_of_lines(all.take(i as int), names, upstream_name@) == Ok::<_, ReorderProblem>(
                ParentsView { parents: text_map(map@), above: opt_string(above) },
            ),
        decreases lines@.len() - i,
    {
        let raw = lines[i].as_str();
        proof {
            assert(all.take(i + 1).drop_last() =~= all.take(i as int));
            assert(all.take(i + 1).last() == raw@);
        }
        let chars = to_chars(raw);
        let end = find_char(&chars, 0, '#');
        assert(chars@.skip(0) =~= chars@);
        let head = from_range(&chars, 0, end);
        assert(head@ =~= raw@.take(index_of_char(raw@, '#')));
        let line = trim(head.as_str());
        if line.as_str().is_empty() {
            i += 1;
            continue;
        }
        let parts = words(line.as_str());
        let ghost ws = strs(parts@);
        assert(ws.len() == parts@.len());
        let n: usize = parts.len();
        let (branch, parent) = if n == 2 && same(parts[0].as_str(), "branch") {
            assert(ws[0] == parts@[0]@ && ws[1] == parts@[1]@);
            match &above {
                Some(p) => (parts[1].clone(), p.clone()),
                None => {
                    proof {
                        lemma_error_stays(all, names, upstream_name@, i + 1);
                    }
                    return Err(ReorderError::FirstRow(trim(raw)));
                },
            }
        } else if n == 4 && same(parts[0].as_str(), "branch") && same(parts[2].as_str(), "parent") {
            assert(ws[0] == parts@[0]@ && ws[1] == parts@[1]@ && ws[2] == parts@[2]@ && ws[3]
                == parts@[3]@);
            (parts[1].clone(), parts[3].clone())
        } else {
            proof {
                if n > 0 {
                    assert(ws[0] == parts@[0]@);
                }
                if n == 4 {
                    assert(ws[2] == parts@[2]@);
                }
                lemma_error_stays(all, names, upstream_name@, i + 1);
            }
            return Err(ReorderError::BadLine(trim(raw)));
        };
        let ghost state = ParentsView { parents: text_map(map@), above: opt_string(above) };
        assert(parent_step(state, raw@, names, upstream_name@) == take_row(
            state,
            branch@,
            parent@,
            names,
            upstream_name@,
        ));
        if !crate::stack::has_branch(branches, branch.as_str()) {
            proof {
                lemma_error_stays(all, names, upstream_name@, i + 1);
            }
            return Err(ReorderError::NotInStack(branch));
        }
        if !same(parent.as_str(), upstream_name) && !crate::stack::has_branch(
            branches,
            parent.as_str(),
        ) {
            proof {
                lemma_error_stays(all, names, upstream_name@, i + 1);
            }
            return Err(ReorderError::UnknownParent(branch, parent));
        }
        assert(text_map(map@).contains_key(branch@) == map@.contains_key(branch@));
        if map.contains(branch.as_str()) {
            proof {
                lemma_error_stays(all, names, upstream_name@, i + 1);
            }
            return Err(ReorderError::Duplicate(branch));
        }
        proof {
            lemma_text_map_insert(map@, branch@, parent);
        }
        map.insert(branch.clone(), parent);
        above = Some(branch);
        i += 1;
    }
    assert(all.take(all.len() as int) =~= all);
    let mut missing: Vec<String> = Vec::new();
    let mut k: usize = 0;
    assert(strs(missing@) =~= Seq::<Seq<char>>::empty());
    while k < branches.len()
        invariant
            k <= branches@.len(),
            names == names_of(views(branches@)),
            strs(missing@) == without_parent(names.take(k as int), text_map(map@)),
        decreases branches@.len() - k,
    {
        let name = branches[k].name.as_str();
        proof {
            assert(names.take(k + 1).drop_last() =~= names.take(k as int));
            assert(names.take(k + 1).last() == name@);
            assert(text_map(map@).contains_key(name@) == map@.contains_key(name@));
        }
        let ghost before = missing@;
        if !map.contains(name) {
            missing.push(branches[k].name.clone());
            assert(strs(missing@) =~= strs(before).push(name@));
        }
        k += 1;
    }
    assert(names.take(names.len() as int) =~= names);
    assert(strs(missing@).len() == missing@.len());
    if missing.len() > 0 {
        return Err(ReorderError::Missing(missing));
    }
    Ok(map)
}

/// The name of the parent of a branch: the first other branch on the commit that it stands on, or
/// the upstream.
pub open spec fn parent_name_in(
    g: Parents,
    all: Seq<BranchView>,
    name: Seq<char>,
    merge_base: Seq<char>,
    upstream: Seq<char>,
) -> Seq<char> {
    let at = crate::stack::index_other_on(all, parent_in_stack(g, name, all, merge_base), name);
    if at < all.len() {
        all[at].0
    } else {
        upstream
    }
}

pub open spec fn parent_names(
    g: Parents,
    all: Seq<BranchView>,
    merge_base: Seq<char>,
    upstream: Seq<char>,
    n: int,
) -> Map<Seq<char>, Seq<char>>
    decreases n,
{
    if n <= 0 {
        Map::empty()
    } else {
        parent_names(g, all, merge_base, upstream, n - 1).insert(
            all[n - 1].0,
            parent_name_in(g, all, all[n - 1].0, merge_base, upstream),
        )
    }
}

/// The parents of the branches as they are, by name.
pub fn current_parent_name_map(
    graph: &CommitGraph,
    branches: &Vec<StackBranch>,
    merge_base: &str,
    upstream_name: &str,
) -> (r: NameMap<String>)
    ensures
        text_map(r@) == parent_names(
            graph@,
            views(branches@),
            merge_base@,
            upstream_name@,
            branches@.len() as int,
        ),
{
    let ghost all = views(branches@);
    let mut map: NameMap<String> = NameMap::new();
    let mut i: usize = 0;
    proof {
        lemma_text_map_empty();
    }
    while i < branches.len()
        invariant
            i <= branches@.len(),
            all == views(branches@),
            text_map(map@) == parent_names(graph@, all, merge_base@, upstream_name@, i as int),
        decreases branches@.len() - i,
    {
        let name = branches[i].name.as_str();
        assert(all[i as int].0 == name@);
        let parent_id = match find_parent_in_stack(graph, name, branches, merge_base) {
            Ok(id) => id,
            Err(_) => {
                proof {
                    lemma_listed_is_found(all, i as int);
                }
                merge_base.to_owned()
            },
        };
        proof {
            lemma_listed_is_found(all, i as int);
        }
        let parent = match crate::stack::find_other_on(branches, parent_id.as_str(), name) {
            Some(k) => branches[k].name.clone(),
            None => upstream_name.to_owned(),
        };
        proof {
            lemma_text_map_insert(map@, name@, parent);
        }
        map.insert(branches[i].name.clone(), parent);
        i += 1;
    }
    map
}

proof fn lemma_listed_is_found(all: Seq<BranchView>, i: int)
    requires
        0 <= i < all.len(),
    ensures
        0 <= index_named(all, all[i].0) < all.len(),
    decreases all.len(),
{
    if all[0].0 != all[i].0 {
        let rest = all.drop_first();
        assert(rest[i - 1] == all[i]);
        lemma_listed_is_found(rest, i - 1);
    }
}

/// The branch can be placed: its parent is the upstream, or has been placed.
pub open spec fn placeable(
    name: Seq<char>,
    parents: Map<Seq<char>, Seq<char>>,
    upstream: Seq<char>,
    placed: Seq<Seq<char>>,
) -> bool {
    parents.contains_key(name) && (parents[name] == upstream || placed.contains(parents[name]))
}

/// The first branch that can be placed, or the number of branches.
pub open spec fn first_placeable(
    rest: Seq<Seq<char>>,
    parents: Map<Seq<char>, Seq<char>>,
    upstream: Seq<char>,
    placed: Seq<Seq<char>>,
) -> int
    decreases rest.len(),
{
    if rest.len() == 0 || placeable(rest[0], parents, upstream, placed) {
        0
    } else {
        1 + first_placeable(rest.drop_first(), parents, upstream, placed)
    }
}

/// What is placed, followed by the rest, each branch behind its parent; `None` where that cannot
/// be done.
pub open spec fn parents_before(
    placed: Seq<Seq<char>>,
    rest: Seq<Seq<char>>,
    parents: Map<Seq<char>, Seq<char>>,
    upstream: Seq<char>,
) -> Option<Seq<Seq<char>>>
    decreases rest.len(),
{
    let i = first_placeable(rest, parents, upstream, placed);
    if rest.len() == 0 {
        Some(placed)
    } else if 0 <= i < rest.len() {
        parents_before(placed.push(rest[i]), rest.remove(i), parents, upstream)
    } else {
        None
    }
}

proof fn lemma_first_placeable(
    rest: Seq<Seq<char>>,
    parents: Map<Seq<char>, Seq<char>>,
    upstream: Seq<char>,
    placed: Seq<Seq<char>>,
)
    ensures
        0 <= first_placeable(rest, parents, upstream, placed) <= rest.len(),
        first_placeable(rest, parents, upstream, placed) < rest.len() ==> placeable(
            rest[first_placeable(rest, parents, upstream, placed)],
            parents,
            upstream,
            placed,
        ),
        forall|k: int|
            0 <= k < first_placeable(rest, parents, upstream, placed) ==> !placeable(
                #[trigger] rest[k],
                parents,
                upstream,
                placed,
            ),
    decreases rest.len(),
{
    if rest.len() > 0 && !placeable(rest[0], parents, upstream, placed) {
        let tail = rest.drop_first();
        lemma_first_placeable(tail, parents, upstream, placed);
        assert forall|k: int| 0 <= k < first_placeable(rest, parents, upstream, placed) implies !placeable(
            #[trigger] rest[k],
            parents,
            upstream,
            placed,
        ) by {
            if k > 0 {
                assert(rest[k] == tail[k - 1]);
            }
        }
    }
}

/// The new parents go round in a circle.
#[derive(Debug)]
pub struct ReorderCycle {
}

impl ReorderCycle {
    pub fn message(&self) -> (r: String)
        ensures
            r@ == "Cycles and self-parenting are not allowed."@,
    {
        "Cycles and self-parenting are not allowed.".to_owned()
    }
}

/// The order in which branches are rebased onto their new parents: each behind its parent.
pub fn plan_graph_reorder(
    branches: &Vec<StackBranch>,
    upstream_name: &str,
    parent_map: &NameMap<String>,
) -> (r: Result<Vec<String>, ReorderCycle>)
    ensures
        ({
            let want = parents_before(
                Seq::empty(),
                names_of(views(branches@)),
                text_map(parent_map@),
                upstream_name@,
            );
            match r {
                Ok(order) => want == Some(strs(order@)),
                Err(_) => want is None,
            }
        }),
{
    let ghost parents = text_map(parent_map@);
    let ghost whole = parents_before(
        Seq::empty(),
        names_of(views(branches@)),
        parents,
        upstream_name@,
    );
    let mut rest: Vec<String> = Vec::new();
    let mut i: usize = 0;
    while i < branches.len()
        invariant
            i <= branches@.len(),
            strs(rest@) == names_of(views(branches@)).take(i as int),
        decreases branches@.len() - i,
    {
        let ghost before = rest@;
        rest.push(branches[i].name.clone());
        assert(strs(rest@) =~= strs(before).push(branches@[i as int].name@));
        i += 1;
    }
    let mut order: Vec<String> = Vec::new();
    assert(strs(rest@) =~= names_of(views(branches@)));
    assert(strs(order@) =~= Seq::<Seq<char>>::empty());
    while rest.len() > 0
        invariant
            parents == text_map(parent_map@),
            whole == parents_before(
                Seq::empty(),
                names_of(views(branches@)),
                parents,
                upstream_name@,
            ),
            whole == parents_before(strs(order@), strs(rest@), parents, upstream_name@),
        decreases rest@.len(),
    {
        let ghost left = strs(rest@);
        let ghost placed = strs(order@);
        let mut k: usize = 0;
        let mut found = false;
        assert(left.skip(0) =~= left);
        while k < rest.len() && !found
            invariant
                k <= rest@.len(),
                left == strs(rest@),
                placed == strs(order@),
                parents == text_map(parent_map@),
                !found ==> first_placeable(left, parents, upstream_name@, placed) == k
                    + first_placeable(left.skip(k as int), parents, upstream_name@, placed),
                found ==> k < rest@.len() && first_placeable(
                    left,
                    parents,
                    upstream_name@,
                    placed,
                ) == k,
            decreases rest@.len() - k + if found {
                0int
            } else {
                1int
            },
        {
            let name = rest[k].as_str();
            proof {
                assert(left.skip(k as int)[0] == name@);
                assert(left.skip(k as int).drop_first() =~= left.skip(k + 1));
                assert(parents.contains_key(name@) == parent_map@.contains_key(name@));
            }
            let ok = match parent_map.get(name) {
                Some(p) => same(p.as_str(), upstream_name) || has_text(&order, p.as_str()),
                None => false,
            };
            if ok {
                found = true;
            } else {
                k += 1;
            }
        }
        if !found {
            assert(left.skip(k as int) =~= Seq::<Seq<char>>::empty());
            return Err(ReorderCycle {  });
        }
        let ghost before = order@;
        let ghost all = rest@;
        let name = rest.remove(k);
        order.push(name);
        assert(strs(order@) =~= placed.push(left[k as int]));
        assert(strs(rest@) =~= left.remove(k as int));
    }
    assert(strs(rest@) =~= Seq::<Seq<char>>::empty());
    Ok(order)
}

/// Each branch of the order stands behind its parent, unless that is the upstream.
pub open spec fn is_parents_first(
    order: Seq<Seq<char>>,
    parents: Map<Seq<char>, Seq<char>>,
    upstream: Seq<char>,
    from: int,
) -> bool {
    forall|i: int|
        from <= i < order.len() ==> placeable(
            #[trigger] order[i],
            parents,
            upstream,
            order.take(i),
        )
}

proof fn lemma_parents_before(
    placed: Seq<Seq<char>>,
    rest: Seq<Seq<char>>,
    parents: Map<Seq<char>, Seq<char>>,
    upstream: Seq<char>,
)
    requires
        is_parents_first(placed, parents, upstream, 0),
    ensures
        parents_before(placed, rest, parents, upstream) matches Some(order) ==> is_parents_first(
            order,
            parents,
            upstream,
            0,
        ) && order.to_multiset() == placed.to_multiset().add(rest.to_multiset()),
    decreases rest.len(),
{
    broadcast use vstd::seq_lib::group_to_multiset_ensures;

    lemma_first_placeable(rest, parents, upstream, placed);
    let i = first_placeable(rest, parents, upstream, placed);
    if rest.len() == 0 {
        assert(rest =~= Seq::<Seq<char>>::empty());
        assert(placed.to_multiset().add(rest.to_multiset()) =~= placed.to_multiset());
    } else if i < rest.len() {
        let next = placed.push(rest[i]);
        assert forall|k: int| 0 <= k < next.len() implies placeable(
            #[trigger] next[k],
            parents,
            upstream,
            next.take(k),
        ) by {
            if k < placed.len() {
                assert(next.take(k) =~= placed.take(k));
                assert(next[k] == placed[k]);
            } else {
                assert(next.take(k) =~= placed);
            }
        }
        lemma_parents_before(next, rest.remove(i), parents, upstream);
        assert(rest.contains(rest[i]));
        assert(next.to_multiset().add(rest.remove(i).to_multiset()) =~= placed.to_multiset().add(
            rest.to_multiset(),
        ));
    }
}

/// The order names every branch of the stack exactly as often as the stack does, each behind its new
/// parent.
pub proof fn law_reorder_puts_parents_first(
    names: Seq<Seq<char>>,
    parents: Map<Seq<char>, Seq<char>>,
    upstream: Seq<char>,
)
    ensures
        parents_before(Seq::empty(), names, parents, upstream) matches Some(order)
            ==> is_parents_first(order, parents, upstream, 0) && order.to_multiset()
            == names.to_multiset(),
{
    let none = Seq::<Seq<char>>::empty();
    lemma_parents_before(none, names, parents, upstream);
    broadcast use vstd::seq_lib::group_to_multiset_ensures;

    assert(none.to_multiset().add(names.to_multiset()) =~= names.to_multiset());
}

/// The branches stand on each other only: the parent of each is one of them.
pub open spec fn is_circle(
    circle: Seq<Seq<char>>,
    parents: Map<Seq<char>, Seq<char>>,
    upstream: Seq<char>,
) -> bool {
    circle.len() > 0 && forall|i: int|
        0 <= i < circle.len() ==> parents[#[trigger] circle[i]] != upstream && circle.contains(
            parents[circle[i]],
        )
}

proof fn lemma_stuck(
    placed: Seq<Seq<char>>,
    rest: Seq<Seq<char>>,
    names: Seq<Seq<char>>,
    parents: Map<Seq<char>, Seq<char>>,
    upstream: Seq<char>,
)
    requires
        forall|k: int| 0 <= k < names.len() ==> parents.contains_key(#[trigger] names[k]) && (
        parents[names[k]] == upstream || names.contains(parents[names[k]])),
        forall|t: Seq<char>| #[trigger]
            names.contains(t) <==> placed.contains(t) || rest.contains(t),
        parents_before(placed, rest, parents, upstream) is None,
    ensures
        exists|circle: Seq<Seq<char>>|
            #[trigger] is_circle(circle, parents, upstream) && forall|k: int|
                0 <= k < circle.len() ==> names.contains(#[trigger] circle[k]),
    decreases rest.len(),
{
    lemma_first_placeable(rest, parents, upstream, placed);
    let i = first_placeable(rest, parents, upstream, placed);
    if i < rest.len() {
        let next = placed.push(rest[i]);
        let fewer = rest.remove(i);
        assert forall|t: Seq<char>| #[trigger]
            names.contains(t) <==> next.contains(t) || fewer.contains(t) by {
            if placed.contains(t) {
                assert(next[placed.index_of(t)] == t);
            }
            assert(next[placed.len() as int] == rest[i]);
            if rest.contains(t) {
                let k = rest.index_of(t);
                if k < i {
                    assert(fewer[k] == t);
                } else if k > i {
                    assert(fewer[k - 1] == t);
                }
            }
            if next.contains(t) {
                let k = next.index_of(t);
                if k < placed.len() {
                    assert(placed[k] == t);
                } else {
                    assert(rest.contains(t));
                }
            }
            if fewer.contains(t) {
                let k = fewer.index_of(t);
                if k < i {
                    assert(rest[k] == t);
                } else {
                    assert(rest[k + 1] == t);
                }
            }
        }
        lemma_stuck(next, fewer, names, parents, upstream);
    } else {
        assert forall|k: int| 0 <= k < rest.len() implies parents[#[trigger] rest[k]] != upstream
            && rest.contains(parents[rest[k]]) by {
            assert(!placeable(rest[k], parents, upstream, placed));
            assert(rest.contains(rest[k]));
            assert(names.contains(rest[k]));
            let m = names.index_of(rest[k]);
            assert(parents.contains_key(names[m]));
            assert(names.contains(parents[rest[k]]));
        }
        assert forall|k: int| 0 <= k < rest.len() implies names.contains(#[trigger] rest[k]) by {
            assert(rest.contains(rest[k]));
        }
        assert(is_circle(rest, parents, upstream));
    }
}

/// New parents are refused only where some branches stand on each other in a circle.
pub proof fn law_refused_reorder_has_a_circle(
    names: Seq<Seq<char>>,
    parents: Map<Seq<char>, Seq<char>>,
    upstream: Seq<char>,
)
    requires
        forall|k: int| 0 <= k < names.len() ==> parents.contains_key(#[trigger] names[k]) && (
        parents[names[k]] == upstream || names.contains(parents[names[k]])),
        parents_before(Seq::empty(), names, parents, upstream) is None,
    ensures
        exists|circle: Seq<Seq<char>>|
            #[trigger] is_circle(circle, parents, upstream) && forall|k: int|
                0 <= k < circle.len() ==> names.contains(#[trigger] circle[k]),
{
    lemma_stuck(Seq::empty(), names, names, parents, upstream);
}

/// Why the commits of a branch cannot be counted.
#[derive(Debug)]
pub enum CountError {
    /// The branch has no parent.
    NoParent(String),
    History(BrokenHistory),
}

/// How many commits of its own each of the first `n` branches has.
pub open spec fn commit_counts(
    g: Parents,
    steps: nat,
    all: Seq<BranchView>,
    parent_ids: Map<Seq<char>, Seq<char>>,
    n: int,
) -> Map<Seq<char>, nat>
    decreases n,
{
    if n <= 0 {
        Map::empty()
    } else {
        let b = all[n - 1];
        commit_counts(g, steps, all, parent_ids, n - 1).insert(
            b.0,
            match first_parent_chain(g, parent_ids[b.0], b.1, steps) {
                Some(chain) => chain.len(),
                None => 0,
            },
        )
    }
}

/// The numbers of a map.
pub open spec fn nat_map(m: Map<Seq<char>, usize>) -> Map<Seq<char>, nat> {
    m.map_values(|n: usize| n as nat)
}

/// The commits of the branch can be counted.
pub open spec fn is_counted(
    g: Parents,
    steps: nat,
    b: BranchView,
    parents: Map<Seq<char>, Seq<char>>,
) -> bool {
    parents.contains_key(b.0) && first_parent_chain(g, parents[b.0], b.1, steps) is Some
}

/// The commits of the first `n` branches can be counted.
pub open spec fn counted_up_to(
    g: Parents,
    steps: nat,
    all: Seq<BranchView>,
    parents: Map<Seq<char>, Seq<char>>,
    n: int,
) -> bool {
    forall|k: int| 0 <= k < n ==> is_counted(g, steps, #[trigger] all[k], parents)
}

/// Why the commits of the branch cannot be counted.
pub open spec fn is_count_error(
    e: CountError,
    g: Parents,
    steps: nat,
    b: BranchView,
    parents: Map<Seq<char>, Seq<char>>,
) -> bool {
    if !parents.contains_key(b.0) {
        e matches CountError::NoParent(n) && n@ == b.0
    } else {
        &&& first_parent_chain(g, parents[b.0], b.1, steps) is None
        &&& e matches CountError::History(h) && h.tip@ == b.1 && h.base@ == parents[b.0]
    }
}

/// Counts the commits of its own of each branch.
pub fn original_commit_counts(
    graph: &CommitGraph,
    branches: &Vec<StackBranch>,
    parent_id_map: &NameMap<String>,
) -> (r: Result<NameMap<usize>, CountError>)
    ensures
        ({
            let all = views(branches@);
            let parents = text_map(parent_id_map@);
            match r {
                Ok(map) => {
                    &&& nat_map(map@) == commit_counts(
                        graph@,
                        graph.order().len(),
                        all,
                        parents,
                        all.len() as int,
                    )
                    &&& counted_up_to(
                        graph@,
                        graph.order().len(),
                        all,
                        parents,
                        all.len() as int,
                    )
                },
                Err(e) => exists|k: int|
                    0 <= k < all.len() && counted_up_to(
                        graph@,
                        graph.order().len(),
                        all,
                        parents,
                        k,
                    ) && is_count_error(
                        e,
                        graph@,
                        graph.order().len(),
                        #[trigger] all[k],
                        parents,
                    ),
            }
        }),
{
    let ghost all = views(branches@);
    let ghost parents = text_map(parent_id_map@);
    let mut map: NameMap<usize> = NameMap::new();
    let mut i: usize = 0;
    assert(nat_map(map@) =~= Map::<Seq<char>, nat>::empty());
    while i < branches.len()
        invariant
            i <= branches@.len(),
            all == views(branches@),
            parents == text_map(parent_id_map@),
            nat_map(map@) == commit_counts(
                graph@,
                graph.order().len(),
                all,
                parents,
                i as int,
            ),
            counted_up_to(graph@, graph.order().len(), all, parents, i as int),
        decreases branches@.len() - i,
    {
        let b = &branches[i];
        assert(all[i as int] == b@);
        assert(names_of(all)[i as int] == b.name@);
        assert(parents.contains_key(b.name@) == parent_id_map@.contains_key(b.name@));
        let parent = match parent_id_map.get(b.name.as_str()) {
            Some(p) => p,
            None => return Err(CountError::NoParent(b.name.clone())),
        };
        let chain = match collect_first_parent_chain(graph, parent.as_str(), b.id.as_str()) {
            Ok(c) => c,
            Err(e) => return Err(CountError::History(e)),
        };
        assert(strs(chain@).len() == chain@.len());
        let ghost before = map@;
        let n: usize = chain.len();
        map.insert(b.name.clone(), n);
        assert(nat_map(map@) =~= nat_map(before).insert(b.name@, n as nat));
        i += 1;
    }
    Ok(map)
}

/// What follows an edit.
#[derive(Debug)]
pub enum ReorderOutcome {
    /// The parents are as they were.
    Unchanged,
    /// The branches are rebased onto their new parents.
    Rebase(RebaseState),
}

/// Why branches are not reordered.
#[derive(Debug)]
pub enum ReorderFailure {
    Cycle(ReorderCycle),
    Counts(CountError),
}

/// The commits that the first `n` branches stand on, by name.
pub open spec fn parent_ids(
    g: Parents,
    all: Seq<BranchView>,
    merge_base: Seq<char>,
    n: int,
) -> Map<Seq<char>, Seq<char>>
    decreases n,
{
    if n <= 0 {
        Map::empty()
    } else {
        parent_ids(g, all, merge_base, n - 1).insert(
            all[n - 1].0,
            parent_in_stack(g, all[n - 1].0, all, merge_base),
        )
    }
}

fn current_parent_id_map(graph: &CommitGraph, branches: &Vec<StackBranch>, merge_base: &str) -> (r:
    NameMap<String>)
    ensures
        text_map(r@) == parent_ids(
            graph@,
            views(branches@),
            merge_base@,
            branches@.len() as int,
        ),
{
    let ghost all = views(branches@);
    let mut map: NameMap<String> = NameMap::new();
    let mut i: usize = 0;
    proof {
        lemma_text_map_empty();
    }
    while i < branches.len()
        invariant
            i <= branches@.len(),
            all == views(branches@),
            text_map(map@) == parent_ids(graph@, all, merge_base@, i as int),
        decreases branches@.len() - i,
    {
        let name = branches[i].name.as_str();
        proof {
            assert(all[i as int].0 == name@);
            lemma_listed_is_found(all, i as int);
        }
        let parent = match find_parent_in_stack(graph, name, branches, merge_base) {
            Ok(id) => id,
            Err(_) => merge_base.to_owned(),
        };
        proof {
            lemma_text_map_insert(map@, name@, parent);
        }
        map.insert(branches[i].name.clone(), parent);
        i += 1;
    }
    map
}

/// The tips of the branches, to which an abort goes back.
fn branch_tips(branches: &Vec<StackBranch>) -> (r: NameMap<String>)
    ensures
        text_map(r@) == with_tips(Map::empty(), views(branches@), branches@.len() as int),
{
    let ghost all = views(branches@);
    let mut tips: NameMap<String> = NameMap::new();
    let mut i: usize = 0;
    proof {
        lemma_text_map_empty();
    }
    while i < branches.len()
        invariant
            i <= branches@.len(),
            all == views(branches@),
            text_map(tips@) == with_tips(Map::empty(), all, i as int),
        decreases branches@.len() - i,
    {
        let b = &branches[i];
        proof {
            assert(all[i as int] == b@);
            lemma_text_map_insert(tips@, b.name@, b.id);
        }
        tips.insert(b.name.clone(), b.id.clone());
        i += 1;
    }
    tips
}

/// Some branch has a history that does not lead to the commit it stands on.
pub open spec fn counts_fail(
    g: Parents,
    steps: nat,
    all: Seq<BranchView>,
    parents: Map<Seq<char>, Seq<char>>,
) -> bool {
    exists|k: int|
        0 <= k < all.len() && first_parent_chain(
            g,
            parents[(#[trigger] all[k]).0],
            all[k].1,
            steps,
        ) is None
}

/// The rebases that put each branch onto its new parent: parents first, each branch from the commit
/// that it stands on.
pub fn reorder(
    graph: &CommitGraph,
    branches: &Vec<StackBranch>,
    merge_base: &str,
    upstream_name: &str,
    current_branch_name: &str,
    current_parent_map: NameMap<String>,
    edited_parent_map: NameMap<String>,
    autostash: bool,
) -> (r: Result<ReorderOutcome, ReorderFailure>)
    ensures
        ({
            let all = views(branches@);
            let order = parents_before(
                Seq::empty(),
                names_of(all),
                text_map(edited_parent_map@),
                upstream_name@,
            );
            let ids = parent_ids(graph@, all, merge_base@, all.len() as int);
            if text_map(current_parent_map@) == text_map(edited_parent_map@) {
                r matches Ok(ReorderOutcome::Unchanged)
            } else if order is None {
                r matches Err(ReorderFailure::Cycle(_))
            } else if counts_fail(graph@, graph.order().len(), all, ids) {
                r matches Err(ReorderFailure::Counts(CountError::History(h))) && exists|k: int|
                    0 <= k < all.len() && counted_up_to(
                        graph@,
                        graph.order().len(),
                        all,
                        ids,
                        k,
                    ) && first_parent_chain(
                        graph@,
                        ids[(#[trigger] all[k]).0],
                        all[k].1,
                        graph.order().len(),
                    ) is None && h.tip@ == all[k].1 && h.base@ == ids[all[k].0]
            } else {
                r matches Ok(ReorderOutcome::Rebase(s)) && {
                    &&& s.operation == Operation::Reorder
                    &&& s.original_branch@ == current_branch_name@
                    &&& s.target_branch@ == upstream_name@
                    &&& s.caller_branch is None
                    &&& strs(s.remaining_branches@) == order->0
                    &&& s.in_progress_branch is None
                    &&& text_map(s.parent_id_map@) == ids
                    &&& s.parent_name_map == current_parent_map
                    &&& s.new_base_map == edited_parent_map
                    &&& nat_map(s.original_commit_count_map@) == commit_counts(
                        graph@,
                        graph.order().len(),
                        all,
                        ids,
                        all.len() as int,
                    )
                    &&& text_map(s.original_tip_map@) == with_tips(
                        Map::empty(),
                        all,
                        all.len() as int,
                    )
                    &&& s.owned_tip_map@ == Map::<Seq<char>, String>::empty()
                    &&& s.stash_ref is None
                    &&& !s.unstage_on_restore
                    &&& s.autostash == autostash
                    &&& !s.suppress_editor
                    &&& s.cleanup_merged_branches@.len() == 0
                    &&& s.cleanup_checkout_fallback is None
                }
            }
        }),
{
    let ghost all = views(branches@);
    let ghost ids = parent_ids(graph@, all, merge_base@, all.len() as int);
    if current_parent_map.same_texts(&edited_parent_map) {
        return Ok(ReorderOutcome::Unchanged);
    }
    let order = match plan_graph_reorder(branches, upstream_name, &edited_parent_map) {
        Ok(order) => order,
        Err(e) => return Err(ReorderFailure::Cycle(e)),
    };
    let parents = current_parent_id_map(graph, branches, merge_base);
    let counts = match original_commit_counts(graph, branches, &parents) {
        Ok(counts) => counts,
        Err(e) => {
            proof {
                lemma_parent_ids(graph@, all, merge_base@, all.len() as int);
                if let CountError::NoParent(b) = &e {
                    let k = names_of(all).index_of(b@);
                    assert(all[k].0 == b@);
                }
            }
            return Err(ReorderFailure::Counts(e));
        },
    };
    Ok(
        ReorderOutcome::Rebase(
            reorder_state(
                current_branch_name,
                upstream_name,
                order,
                parents,
                current_parent_map,
                edited_parent_map,
                counts,
                branch_tips(branches),
                autostash,
            ),
        ),
    )
}

proof fn lemma_parent_ids(g: Parents, all: Seq<BranchView>, merge_base: Seq<char>, n: int)
    requires
        0 <= n <= all.len(),
    ensures
        forall|k: int|
            0 <= k < n ==> parent_ids(g, all, merge_base, n).contains_key((#[trigger] all[k]).0),
    decreases n,
{
    if n > 0 {
        lemma_parent_ids(g, all, merge_base, n - 1);
    }
}

/// The state of a reorder.
pub fn reorder_state(
    current_branch_name: &str,
    upstream_name: &str,
    remaining_branches: Vec<String>,
    parent_id_map: NameMap<String>,
    parent_name_map: NameMap<String>,
    new_base_map: NameMap<String>,
    original_commit_count_map: NameMap<usize>,
    original_tip_map: NameMap<String>,
    autostash: bool,
) -> (r: RebaseState)
    ensures
        r.operation == Operation::Reorder,
        r.original_branch@ == current_branch_name@,
        r.target_branch@ == upstream_name@,
        r.caller_branch is None,
        r.remaining_branches == remaining_branches,
        r.in_progress_branch is None,
        r.parent_id_map == parent_id_map,
        r.parent_name_map == parent_name_map,
        r.new_base_map == new_base_map,
        r.original_commit_count_map == original_commit_count_map,
        r.original_tip_map == original_tip_map,
        r.owned_tip_map@ == Map::<Seq<char>, String>::empty(),
        r.stash_ref is None,
        !r.unstage_on_restore,
        r.autostash == autostash,
        !r.suppress_editor,
        r.cleanup_merged_branches@.len() == 0,
        r.cleanup_checkout_fallback is None,
{
    RebaseState {
        operation: Operation::Reorder,
        original_branch: current_branch_name.to_owned(),
        target_branch: upstream_name.to_owned(),
        caller_branch: None,
        remaining_branches,
        in_progress_branch: None,
        parent_id_map,
        parent_name_map,
        new_base_map,
        original_commit_count_map,
        original_tip_map,
        owned_tip_map: NameMap::new(),
        stash_ref: None,
        unstage_on_restore: false,
        autostash,
        suppress_editor: false,
        cleanup_merged_branches: Vec::new(),
        cleanup_checkout_fallback: None,
    }
}

} // verus!
