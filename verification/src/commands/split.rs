//! `kin split`: a text in which branches are put behind commits, and what follows from it.

use crate::names::sorted_texts;
use crate::stack::{views, BranchView, StackBranch};
use crate::text::{
    cat2, cat3, cat4, cat5, find_char, from_range, index_of_char, join, join_of, lines_of, list,
    same, split_lines, starts_with, strip_prefix, strs, to_chars, trim, trim_of, unlines,
    unlines_of,
};
use vstd::prelude::*;

verus! {

/// A commit as a list of commits shows it.
#[derive(Debug)]
pub struct CommitInfo {
    pub id: String,
    pub summary: String,
}

/// Whether git accepts a text, which holds no nul character, as the name of a branch.
pub uninterp spec fn git_branch_name_is_valid(name: Seq<char>) -> bool;

/// What git says of a name: it cannot look at one that holds a nul character.
pub open spec fn name_check(name: Seq<char>) -> Result<bool, Seq<char>> {
    if name.contains('\0') {
        Err("data contained a nul byte that could not be represented as a string"@)
    } else {
        Ok(git_branch_name_is_valid(name))
    }
}

/// `git2::Branch::name_is_valid`, its error written out by the error's `Display`. It fails where the
/// name holds a nul character and nowhere else, with the words of `name_check`. What it says of any
/// other name depends on the name alone.
#[verifier::external_body]
fn branch_name_is_valid(name: &str) -> (r: Result<bool, String>)
    ensures
        match r {
            Ok(valid) => !name@.contains('\0') && git_branch_name_is_valid(name@) == valid,
            Err(e) => name_check(name@) == Err::<bool, _>(e@),
        },
{
    match git2::Branch::name_is_valid(name) {
        Ok(valid) => Ok(valid),
        Err(e) => Err(e.to_string()),
    }
}

/// What is wrong with an edited text.
pub enum SplitProblem {
    InvalidName(Seq<char>),
    NameCheck(Seq<char>),
    NotAfterCommit(Seq<char>),
    CountChanged,
    CommitChanged(Seq<char>),
    Unresolved(Seq<char>, Seq<char>),
    Ambiguous(Seq<char>, Seq<char>, Seq<Seq<char>>),
    Duplicate(Seq<char>),
}

/// Why an edited text cannot be applied.
#[derive(Debug)]
pub enum SplitError {
    /// No branch can have that name.
    InvalidName(String),
    /// git cannot look at the name, and says this.
    NameCheck(String),
    /// The branch stands before the first commit.
    NotAfterCommit(String),
    /// Commits were added or removed.
    CountChanged,
    /// A commit was changed or moved.
    CommitChanged(String),
    /// No commit begins like this.
    Unresolved(String, String),
    /// Several commits begin like this.
    Ambiguous(String, String, Vec<String>),
    /// The branch has two rows.
    Duplicate(String),
}

impl View for SplitError {
    type V = SplitProblem;

    open spec fn view(&self) -> SplitProblem {
        match *self {
            SplitError::InvalidName(n) => SplitProblem::InvalidName(n@),
            SplitError::NameCheck(e) => SplitProblem::NameCheck(e@),
            SplitError::NotAfterCommit(n) => SplitProblem::NotAfterCommit(n@),
            SplitError::CountChanged => SplitProblem::CountChanged,
            SplitError::CommitChanged(c) => SplitProblem::CommitChanged(c@),
            SplitError::Unresolved(c, n) => SplitProblem::Unresolved(c@, n@),
            SplitError::Ambiguous(c, n, ids) => SplitProblem::Ambiguous(c@, n@, strs(ids@)),
            SplitError::Duplicate(n) => SplitProblem::Duplicate(n@),
        }
    }
}

/// The texts in quotes, in a list in square brackets.
pub open spec fn quoted_list(v: Seq<Seq<char>>) -> Seq<char> {
    if v.len() == 0 {
        "[]"@
    } else {
        "[\""@ + join_of(v, "\", \""@) + "\"]"@
    }
}

impl SplitError {
    pub open spec fn text(self) -> Seq<char> {
        match self@ {
            SplitProblem::InvalidName(n) => "Invalid branch name '"@ + n
                + "' in split editor buffer"@,
            SplitProblem::NameCheck(e) => e,
            SplitProblem::NotAfterCommit(n) => "Branch '"@ + n + "' must follow a commit line"@,
            SplitProblem::CountChanged =>
                "Commit list was modified (count changed). kin split only supports branch management."@,
            SplitProblem::CommitChanged(c) => "Commit '"@ + c
                + "' was modified or moved. kin split only supports branch management."@,
            SplitProblem::Unresolved(c, n) => "Could not resolve commit "@ + c + " for branch "@ + n,
            SplitProblem::Ambiguous(c, n, ids) => "Ambiguous commit prefix "@ + c + " for branch "@
                + n + (". Candidates: "@ + quoted_list(ids)),
            SplitProblem::Duplicate(n) => "Duplicate branch row for branch "@ + n,
        }
    }

    pub fn message(&self) -> (r: String)
        ensures
            r@ == self.text(),
    {
        match self {
            SplitError::InvalidName(n) => cat3(
                "Invalid branch name '",
                n.as_str(),
                "' in split editor buffer",
            ),
            SplitError::NameCheck(e) => e.clone(),
            SplitError::NotAfterCommit(n) => cat3(
                "Branch '",
                n.as_str(),
                "' must follow a commit line",
            ),
            SplitError::CountChanged =>
                "Commit list was modified (count changed). kin split only supports branch management.".to_owned(),
            SplitError::CommitChanged(c) => cat3(
                "Commit '",
                c.as_str(),
                "' was modified or moved. kin split only supports branch management.",
            ),
            SplitError::Unresolved(c, n) => cat4(
                "Could not resolve commit ",
                c.as_str(),
                " for branch ",
                n.as_str(),
            ),
            SplitError::Ambiguous(c, n, ids) => {
                let items = if ids.len() == 0 {
                    "[]".to_owned()
                } else {
                    cat3("[\"", join(ids, "\", \"").as_str(), "\"]")
                };
                let end = cat2(". Candidates: ", items.as_str());
                assert(strs(ids@).len() == ids@.len());
                cat5(
                    "Ambiguous commit prefix ",
                    c.as_str(),
                    " for branch ",
                    n.as_str(),
                    end.as_str(),
                )
            },
            SplitError::Duplicate(n) => cat2("Duplicate branch row for branch ", n.as_str()),
        }
    }
}

/// Which tip is split.
#[derive(Debug)]
pub enum SplitTip {
    /// There is no branch: the head itself.
    Head,
    Branch(String),
    /// The user is to choose one of these.
    Ask(Vec<String>),
}

/// Which tip is split, of the tips of the stack.
pub fn split_tip(tips: &Vec<String>) -> (r: SplitTip)
    ensures
        match r {
            SplitTip::Head => tips@.len() == 0,
            SplitTip::Branch(b) => tips@.len() == 1 && b@ == tips@[0]@,
            SplitTip::Ask(v) => tips@.len() > 1 && crate::names::in_order(strs(v@)) && forall|
                t: Seq<char>,
            | #[trigger]
                strs(v@).contains(t) <==> strs(tips@).contains(t),
        },
{
    if tips.len() == 0 {
        SplitTip::Head
    } else if tips.len() == 1 {
        SplitTip::Branch(tips[0].clone())
    } else {
        SplitTip::Ask(sorted_texts(tips))
    }
}

/// The first seven characters of an id.
pub open spec fn short_id(id: Seq<char>) -> Seq<char> {
    id.take(7)
}

/// The first seven characters of an id.
pub fn short(id: &str) -> (r: String)
    requires
        id@.len() >= 7,
    ensures
        r@ == short_id(id@),
{
    let v = to_chars(id);
    let r = from_range(&v, 0, 7);
    assert(r@ =~= id@.take(7));
    r
}

/// The rows of the branches on a commit.
pub open spec fn branch_rows(id: Seq<char>, branches: Seq<BranchView>) -> Seq<Seq<char>>
    decreases branches.len(),
{
    if branches.len() == 0 {
        Seq::empty()
    } else if branches.last().1 == id {
        branch_rows(id, branches.drop_last()).push("branch "@ + branches.last().0)
    } else {
        branch_rows(id, branches.drop_last())
    }
}

/// The row of a commit.
pub open spec fn commit_row(c: CommitInfo) -> Seq<char> {
    short_id(c.id@) + " "@ + c.summary@
}

/// The rows of the commits, each followed by those of its branches.
pub open spec fn rows_of(commits: Seq<CommitInfo>, branches: Seq<BranchView>) -> Seq<Seq<char>>
    decreases commits.len(),
{
    if commits.len() == 0 {
        Seq::empty()
    } else {
        rows_of(commits.drop_last(), branches).push(commit_row(commits.last())) + branch_rows(
            commits.last().id@,
            branches,
        )
    }
}

/// What stands below the rows.
pub open spec fn help_rows(upstream: Seq<char>, tip: Seq<char>) -> Seq<Seq<char>> {
    seq![
        ""@,
        "# kin split"@,
        "# Move 'branch <name>' rows to reassign branches to commits."@,
        "# Add new 'branch <name>' rows to create branches."@,
        "# Remove 'branch <name>' rows to delete branches."@,
        "# DO NOT edit commit lines (SHA + summary)."@,
        "# Base branch: "@ + upstream,
        "# Path to tip: "@ + tip,
    ]
}

/// Every commit has an id of at least seven characters.
pub open spec fn ids_are_long(commits: Seq<CommitInfo>) -> bool {
    forall|i: int| 0 <= i < commits.len() ==> (#[trigger] commits[i]).id@.len() >= 7
}

fn push_branch_rows(out: &mut Vec<String>, id: &str, branches: &Vec<StackBranch>)
    ensures
        strs(final(out)@) == strs(old(out)@) + branch_rows(id@, views(branches@)),
{
    let ghost all = views(branches@);
    let ghost start = strs(out@);
    let mut i: usize = 0;
    assert(start + branch_rows(id@, all.take(0)) =~= start);
    while i < branches.len()
        invariant
            i <= branches@.len(),
            all == views(branches@),
            strs(out@) == start + branch_rows(id@, all.take(i as int)),
        decreases branches@.len() - i,
    {
        let b = &branches[i];
        proof {
            assert(all.take(i + 1).drop_last() =~= all.take(i as int));
            assert(all.take(i + 1).last() == b@);
        }
        let ghost before = out@;
        if same(b.id.as_str(), id) {
            let row = cat2("branch ", b.name.as_str());
            out.push(row);
            assert(strs(out@) =~= strs(before).push(row@));
            assert(strs(out@) =~= start + branch_rows(id@, all.take(i as int)).push(row@));
        }
        i += 1;
    }
    assert(all.take(all.len() as int) =~= all);
}

/// The text that the user edits. `commits` are those of the path, the oldest first, and
/// `path_branches` the branches on it.
pub fn split_buffer(
    commits: &Vec<CommitInfo>,
    path_branches: &Vec<StackBranch>,
    upstream_name: &str,
    tip_name: &str,
) -> (r: String)
    requires
        ids_are_long(commits@),
    ensures
        r@ == unlines_of(
            rows_of(commits@, views(path_branches@)) + help_rows(upstream_name@, tip_name@),
        ),
{
    let ghost branches = views(path_branches@);
    let mut out: Vec<String> = Vec::new();
    let mut i: usize = 0;
    assert(strs(out@) =~= Seq::<Seq<char>>::empty());
    while i < commits.len()
        invariant
            i <= commits@.len(),
            ids_are_long(commits@),
            branches == views(path_branches@),
            strs(out@) == rows_of(commits@.take(i as int), branches),
        decreases commits@.len() - i,
    {
        let c = &commits[i];
        proof {
            assert(commits@.take(i + 1).drop_last() =~= commits@.take(i as int));
            assert(commits@.take(i + 1).last() == *c);
        }
        let row = cat3(short(c.id.as_str()).as_str(), " ", c.summary.as_str());
        let ghost before = out@;
        out.push(row);
        assert(strs(out@) =~= strs(before).push(row@));
        push_branch_rows(&mut out, c.id.as_str(), path_branches);
        i += 1;
    }
    assert(commits@.take(commits@.len() as int) =~= commits@);
    let base = cat2("# Base branch: ", upstream_name);
    let path = cat2("# Path to tip: ", tip_name);
    let mut help = list(
        &[
            "",
            "# kin split",
            "# Move 'branch <name>' rows to reassign branches to commits.",
            "# Add new 'branch <name>' rows to create branches.",
            "# Remove 'branch <name>' rows to delete branches.",
            "# DO NOT edit commit lines (SHA + summary).",
            base.as_str(),
            path.as_str(),
        ],
    );
    let ghost rows = out@;
    let ghost more = help@;
    assert(strs(more) =~= help_rows(upstream_name@, tip_name@));
    out.append(&mut help);
    assert(strs(out@) =~= strs(rows) + strs(more));
    unlines(&out)
}

/// What the rows of a text say: the commits as they are written, and the branches, each with the
/// commit before it.
#[verifier::ext_equal]
pub struct RowsView {
    pub commits: Seq<Seq<char>>,
    pub branches: Seq<(Seq<char>, Seq<char>)>,
}

/// The first word of a row, up to a space.
pub open spec fn row_id(line: Seq<char>) -> Seq<char> {
    line.take(index_of_char(line, ' '))
}

/// What the row of a branch adds, given what git says of its name.
pub open spec fn branch_row_step(
    before: RowsView,
    name: Seq<char>,
    valid: Result<bool, Seq<char>>,
) -> Result<RowsView, SplitProblem> {
    if name.len() == 0 {
        Err(SplitProblem::InvalidName(name))
    } else {
        match valid {
            Err(e) => Err(SplitProblem::NameCheck(e)),
            Ok(false) => Err(SplitProblem::InvalidName(name)),
            Ok(true) => if before.commits.len() == 0 {
                Err(SplitProblem::NotAfterCommit(name))
            } else {
                Ok(
                    RowsView {
                        branches: before.branches.push((name, before.commits.last())),
                        ..before
                    },
                )
            },
        }
    }
}

/// The name in the row of a branch.
pub open spec fn branch_row_name(line: Seq<char>) -> Seq<char> {
    trim_of(line.skip("branch "@.len() as int))
}

/// What one more line adds.
pub open spec fn row_step(before: RowsView, raw: Seq<char>) -> Result<RowsView, SplitProblem> {
    let line = trim_of(raw);
    if line.len() == 0 || "#"@.is_prefix_of(line) {
        Ok(before)
    } else if "branch "@.is_prefix_of(line) {
        let name = branch_row_name(line);
        branch_row_step(before, name, name_check(name))
    } else {
        Ok(RowsView { commits: before.commits.push(row_id(line)), ..before })
    }
}

/// What the lines say.
pub open spec fn parse_rows(lines: Seq<Seq<char>>) -> Result<RowsView, SplitProblem>
    decreases lines.len(),
{
    if lines.len() == 0 {
        Ok(RowsView { commits: Seq::empty(), branches: Seq::empty() })
    } else {
        match parse_rows(lines.drop_last()) {
            Ok(before) => row_step(before, lines.last()),
            Err(p) => Err(p),
        }
    }
}

/// Two texts of each pair.
pub open spec fn pairs(v: Seq<(String, String)>) -> Seq<(Seq<char>, Seq<char>)> {
    Seq::new(v.len(), |i: int| (v[i].0@, v[i].1@))
}

/// What the rows of an edited text say.
#[derive(Debug)]
pub struct SplitRows {
    pub commits: Vec<String>,
    pub branches: Vec<(String, String)>,
}

impl View for SplitRows {
    type V = RowsView;

    open spec fn view(&self) -> RowsView {
        RowsView { commits: strs(self.commits@), branches: pairs(self.branches@) }
    }
}

/// What git said of a name, in texts.
pub open spec fn check_view(valid: Result<bool, String>) -> Result<bool, Seq<char>> {
    match valid {
        Ok(v) => Ok(v),
        Err(e) => Err(e@),
    }
}

/// Takes in the row of a branch, given what git says of its name: whether it is valid, or why it
/// cannot be looked at.
pub fn take_branch_row(rows: &mut SplitRows, name: String, valid: Result<bool, String>) -> (r:
    Result<(), SplitError>)
    ensures
        match r {
            Ok(_) => branch_row_step(old(rows)@, name@, check_view(valid)) == Ok::<
                _,
                SplitProblem,
            >(final(rows)@),
            Err(e) => branch_row_step(old(rows)@, name@, check_view(valid)) == Err::<RowsView, _>(
                e@,
            ) && *final(rows) == *old(rows),
        },
{
    if name.as_str().is_empty() {
        return Err(SplitError::InvalidName(name));
    }
    match valid {
        Err(e) => return Err(SplitError::NameCheck(e)),
        Ok(false) => return Err(SplitError::InvalidName(name)),
        Ok(true) => {},
    }
    let n: usize = rows.commits.len();
    if n == 0 {
        return Err(SplitError::NotAfterCommit(name));
    }
    let last = rows.commits[n - 1].clone();
    let ghost before = rows.branches@;
    assert(strs(rows.commits@).last() == last@);
    rows.branches.push((name, last));
    assert(pairs(rows.branches@) =~= pairs(before).push((name@, last@)));
    assert(strs(rows.commits@).len() == n);
    Ok(())
}

/// Reads an edited text.
pub fn parse_split_rows(edited: &str) -> (r: Result<SplitRows, SplitError>)
    ensures
        match r {
            Ok(rows) => parse_rows(lines_of(edited@)) == Ok::<_, SplitProblem>(rows@),
            Err(e) => parse_rows(lines_of(edited@)) == Err::<RowsView, _>(e@),
        },
{
    let lines = split_lines(edited);
    let ghost all = strs(lines@);
    let mut rows = SplitRows { commits: Vec::new(), branches: Vec::new() };
    let mut i: usize = 0;
    assert(rows@ =~= (RowsView { commits: Seq::empty(), branches: Seq::empty() }));
    while i < lines.len()
        invariant
            i <= lines@.len(),
            all == strs(lines@),
            all == lines_of(edited@),
            parse_rows(all.take(i as int)) == Ok::<_, SplitProblem>(rows@),
        decreases lines@.len() - i,
    {
        proof {
            assert(all.take(i + 1).drop_last() =~= all.take(i as int));
            assert(all.take(i + 1).last() == lines@[i as int]@);
        }
        let line = trim(lines[i].as_str());
        if !line.as_str().is_empty() && !starts_with(line.as_str(), "#") {
            if let Some(rest) = strip_prefix(line.as_str(), "branch ") {
                let name = trim(rest.as_str());
                let valid = branch_name_is_valid(name.as_str());
                match take_branch_row(&mut rows, name, valid) {
                    Ok(_) => {},
                    Err(e) => {
                        proof {
                            lemma_error_stays(all, i + 1);
                        }
                        return Err(e);
                    },
                }
            } else {
                let v = to_chars(line.as_str());
                let end = find_char(&v, 0, ' ');
                assert(v@.skip(0) =~= v@);
                let id = from_range(&v, 0, end);
                assert(id@ =~= row_id(line@));
                let ghost before = rows.commits@;
                let ghost view = rows@;
                rows.commits.push(id);
                assert(strs(rows.commits@) =~= strs(before).push(id@));
                assert(rows@ =~= (RowsView { commits: view.commits.push(id@), ..view }));
            }
        }
        i += 1;
    }
    assert(all.take(all.len() as int) =~= all);
    Ok(rows)
}

/// Nothing that follows mends a line that is wrong.
proof fn lemma_error_stays(lines: Seq<Seq<char>>, n: int)
    requires
        0 <= n <= lines.len(),
        parse_rows(lines.take(n)) is Err,
    ensures
        parse_rows(lines) == parse_rows(lines.take(n)),
    decreases lines.len() - n,
{
    if n < lines.len() {
        assert(lines.take(n + 1).drop_last() =~= lines.take(n));
        lemma_error_stays(lines, n + 1);
    } else {
        assert(lines.take(n) =~= lines);
    }
}

/// The ids of commits.
pub open spec fn commit_ids(commits: Seq<CommitInfo>) -> Seq<Seq<char>> {
    Seq::new(commits.len(), |i: int| commits[i].id@)
}

/// The commits are as they were: as many, and each begins as it is written.
pub open spec fn commits_kept(ids: Seq<Seq<char>>, written: Seq<Seq<char>>) -> bool {
    &&& ids.len() == written.len()
    &&& forall|i: int| 0 <= i < ids.len() ==> (#[trigger] written[i]).is_prefix_of(ids[i])
}

/// Refuses a text in which the commits are not as they were.
pub fn check_commits(commits: &Vec<CommitInfo>, written: &Vec<String>) -> (r: Result<
    (),
    SplitError,
>)
    ensures
        ({
            let ids = commit_ids(commits@);
            let w = strs(written@);
            match r {
                Ok(_) => commits_kept(ids, w),
                Err(SplitError::CountChanged) => ids.len() != w.len(),
                Err(SplitError::CommitChanged(c)) => ids.len() == w.len() && exists|i: int| {
                    &&& 0 <= i < ids.len()
                    &&& !(#[trigger] w[i]).is_prefix_of(ids[i])
                    &&& c@ == w[i]
                    &&& forall|j: int| 0 <= j < i ==> (#[trigger] w[j]).is_prefix_of(ids[j])
                },
                Err(_) => false,
            }
        }),
{
    let ghost ids = commit_ids(commits@);
    let ghost w = strs(written@);
    if commits.len() != written.len() {
        return Err(SplitError::CountChanged);
    }
    let mut i: usize = 0;
    while i < commits.len()
        invariant
            i <= commits@.len() == written@.len(),
            ids == commit_ids(commits@),
            w == strs(written@),
            forall|j: int| 0 <= j < i ==> (#[trigger] w[j]).is_prefix_of(ids[j]),
        decreases commits@.len() - i,
    {
        assert(w[i as int] == written@[i as int]@);
        if !starts_with(commits[i].id.as_str(), written[i].as_str()) {
            return Err(SplitError::CommitChanged(written[i].clone()));
        }
        i += 1;
    }
    Ok(())
}

/// The ids that begin like this.
pub open spec fn beginning_with(ids: Seq<Seq<char>>, start: Seq<char>) -> Seq<Seq<char>>
    decreases ids.len(),
{
    if ids.len() == 0 {
        Seq::empty()
    } else if start.is_prefix_of(ids.last()) {
        beginning_with(ids.drop_last(), start).push(ids.last())
    } else {
        beginning_with(ids.drop_last(), start)
    }
}

/// The short forms of ids.
pub open spec fn shorts_of(ids: Seq<Seq<char>>) -> Seq<Seq<char>> {
    Seq::new(ids.len(), |i: int| short_id(ids[i]))
}

/// The names of pairs.
pub open spec fn first_of(v: Seq<(Seq<char>, Seq<char>)>) -> Seq<Seq<char>> {
    Seq::new(v.len(), |i: int| v[i].0)
}

/// What one more row assigns.
pub open spec fn assign_step(
    ids: Seq<Seq<char>>,
    before: Seq<(Seq<char>, Seq<char>)>,
    row: (Seq<char>, Seq<char>),
) -> Result<Seq<(Seq<char>, Seq<char>)>, SplitProblem> {
    let found = beginning_with(ids, row.1);
    if found.len() == 0 {
        Err(SplitProblem::Unresolved(row.1, row.0))
    } else if found.len() > 1 {
        Err(SplitProblem::Ambiguous(row.1, row.0, shorts_of(found)))
    } else if first_of(before).contains(row.0) {
        Err(SplitProblem::Duplicate(row.0))
    } else {
        Ok(before.push((row.0, found[0])))
    }
}

/// The branches with the full ids of their commits.
pub open spec fn assign(ids: Seq<Seq<char>>, rows: Seq<(Seq<char>, Seq<char>)>) -> Result<
    Seq<(Seq<char>, Seq<char>)>,
    SplitProblem,
>
    decreases rows.len(),
{
    if rows.len() == 0 {
        Ok(Seq::empty())
    } else {
        match assign(ids, rows.drop_last()) {
            Ok(before) => assign_step(ids, before, rows.last()),
            Err(p) => Err(p),
        }
    }
}

fn find_beginning_with(commits: &Vec<CommitInfo>, start: &str) -> (r: Vec<String>)
    ensures
        strs(r@) == beginning_with(commit_ids(commits@), start@),
{
    let ghost ids = commit_ids(commits@);
    let mut out: Vec<String> = Vec::new();
    let mut i: usize = 0;
    assert(strs(out@) =~= Seq::<Seq<char>>::empty());
    while i < commits.len()
        invariant
            i <= commits@.len(),
            ids == commit_ids(commits@),
            strs(out@) == beginning_with(ids.take(i as int), start@),
        decreases commits@.len() - i,
    {
        proof {
            assert(ids.take(i + 1).drop_last() =~= ids.take(i as int));
            assert(ids.take(i + 1).last() == commits@[i as int].id@);
        }
        let ghost before = out@;
        if starts_with(commits[i].id.as_str(), start) {
            out.push(commits[i].id.clone());
            assert(strs(out@) =~= strs(before).push(commits@[i as int].id@));
        }
        i += 1;
    }
    assert(ids.take(ids.len() as int) =~= ids);
    out
}

proof fn lemma_beginning_are_ids(ids: Seq<Seq<char>>, start: Seq<char>)
    ensures
        forall|k: int|
            0 <= k < beginning_with(ids, start).len() ==> ids.contains(
                #[trigger] beginning_with(ids, start)[k],
            ),
    decreases ids.len(),
{
    if ids.len() > 0 {
        lemma_beginning_are_ids(ids.drop_last(), start);
        assert forall|k: int| 0 <= k < beginning_with(ids, start).len() implies ids.contains(
            #[trigger] beginning_with(ids, start)[k],
        ) by {
            let before = beginning_with(ids.drop_last(), start);
            if k < before.len() {
                assert(ids.drop_last().contains(before[k]));
                let j = ids.drop_last().index_of(before[k]);
                assert(ids[j] == before[k]);
            } else {
                assert(ids[ids.len() - 1] == ids.last());
            }
        }
    }
}

/// Finds the commit of each branch. Every branch gets one commit, and no branch comes twice.
pub fn resolve_split_rows(commits: &Vec<CommitInfo>, rows: &Vec<(String, String)>) -> (r: Result<
    Vec<(String, String)>,
    SplitError,
>)
    requires
        ids_are_long(commits@),
    ensures
        match r {
            Ok(v) => assign(commit_ids(commits@), pairs(rows@)) == Ok::<_, SplitProblem>(pairs(v@)),
            Err(e) => assign(commit_ids(commits@), pairs(rows@)) == Err::<
                Seq<(Seq<char>, Seq<char>)>,
                _,
            >(e@),
        },
{
    let ghost ids = commit_ids(commits@);
    let ghost all = pairs(rows@);
    let mut out: Vec<(String, String)> = Vec::new();
    let mut i: usize = 0;
    assert(pairs(out@) =~= Seq::<(Seq<char>, Seq<char>)>::empty());
    while i < rows.len()
        invariant
            i <= rows@.len(),
            ids_are_long(commits@),
            ids == commit_ids(commits@),
            all == pairs(rows@),
            assign(ids, all.take(i as int)) == Ok::<_, SplitProblem>(pairs(out@)),
        decreases rows@.len() - i,
    {
        let name = &rows[i].0;
        let start = &rows[i].1;
        proof {
            assert(all.take(i + 1).drop_last() =~= all.take(i as int));
            assert(all.take(i + 1).last() == (name@, start@));
        }
        let found = find_beginning_with(commits, start.as_str());
        let ghost hits = strs(found@);
        assert(hits.len() == found@.len());
        if found.len() == 0 {
            proof {
                lemma_assign_error_stays(ids, all, i + 1);
            }
            return Err(SplitError::Unresolved(start.clone(), name.clone()));
        }
        if found.len() > 1 {
            let mut shorts: Vec<String> = Vec::new();
            let mut k: usize = 0;
            while k < found.len()
                invariant
                    k <= found@.len(),
                    ids_are_long(commits@),
                    ids == commit_ids(commits@),
                    hits == strs(found@),
                    hits == beginning_with(ids, start@),
                    strs(shorts@) == shorts_of(hits).take(k as int),
                decreases found@.len() - k,
            {
                proof {
                    lemma_beginning_are_ids(ids, start@);
                    assert(hits[k as int] == found@[k as int]@);
                    assert(ids.contains(hits[k as int]));
                    let j = ids.index_of(hits[k as int]);
                    assert(commits@[j].id@ == hits[k as int]);
                }
                let ghost before = shorts@;
                let s = short(found[k].as_str());
                shorts.push(s);
                assert(strs(shorts@) =~= strs(before).push(s@));
                k += 1;
            }
            assert(shorts_of(hits).take(hits.len() as int) =~= shorts_of(hits));
            proof {
                lemma_assign_error_stays(ids, all, i + 1);
            }
            return Err(SplitError::Ambiguous(start.clone(), name.clone(), shorts));
        }
        if has_first(&out, name.as_str()) {
            proof {
                lemma_assign_error_stays(ids, all, i + 1);
            }
            return Err(SplitError::Duplicate(name.clone()));
        }
        let ghost before = out@;
        assert(hits[0] == found@[0]@);
        out.push((name.clone(), found[0].clone()));
        assert(pairs(out@) =~= pairs(before).push((name@, found@[0]@)));
        i += 1;
    }
    assert(all.take(all.len() as int) =~= all);
    Ok(out)
}

proof fn lemma_assign_error_stays(
    ids: Seq<Seq<char>>,
    rows: Seq<(Seq<char>, Seq<char>)>,
    n: int,
)
    requires
        0 <= n <= rows.len(),
        assign(ids, rows.take(n)) is Err,
    ensures
        assign(ids, rows) == assign(ids, rows.take(n)),
    decreases rows.len() - n,
{
    if n < rows.len() {
        assert(rows.take(n + 1).drop_last() =~= rows.take(n));
        lemma_assign_error_stays(ids, rows, n + 1);
    } else {
        assert(rows.take(n) =~= rows);
    }
}

/// Whether one of the pairs has that name.
pub fn has_first(v: &Vec<(String, String)>, name: &str) -> (r: bool)
    ensures
        r == first_of(pairs(v@)).contains(name@),
{
    let mut i: usize = 0;
    while i < v.len()
        invariant
            i <= v@.len(),
            forall|k: int| 0 <= k < i ==> first_of(pairs(v@))[k] != name@,
        decreases v@.len() - i,
    {
        if same(v[i].0.as_str(), name) {
            assert(first_of(pairs(v@))[i as int] == name@);
            return true;
        }
        i += 1;
    }
    false
}

/// The commits that were written down are not those of the path: there are more or fewer of them,
/// or one, the first such, is another.
pub open spec fn is_commit_problem(
    ids: Seq<Seq<char>>,
    written: Seq<Seq<char>>,
    problem: SplitProblem,
) -> bool {
    if ids.len() != written.len() {
        problem == SplitProblem::CountChanged
    } else {
        exists|i: int| {
            &&& 0 <= i < ids.len()
            &&& !(#[trigger] written[i]).is_prefix_of(ids[i])
            &&& problem == SplitProblem::CommitChanged(written[i])
            &&& forall|j: int| 0 <= j < i ==> (#[trigger] written[j]).is_prefix_of(ids[j])
        }
    }
}

/// What an edited text says, or why it says nothing: its rows are read first, then its commits are
/// held against those of the path, and then its branches are put on commits.
pub open spec fn is_reading(
    text: Seq<char>,
    ids: Seq<Seq<char>>,
    r: Result<Seq<(Seq<char>, Seq<char>)>, SplitProblem>,
) -> bool {
    match parse_rows(lines_of(text)) {
        Err(p) => r == Err::<Seq<(Seq<char>, Seq<char>)>, _>(p),
        Ok(rows) => if commits_kept(ids, rows.commits) {
            r == assign(ids, rows.branches)
        } else {
            r matches Err(p) && is_commit_problem(ids, rows.commits, p)
        },
    }
}

/// Reads an edited text: the branches and the commits that they go to.
pub fn read_split(edited: &str, commits: &Vec<CommitInfo>) -> (r: Result<
    Vec<(String, String)>,
    SplitError,
>)
    requires
        ids_are_long(commits@),
    ensures
        is_reading(
            edited@,
            commit_ids(commits@),
            match r {
                Ok(v) => Ok(pairs(v@)),
                Err(e) => Err(e@),
            },
        ),
{
    let rows = match parse_split_rows(edited) {
        Ok(rows) => rows,
        Err(e) => return Err(e),
    };
    if let Err(e) = check_commits(commits, &rows.commits) {
        return Err(e);
    }
    resolve_split_rows(commits, &rows.branches)
}

} // verus!
