//! `kin tree`: a stack as it is drawn, with what is known of each branch.

use crate::commands::tree_shape::{
    is_tree, lemma_path, tree_parent, BranchCommit, RemoteSyncStatus, SyncStatus, TreeBranch,
};
use crate::graph::{parents_first, reaches, CommitGraph, Parents};
use crate::names::NameMap;
use crate::stack::{names_of, BranchView};
use crate::text::{cat2, cat3, cat5, dec, decimal, join, join_of, opt_string, same, strs};
use vstd::prelude::*;

verus! {

/// The options of `kin tree`.
#[derive(Debug)]
pub struct TreeArgs {
    pub commits: bool,
    pub remote: bool,
    pub pr: bool,
    /// All of the above.
    pub verbose: bool,
    pub upstream: Option<String>,
}

/// What is shown of each branch.
#[derive(Clone, Copy, Debug)]
pub struct RenderOptions {
    pub show_commits: bool,
    pub show_remote: bool,
    pub show_pr: bool,
}

impl TreeArgs {
    pub fn options(&self) -> (r: RenderOptions)
        ensures
            r.show_commits == (self.commits || self.verbose),
            r.show_remote == (self.remote || self.verbose),
            r.show_pr == (self.pr || self.verbose),
    {
        RenderOptions {
            show_commits: self.commits || self.verbose,
            show_remote: self.remote || self.verbose,
            show_pr: self.pr || self.verbose,
        }
    }
}

impl RenderOptions {
    /// Something has to be looked up for each branch.
    pub fn needs_details(&self) -> (r: bool)
        ensures
            r == (self.show_commits || self.show_remote || self.show_pr),
    {
        self.show_commits || self.show_remote || self.show_pr
    }
}

#[derive(Clone, Copy, Debug, PartialEq, Eq, Structural)]
pub enum TreeColor {
    Green,
    Yellow,
    Cyan,
    Magenta,
    Red,
    DarkGrey,
}

#[derive(Clone, Copy, Debug, PartialEq, Eq, Structural)]
pub enum TreeStyle {
    Plain,
    Bold,
    Color(TreeColor),
}

/// A part of a line, in one style.
#[derive(Debug)]
pub struct Segment {
    pub text: String,
    pub style: TreeStyle,
}

pub type SegmentView = (Seq<char>, TreeStyle);

pub open spec fn segments(v: Seq<Segment>) -> Seq<SegmentView> {
    Seq::new(v.len(), |i: int| (v[i].text@, v[i].style))
}

/// A line of the tree, and the branch that it is about.
#[derive(Debug)]
pub struct TreeLine {
    pub branch: String,
    pub parts: Vec<Segment>,
}

#[verifier::ext_equal]
pub struct TreeLineView {
    pub branch: Seq<char>,
    pub parts: Seq<SegmentView>,
}

impl View for TreeLine {
    type V = TreeLineView;

    open spec fn view(&self) -> TreeLineView {
        TreeLineView { branch: self.branch@, parts: segments(self.parts@) }
    }
}

pub open spec fn tree_lines(v: Seq<TreeLine>) -> Seq<TreeLineView> {
    Seq::new(v.len(), |i: int| v[i]@)
}

/// A commit as it is shown.
pub open spec fn commit_text_of(c: BranchCommit) -> Seq<char> {
    c.hash@ + " \""@ + c.subject@ + "\""@
}

pub fn commit_text(c: &BranchCommit) -> (r: String)
    ensures
        r@ == commit_text_of(*c),
{
    crate::text::cat4(c.hash.as_str(), " \"", c.subject.as_str(), "\"")
}

/// The distance to a remote branch as it is shown.
pub open spec fn remote_text_of(s: RemoteSyncStatus) -> Seq<char> {
    "[↑"@ + dec(s.ahead as nat) + " ↓"@ + dec(s.behind as nat) + "]"@
}

pub fn remote_text(s: &RemoteSyncStatus) -> (r: String)
    ensures
        r@ == remote_text_of(*s),
{
    let a = decimal(s.ahead as u64);
    let b = decimal(s.behind as u64);
    cat5("[↑", a.as_str(), " ↓", b.as_str(), "]")
}

pub open spec fn remote_color(s: RemoteSyncStatus) -> TreeColor {
    if s.behind > 0 {
        TreeColor::Magenta
    } else if s.ahead > 0 {
        TreeColor::Cyan
    } else {
        TreeColor::Green
    }
}

pub open spec fn sync_part(s: SyncStatus) -> SegmentView {
    match s {
        SyncStatus::InSync => ("[In Sync]"@, TreeStyle::Color(TreeColor::Green)),
        SyncStatus::NeedsRebase => ("[Needs Rebase]"@, TreeStyle::Color(TreeColor::Red)),
        SyncStatus::Merged => ("[Merged]"@, TreeStyle::Color(TreeColor::DarkGrey)),
    }
}

pub open spec fn pr_part(number: u64, is_draft: bool) -> SegmentView {
    if is_draft {
        ("#"@ + dec(number as nat) + " DRAFT"@, TreeStyle::Color(TreeColor::Yellow))
    } else {
        ("#"@ + dec(number as nat) + " OPEN"@, TreeStyle::Color(TreeColor::Green))
    }
}

pub open spec fn commit_texts(v: Seq<BranchCommit>) -> Seq<Seq<char>> {
    Seq::new(v.len(), |i: int| commit_text_of(v[i]))
}

/// What is known of a branch, part by part.
pub open spec fn status_parts(tb: TreeBranch, o: RenderOptions) -> Seq<SegmentView> {
    let none = Seq::<SegmentView>::empty();
    let pr = match tb.pr_status {
        Some(p) => if o.show_pr {
            seq![pr_part(p.number, p.is_draft)]
        } else {
            none
        },
        None => none,
    };
    let remote = match tb.remote_sync {
        Some(s) => if o.show_remote {
            seq![(remote_text_of(s), TreeStyle::Color(remote_color(s)))]
        } else {
            none
        },
        None => none,
    };
    let sync = match tb.sync_status {
        Some(s) => if o.show_pr || o.show_remote {
            seq![sync_part(s)]
        } else {
            none
        },
        None => none,
    };
    let commits = if o.show_commits && tb.commits@.len() > 0 {
        seq![(join_of(commit_texts(tb.commits@), ", "@), TreeStyle::Plain)]
    } else {
        none
    };
    pr + remote + sync + commits
}

fn part(text: String, style: TreeStyle) -> (r: Segment)
    ensures
        r.text == text,
        r.style == style,
{
    Segment { text, style }
}

fn push_part(v: &mut Vec<Segment>, text: String, style: TreeStyle)
    ensures
        segments(final(v)@) == segments(old(v)@).push((text@, style)),
{
    v.push(part(text, style));
    assert(segments(v@) =~= segments(old(v)@).push((text@, style)));
}

fn show_commits(v: &Vec<BranchCommit>) -> (r: String)
    ensures
        r@ == join_of(commit_texts(v@), ", "@),
{
    let mut out: Vec<String> = Vec::new();
    let mut i: usize = 0;
    while i < v.len()
        invariant
            i <= v@.len(),
            strs(out@) == commit_texts(v@).take(i as int),
        decreases v@.len() - i,
    {
        let text = commit_text(&v[i]);
        let ghost before = out@;
        out.push(text);
        assert(strs(out@) =~= strs(before).push(text@));
        assert(strs(out@) =~= commit_texts(v@).take(i + 1));
        i += 1;
    }
    assert(strs(out@) =~= commit_texts(v@));
    join(&out, ", ")
}

/// What is known of a branch, part by part.
pub fn show_status(tb: &TreeBranch, options: &RenderOptions) -> (r: Vec<Segment>)
    ensures
        segments(r@) == status_parts(*tb, *options),
{
    let mut out: Vec<Segment> = Vec::new();
    match &tb.pr_status {
        Some(p) => {
            if options.show_pr {
                let n = decimal(p.number);
                if p.is_draft {
                    push_part(
                        &mut out,
                        cat3("#", n.as_str(), " DRAFT"),
                        TreeStyle::Color(TreeColor::Yellow),
                    );
                } else {
                    push_part(
                        &mut out,
                        cat3("#", n.as_str(), " OPEN"),
                        TreeStyle::Color(TreeColor::Green),
                    );
                }
            }
        },
        None => {},
    }
    match &tb.remote_sync {
        Some(s) => {
            if options.show_remote {
                let color = if s.behind > 0 {
                    TreeColor::Magenta
                } else if s.ahead > 0 {
                    TreeColor::Cyan
                } else {
                    TreeColor::Green
                };
                push_part(&mut out, remote_text(s), TreeStyle::Color(color));
            }
        },
        None => {},
    }
    match &tb.sync_status {
        Some(s) => {
            if options.show_pr || options.show_remote {
                match s {
                    SyncStatus::InSync => push_part(
                        &mut out,
                        "[In Sync]".to_owned(),
                        TreeStyle::Color(TreeColor::Green),
                    ),
                    SyncStatus::NeedsRebase => push_part(
                        &mut out,
                        "[Needs Rebase]".to_owned(),
                        TreeStyle::Color(TreeColor::Red),
                    ),
                    SyncStatus::Merged => push_part(
                        &mut out,
                        "[Merged]".to_owned(),
                        TreeStyle::Color(TreeColor::DarkGrey),
                    ),
                }
            }
        },
        None => {},
    }
    if options.show_commits && tb.commits.len() > 0 {
        push_part(&mut out, show_commits(&tb.commits), TreeStyle::Plain);
    }
    assert(segments(out@) =~= status_parts(*tb, *options));
    out
}

/// The name of a branch: bold where it is the current one.
pub open spec fn name_part(name: Seq<char>, current: Option<Seq<char>>) -> SegmentView {
    if current == Some(name) {
        (name, TreeStyle::Bold)
    } else {
        (name, TreeStyle::Plain)
    }
}

/// The parts, each behind a space.
pub open spec fn spaced(parts: Seq<SegmentView>) -> Seq<SegmentView>
    decreases parts.len(),
{
    if parts.len() == 0 {
        Seq::empty()
    } else {
        spaced(parts.drop_last()).push((" "@, TreeStyle::Plain)).push(parts.last())
    }
}

/// The line of a branch.
pub open spec fn branch_line(
    tb: TreeBranch,
    prefix: Seq<char>,
    is_last: bool,
    current: Option<Seq<char>>,
    o: RenderOptions,
) -> TreeLineView {
    let connector = if is_last {
        "└─ "@
    } else {
        "├─ "@
    };
    TreeLineView {
        branch: tb.branch.name@,
        parts: seq![(prefix + connector, TreeStyle::Plain), name_part(tb.branch.name@, current)]
            + spaced(status_parts(tb, o)),
    }
}

fn is_current(name: &str, current: &Option<String>) -> (r: bool)
    ensures
        r == (opt_string(*current) == Some(name@)),
{
    match current {
        Some(c) => same(c.as_str(), name),
        None => false,
    }
}

fn draw_line(
    tb: &TreeBranch,
    prefix: &str,
    is_last: bool,
    current: &Option<String>,
    options: &RenderOptions,
) -> (r: TreeLine)
    ensures
        r@ == branch_line(*tb, prefix@, is_last, opt_string(*current), *options),
{
    let mut parts: Vec<Segment> = Vec::new();
    push_part(
        &mut parts,
        cat2(
            prefix,
            if is_last {
                "└─ "
            } else {
                "├─ "
            },
        ),
        TreeStyle::Plain,
    );
    push_part(
        &mut parts,
        tb.branch.name.clone(),
        if is_current(tb.branch.name.as_str(), current) {
            TreeStyle::Bold
        } else {
            TreeStyle::Plain
        },
    );
    let ghost head = segments(parts@);
    let status = show_status(tb, options);
    let ghost all = segments(status@);
    let mut i: usize = 0;
    assert(head + spaced(all.take(0)) =~= head);
    while i < status.len()
        invariant
            i <= status@.len(),
            all == segments(status@),
            segments(parts@) == head + spaced(all.take(i as int)),
        decreases status@.len() - i,
    {
        proof {
            assert(all.take(i + 1).drop_last() =~= all.take(i as int));
            assert(all.take(i + 1).last() == all[i as int]);
        }
        push_part(&mut parts, " ".to_owned(), TreeStyle::Plain);
        push_part(&mut parts, status[i].text.clone(), status[i].style);
        assert(segments(parts@) =~= head + spaced(all.take(i + 1)));
        i += 1;
    }
    assert(all.take(all.len() as int) =~= all);
    let r = TreeLine { branch: tb.branch.name.clone(), parts };
    assert(r@ =~= branch_line(*tb, prefix@, is_last, opt_string(*current), *options));
    r
}

/// The lines of a branch and of all that stands on it, `fuel` levels deep.
pub open spec fn drawn_branch(
    tree: Map<Seq<char>, TreeBranch>,
    name: Seq<char>,
    prefix: Seq<char>,
    is_last: bool,
    current: Option<Seq<char>>,
    o: RenderOptions,
    fuel: nat,
) -> Seq<TreeLineView>
    decreases fuel, 0nat,
{
    if fuel == 0 || !tree.contains_key(name) {
        Seq::empty()
    } else {
        let tb = tree[name];
        let children = strs(tb.children@);
        let inner = prefix + (if is_last {
            "    "@
        } else {
            "│   "@
        });
        seq![branch_line(tb, prefix, is_last, current, o)] + drawn_branches(
            tree,
            children,
            children.len(),
            inner,
            current,
            o,
            (fuel - 1) as nat,
        )
    }
}

/// The lines of the first `n` of some branches that stand side by side.
pub open spec fn drawn_branches(
    tree: Map<Seq<char>, TreeBranch>,
    names: Seq<Seq<char>>,
    n: nat,
    prefix: Seq<char>,
    current: Option<Seq<char>>,
    o: RenderOptions,
    fuel: nat,
) -> Seq<TreeLineView>
    decreases fuel, n + 1,
{
    if n == 0 {
        Seq::empty()
    } else {
        drawn_branches(tree, names, (n - 1) as nat, prefix, current, o, fuel) + drawn_branch(
            tree,
            names[n - 1],
            prefix,
            n == names.len(),
            current,
            o,
            fuel,
        )
    }
}

fn append_lines(v: &mut Vec<TreeLine>, more: Vec<TreeLine>)
    ensures
        tree_lines(final(v)@) == tree_lines(old(v)@) + tree_lines(more@),
{
    let mut rest = more;
    let ghost a = v@;
    let ghost b = rest@;
    v.append(&mut rest);
    assert(tree_lines(v@) =~= tree_lines(a) + tree_lines(b));
}

/// Draws a branch and all that stands on it.
pub fn render_branch_recursive(
    tree: &NameMap<TreeBranch>,
    branch_name: &str,
    prefix: &str,
    is_last: bool,
    current_branch_name: &Option<String>,
    options: &RenderOptions,
    fuel: usize,
) -> (r: Vec<TreeLine>)
    ensures
        tree_lines(r@) == drawn_branch(
            tree@,
            branch_name@,
            prefix@,
            is_last,
            opt_string(*current_branch_name),
            *options,
            fuel as nat,
        ),
    decreases fuel, 0nat,
{
    let mut out: Vec<TreeLine> = Vec::new();
    if fuel == 0 {
        assert(tree_lines(out@) =~= Seq::<TreeLineView>::empty());
        return out;
    }
    let tb = match tree.get(branch_name) {
        Some(tb) => tb,
        None => {
            assert(tree_lines(out@) =~= Seq::<TreeLineView>::empty());
            return out;
        },
    };
    let line = draw_line(tb, prefix, is_last, current_branch_name, options);
    out.push(line);
    let ghost head = tree_lines(out@);
    assert(head =~= seq![line@]);
    let inner = cat2(
        prefix,
        if is_last {
            "    "
        } else {
            "│   "
        },
    );
    let below = render_side_by_side(
        tree,
        &tb.children,
        tb.children.len(),
        inner.as_str(),
        current_branch_name,
        options,
        fuel - 1,
    );
    assert(strs(tb.children@).len() == tb.children@.len());
    append_lines(&mut out, below);
    out
}

fn render_side_by_side(
    tree: &NameMap<TreeBranch>,
    names: &Vec<String>,
    n: usize,
    prefix: &str,
    current_branch_name: &Option<String>,
    options: &RenderOptions,
    fuel: usize,
) -> (r: Vec<TreeLine>)
    requires
        n <= names@.len(),
    ensures
        tree_lines(r@) == drawn_branches(
            tree@,
            strs(names@),
            n as nat,
            prefix@,
            opt_string(*current_branch_name),
            *options,
            fuel as nat,
        ),
    decreases fuel, n + 1,
{
    if n == 0 {
        let out: Vec<TreeLine> = Vec::new();
        assert(tree_lines(out@) =~= Seq::<TreeLineView>::empty());
        return out;
    }
    let mut out = render_side_by_side(
        tree,
        names,
        n - 1,
        prefix,
        current_branch_name,
        options,
        fuel,
    );
    assert(strs(names@)[n - 1] == names@[n - 1]@);
    let more = render_branch_recursive(
        tree,
        names[n - 1].as_str(),
        prefix,
        n == names.len(),
        current_branch_name,
        options,
        fuel,
    );
    append_lines(&mut out, more);
    out
}

/// The branch stands on no branch of the tree.
pub open spec fn is_root(tree: Map<Seq<char>, TreeBranch>, name: Seq<char>) -> bool {
    match tree[name].parent_name {
        Some(p) => !tree.contains_key(p@),
        None => true,
    }
}

/// The roots among the names.
pub open spec fn roots_among(
    tree: Map<Seq<char>, TreeBranch>,
    names: Seq<Seq<char>>,
) -> Seq<Seq<char>>
    decreases names.len(),
{
    if names.len() == 0 {
        Seq::empty()
    } else if is_root(tree, names.last()) {
        roots_among(tree, names.drop_last()).push(names.last())
    } else {
        roots_among(tree, names.drop_last())
    }
}

fn find_roots(tree: &NameMap<TreeBranch>) -> (r: Vec<String>)
    ensures
        tree.listed(),
        strs(r@) == roots_among(tree@, tree.names()),
{
    let n: usize = tree.len();
    let ghost all = tree.names();
    let mut out: Vec<String> = Vec::new();
    let mut i: usize = 0;
    assert(strs(out@) =~= Seq::<Seq<char>>::empty());
    while i < n
        invariant
            i <= n,
            n == tree.names().len(),
            all == tree.names(),
            strs(out@) == roots_among(tree@, all.take(i as int)),
        decreases n - i,
    {
        let name = tree.name_at(i);
        let tb = tree.value_at(i);
        proof {
            assert(all.take(i + 1).drop_last() =~= all.take(i as int));
            assert(all.take(i + 1).last() == name@);
        }
        let root = match &tb.parent_name {
            Some(p) => !tree.contains(p.as_str()),
            None => true,
        };
        if root {
            let ghost before = out@;
            out.push(name.clone());
            assert(strs(out@) =~= strs(before).push(name@));
        }
        i += 1;
    }
    assert(all.take(all.len() as int) =~= all);
    out
}

/// The whole drawing: the upstream, and below it the roots of the tree with all that stands on them.
pub open spec fn drawing(
    tree: Map<Seq<char>, TreeBranch>,
    names: Seq<Seq<char>>,
    upstream: Seq<char>,
    current: Option<Seq<char>>,
    o: RenderOptions,
) -> Seq<TreeLineView> {
    let roots = roots_among(tree, names);
    seq![TreeLineView { branch: upstream, parts: seq![name_part(upstream, current)] }]
        + drawn_branches(tree, roots, roots.len(), ""@, current, o, names.len())
}

/// Draws a tree.
pub fn render_tree(
    tree: &NameMap<TreeBranch>,
    upstream_name: &str,
    current_branch_name: &Option<String>,
    options: &RenderOptions,
) -> (r: Vec<TreeLine>)
    ensures
        tree.listed(),
        tree_lines(r@) == drawing(
            tree@,
            tree.names(),
            upstream_name@,
            opt_string(*current_branch_name),
            *options,
        ),
{
    let roots = find_roots(tree);
    let mut parts: Vec<Segment> = Vec::new();
    push_part(
        &mut parts,
        upstream_name.to_owned(),
        if is_current(upstream_name, current_branch_name) {
            TreeStyle::Bold
        } else {
            TreeStyle::Plain
        },
    );
    assert(segments(parts@) =~= seq![name_part(upstream_name@, opt_string(*current_branch_name))]);
    let mut out: Vec<TreeLine> = Vec::new();
    let first = TreeLine { branch: upstream_name.to_owned(), parts };
    out.push(first);
    assert(tree_lines(out@) =~= seq![first@]);
    let more = render_side_by_side(
        tree,
        &roots,
        roots.len(),
        "",
        current_branch_name,
        options,
        tree.len(),
    );
    assert(strs(roots@).len() == roots@.len());
    append_lines(&mut out, more);
    out
}

/// The lines hold one about that branch.
pub open spec fn has_line(lines: Seq<TreeLineView>, name: Seq<char>) -> bool {
    exists|k: int| 0 <= k < lines.len() && (#[trigger] lines[k]).branch == name
}

proof fn lemma_has_line_side(
    tree: Map<Seq<char>, TreeBranch>,
    names: Seq<Seq<char>>,
    n: nat,
    prefix: Seq<char>,
    current: Option<Seq<char>>,
    o: RenderOptions,
    fuel: nat,
    k: int,
    name: Seq<char>,
)
    requires
        0 <= k < n <= names.len(),
        has_line(drawn_branch(tree, names[k], prefix, k + 1 == names.len(), current, o, fuel), name),
    ensures
        has_line(drawn_branches(tree, names, n, prefix, current, o, fuel), name),
    decreases n,
{
    let before = drawn_branches(tree, names, (n - 1) as nat, prefix, current, o, fuel);
    let own = drawn_branch(tree, names[n - 1], prefix, n == names.len(), current, o, fuel);
    let all = before + own;
    if k == n - 1 {
        let i = choose|i: int| 0 <= i < own.len() && (#[trigger] own[i]).branch == name;
        assert(all[before.len() + i] == own[i]);
    } else {
        lemma_has_line_side(tree, names, (n - 1) as nat, prefix, current, o, fuel, k, name);
        let i = choose|i: int| 0 <= i < before.len() && (#[trigger] before[i]).branch == name;
        assert(all[i] == before[i]);
    }
}

/// The tree leads along the path: each branch of it has its own node and the next among its children.
pub open spec fn leads(tree: Map<Seq<char>, TreeBranch>, path: Seq<Seq<char>>) -> bool {
    &&& forall|i: int|
        0 <= i < path.len() ==> tree.contains_key(#[trigger] path[i]) && tree[path[i]].branch.name@
            == path[i]
    &&& forall|i: int, j: int|
        0 <= i && j == i + 1 && j < path.len() ==> strs(
            tree[#[trigger] path[i]].children@,
        ).contains(#[trigger] path[j])
}

proof fn lemma_drawn_on_path(
    tree: Map<Seq<char>, TreeBranch>,
    path: Seq<Seq<char>>,
    prefix: Seq<char>,
    is_last: bool,
    current: Option<Seq<char>>,
    o: RenderOptions,
    fuel: nat,
)
    requires
        0 < path.len() <= fuel,
        leads(tree, path),
    ensures
        has_line(drawn_branch(tree, path[0], prefix, is_last, current, o, fuel), path.last()),
    decreases path.len(),
{
    let tb = tree[path[0]];
    let children = strs(tb.children@);
    let inner = prefix + (if is_last {
        "    "@
    } else {
        "│   "@
    });
    let own = seq![branch_line(tb, prefix, is_last, current, o)];
    let below = drawn_branches(
        tree,
        children,
        children.len(),
        inner,
        current,
        o,
        (fuel - 1) as nat,
    );
    let all = own + below;
    assert(drawn_branch(tree, path[0], prefix, is_last, current, o, fuel) == all);
    if path.len() == 1 {
        assert(all[0].branch == path[0]);
    } else {
        let rest = path.drop_first();
        assert forall|i: int| 0 <= i < rest.len() implies tree.contains_key(#[trigger] rest[i])
            && tree[rest[i]].branch.name@ == rest[i] by {
            assert(rest[i] == path[i + 1]);
        }
        assert forall|i: int, j: int| 0 <= i && j == i + 1 && j < rest.len() implies strs(
            tree[#[trigger] rest[i]].children@,
        ).contains(#[trigger] rest[j]) by {
            assert(rest[i] == path[i + 1] && rest[j] == path[j + 1]);
        }
        assert(children.contains(path[1])) by {
            assert(strs(tree[path[0]].children@).contains(path[1]));
        }
        let k = children.index_of(path[1]);
        assert(rest[0] == path[1]);
        lemma_drawn_on_path(
            tree,
            rest,
            inner,
            k + 1 == children.len(),
            current,
            o,
            (fuel - 1) as nat,
        );
        lemma_has_line_side(
            tree,
            children,
            children.len(),
            inner,
            current,
            o,
            (fuel - 1) as nat,
            k,
            path.last(),
        );
        let i = choose|i: int| 0 <= i < below.len() && (#[trigger] below[i]).branch == path.last();
        assert(all[1 + i] == below[i]);
    }
}

proof fn lemma_roots_among(
    tree: Map<Seq<char>, TreeBranch>,
    names: Seq<Seq<char>>,
    name: Seq<char>,
)
    requires
        names.contains(name),
        is_root(tree, name),
    ensures
        roots_among(tree, names).contains(name),
    decreases names.len(),
{
    let rest = names.drop_last();
    let before = roots_among(tree, rest);
    if names.last() == name {
        assert(before.push(name)[before.len() as int] == name);
    } else {
        let k = names.index_of(name);
        assert(rest[k] == name);
        lemma_roots_among(tree, rest, name);
        if is_root(tree, names.last()) {
            let i = before.index_of(name);
            assert(before.push(names.last())[i] == name);
        }
    }
}

/// Every branch of a stack is drawn.
pub proof fn law_every_branch_is_drawn(
    tree: Map<Seq<char>, TreeBranch>,
    names: Seq<Seq<char>>,
    g: Parents,
    order: Seq<Seq<char>>,
    all: Seq<BranchView>,
    upstream_id: Seq<char>,
    upstream: Seq<char>,
    current: Option<Seq<char>>,
    o: RenderOptions,
    name: Seq<char>,
)
    requires
        parents_first(g, order),
        names_of(all).no_duplicates(),
        is_tree(tree, g, all, upstream_id),
        names.no_duplicates(),
        forall|n: Seq<char>| #[trigger] names.contains(n) <==> tree.contains_key(n),
        names_of(all).contains(name),
    ensures
        has_line(drawing(tree, names, upstream, current, o), name),
{
    let path = lemma_path(g, order, all, upstream_id, name);
    assert forall|i: int| 0 <= i < path.len() implies tree.contains_key(#[trigger] path[i])
        && tree[path[i]].branch.name@ == path[i] && opt_string(tree[path[i]].parent_name)
        == tree_parent(g, all, upstream_id, path[i]) by {
        lemma_node_of(tree, g, all, upstream_id, path[i]);
    }
    assert forall|i: int, j: int| 0 <= i && j == i + 1 && j < path.len() implies strs(
        tree[#[trigger] path[i]].children@,
    ).contains(#[trigger] path[j]) by {
        lemma_node_of(tree, g, all, upstream_id, path[i]);
        assert(names_of(all).contains(path[j]));
        assert(tree_parent(g, all, upstream_id, path[j]) == Some(path[i]));
        assert(crate::commands::tree_shape::stands_on(g, all, upstream_id, path[j], path[i]));
    }
    assert(path.len() <= names.len()) by {
        names_of(all).unique_seq_to_set();
        names.unique_seq_to_set();
        assert(names_of(all).to_set() =~= names.to_set()) by {
            assert forall|t: Seq<char>| names_of(all).to_set().contains(t) <==> names.to_set().contains(
                t,
            ) by {
                assert(names.contains(t) <==> tree.contains_key(t));
                assert(tree.contains_key(t) <==> names_of(all).contains(t));
            }
        }
    }
    assert(is_root(tree, path[0]));
    assert(names.contains(path[0])) by {
        assert(tree.contains_key(path[0]));
    }
    let roots = roots_among(tree, names);
    lemma_roots_among(tree, names, path[0]);
    let k = roots.index_of(path[0]);
    lemma_drawn_on_path(tree, path, ""@, k + 1 == roots.len(), current, o, names.len());
    lemma_has_line_side(tree, roots, roots.len(), ""@, current, o, names.len(), k, name);
    let below = drawn_branches(tree, roots, roots.len(), ""@, current, o, names.len());
    let lines = drawing(tree, names, upstream, current, o);
    let i = choose|i: int| 0 <= i < below.len() && (#[trigger] below[i]).branch == name;
    assert(lines[1 + i] == below[i]);
}

proof fn lemma_node_of(
    tree: Map<Seq<char>, TreeBranch>,
    g: Parents,
    all: Seq<BranchView>,
    upstream_id: Seq<char>,
    name: Seq<char>,
)
    requires
        names_of(all).no_duplicates(),
        is_tree(tree, g, all, upstream_id),
        names_of(all).contains(name),
    ensures
        tree.contains_key(name),
        tree[name].branch.name@ == name,
        opt_string(tree[name].parent_name) == tree_parent(g, all, upstream_id, name),
        forall|c: Seq<char>| #[trigger]
            strs(tree[name].children@).contains(c) <==> crate::commands::tree_shape::stands_on(
                g,
                all,
                upstream_id,
                c,
                name,
            ),
{
    let names = names_of(all);
    let k = names.index_of(name);
    assert(all[k].0 == name);
    assert(crate::commands::tree_shape::is_last_of_name(all, k)) by {
        assert forall|j: int| k < j < all.len() implies (#[trigger] all[j]).0 != all[k].0 by {
            assert(names[j] != names[k]);
        }
    }
    assert(crate::commands::tree_shape::is_node(tree[all[k].0], g, all, upstream_id, k));
}

/// What a line says for a stack that is empty.
pub fn empty_stack_line(upstream_name: &str) -> (r: String)
    ensures
        r@ == upstream_name@ + " (empty stack)"@,
{
    cat2(upstream_name, " (empty stack)")
}

/// How a branch stands to the one below it. `base` is the tip that it should stand on, with the
/// commit that the two have in common: that of its parent, or that of the branch it tracks.
pub fn calculate_sync_status(
    graph: &CommitGraph,
    branch_id: &str,
    upstream_id: &str,
    base: Option<(&str, &str)>,
) -> (r: SyncStatus)
    ensures
        r == if reaches(graph@, upstream_id@, branch_id@) {
            SyncStatus::Merged
        } else {
            match base {
                Some((tip, common)) => if common@ == tip@ {
                    SyncStatus::InSync
                } else {
                    SyncStatus::NeedsRebase
                },
                None => SyncStatus::NeedsRebase,
            }
        },
{
    if crate::graph::reaches_commit(graph, upstream_id, branch_id) {
        return SyncStatus::Merged;
    }
    match base {
        Some((tip, common)) => if same(tip, common) {
            SyncStatus::InSync
        } else {
            SyncStatus::NeedsRebase
        },
        None => SyncStatus::NeedsRebase,
    }
}

/// A count is too large to be shown.
#[derive(Debug, Clone, Copy, PartialEq, Eq, Structural)]
pub enum CountOverflow {
    Ahead,
    Behind,
}

impl CountOverflow {
    pub fn message(&self) -> (r: String)
        ensures
            r@ == match *self {
                CountOverflow::Ahead => "Local branch ahead count exceeds u32"@,
                CountOverflow::Behind => "Local branch behind count exceeds u32"@,
            },
    {
        match self {
            CountOverflow::Ahead => "Local branch ahead count exceeds u32".to_owned(),
            CountOverflow::Behind => "Local branch behind count exceeds u32".to_owned(),
        }
    }
}

/// How far a branch and its remote branch are apart.
pub fn remote_sync_status(ahead: usize, behind: usize) -> (r: Result<
    RemoteSyncStatus,
    CountOverflow,
>)
    ensures
        match r {
            Ok(s) => s.ahead == ahead && s.behind == behind,
            Err(CountOverflow::Ahead) => ahead > u32::MAX,
            Err(CountOverflow::Behind) => ahead <= u32::MAX && behind > u32::MAX,
        },
{
    let most: u64 = 0xffff_ffff;
    if ahead as u64 > most {
        return Err(CountOverflow::Ahead);
    }
    if behind as u64 > most {
        return Err(CountOverflow::Behind);
    }
    Ok(RemoteSyncStatus { ahead: ahead as u32, behind: behind as u32 })
}

/// The escape sequence that selects a colour for text.
pub open spec fn color_code(c: TreeColor) -> Seq<char> {
    match c {
        TreeColor::Green => "\u{1b}[38;5;10m"@,
        TreeColor::Yellow => "\u{1b}[38;5;11m"@,
        TreeColor::Cyan => "\u{1b}[38;5;14m"@,
        TreeColor::Magenta => "\u{1b}[38;5;13m"@,
        TreeColor::Red => "\u{1b}[38;5;9m"@,
        TreeColor::DarkGrey => "\u{1b}[38;5;8m"@,
    }
}

/// Text in a style; `on` says whether colours are shown.
pub open spec fn styled(text: Seq<char>, style: TreeStyle, on: bool) -> Seq<char> {
    match style {
        TreeStyle::Plain => text,
        TreeStyle::Bold => "\u{1b}[1m"@ + text + "\u{1b}[0m"@,
        TreeStyle::Color(c) => if on {
            color_code(c) + text + "\u{1b}[39m"@
        } else {
            "\u{1b}[m"@ + text + "\u{1b}[m"@
        },
    }
}

/// `crossterm::style::Stylize::bold`, written out: the text between the escape sequences for bold
/// and for no attributes. A Windows console without escape sequences is left out of this claim.
#[verifier::external_body]
fn bold(text: &str) -> (r: String)
    ensures
        r@ == styled(text@, TreeStyle::Bold, true),
{
    crossterm::style::Stylize::bold(text).to_string()
}

/// `crossterm::style::Stylize::with`, written out: the text between the escape sequences for the
/// colour and for the colour of the terminal, both without a number where the environment forbids
/// colours. A Windows console without escape sequences is left out of this claim.
#[verifier::external_body]
fn with_color(text: &str, color: TreeColor) -> (r: String)
    ensures
        r@ == styled(text@, TreeStyle::Color(color), true) || r@ == styled(
            text@,
            TreeStyle::Color(color),
            false,
        ),
{
    let color = match color {
        TreeColor::Green => crossterm::style::Color::Green,
        TreeColor::Yellow => crossterm::style::Color::Yellow,
        TreeColor::Cyan => crossterm::style::Color::Cyan,
        TreeColor::Magenta => crossterm::style::Color::Magenta,
        TreeColor::Red => crossterm::style::Color::Red,
        TreeColor::DarkGrey => crossterm::style::Color::DarkGrey,
    };
    crossterm::style::Stylize::with(text, color).to_string()
}

/// The parts of a line in their styles; `on` says for each part whether colours are shown.
pub open spec fn styled_parts(parts: Seq<SegmentView>, on: Seq<bool>) -> Seq<char>
    decreases parts.len(),
{
    if parts.len() == 0 {
        ""@
    } else {
        styled_parts(parts.drop_last(), on.drop_last()) + styled(
            parts.last().0,
            parts.last().1,
            on.last(),
        )
    }
}

/// A line as it is written to a terminal.
pub fn show_line(parts: &Vec<Segment>) -> (r: String)
    ensures
        exists|on: Seq<bool>|
            on.len() == parts@.len() && r@ == #[trigger] styled_parts(segments(parts@), on),
{
    let ghost all = segments(parts@);
    let ghost mut on: Seq<bool> = Seq::empty();
    let mut out = "".to_owned();
    let mut i: usize = 0;
    while i < parts.len()
        invariant
            i <= parts@.len(),
            all == segments(parts@),
            on.len() == i,
            out@ == styled_parts(all.take(i as int), on),
        decreases parts@.len() - i,
    {
        let p = &parts[i];
        let text = match p.style {
            TreeStyle::Plain => p.text.clone(),
            TreeStyle::Bold => bold(p.text.as_str()),
            TreeStyle::Color(c) => with_color(p.text.as_str(), c),
        };
        proof {
            let flag = text@ == styled(p.text@, p.style, true);
            assert(text@ == styled(p.text@, p.style, flag));
            assert(all.take(i + 1).drop_last() =~= all.take(i as int));
            assert(all.take(i + 1).last() == (p.text@, p.style));
            assert(on.push(flag).drop_last() =~= on);
            on = on.push(flag);
        }
        out = cat2(out.as_str(), text.as_str());
        i += 1;
    }
    assert(all.take(all.len() as int) =~= all);
    out
}

} // verus!
