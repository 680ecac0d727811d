//! Paths as texts with `/` between their parts, and the names of branches in them.

use crate::text::{
    cat2, cat3, contains_text, find_text_of, index_of_char, join, join_of, lemma_index_of_char,
    replace, replace_of, same, split_char, split_on, split_once_text, split_once_text_of,
    strip_prefix, strs, to_chars,
};
use crate::worktree::WorktreeRole;
use vstd::prelude::*;

verus! {

/// What a command on worktrees is about.
#[derive(Debug, Clone, PartialEq, Eq)]
pub enum WorktreeTarget {
    Role(WorktreeRole),
    TempBranch(String),
}

/// Reads a target: `main` and `review` are roles, anything else is a branch, and `branch:` before
/// a name makes a branch of it in any case.
pub fn parse_target(target: &str) -> (r: WorktreeTarget)
    ensures
        match r {
            WorktreeTarget::TempBranch(b) => if "branch:"@.is_prefix_of(target@) {
                b@ == target@.skip("branch:"@.len() as int)
            } else {
                target@ != "main"@ && target@ != "review"@ && b@ == target@
            },
            WorktreeTarget::Role(WorktreeRole::Main) => !"branch:"@.is_prefix_of(target@) && target@
                == "main"@,
            WorktreeTarget::Role(WorktreeRole::Review) => !"branch:"@.is_prefix_of(target@)
                && target@ == "review"@ && target@ != "main"@,
            WorktreeTarget::Role(WorktreeRole::Temp) => false,
        },
{
    if let Some(branch) = strip_prefix(target, "branch:") {
        return WorktreeTarget::TempBranch(branch);
    }
    if same(target, "main") {
        WorktreeTarget::Role(WorktreeRole::Main)
    } else if same(target, "review") {
        WorktreeTarget::Role(WorktreeRole::Review)
    } else {
        WorktreeTarget::TempBranch(target.to_owned())
    }
}

/// A character that stays as it is in a path: a letter, a digit, a dot, an underscore or a dash.
pub open spec fn stays(c: char) -> bool {
    ('a' <= c && c <= 'z') || ('A' <= c && c <= 'Z') || ('0' <= c && c <= '9') || c == '.' || c
        == '_' || c == '-'
}

fn keep(c: char) -> (r: bool)
    ensures
        r == stays(c),
{
    ('a' <= c && c <= 'z') || ('A' <= c && c <= 'Z') || ('0' <= c && c <= '9') || c == '.' || c
        == '_' || c == '-'
}

/// Each run of dashes and of characters that do not stay becomes one dash.
pub open spec fn dashed(s: Seq<char>) -> Seq<char>
    decreases s.len(),
{
    if s.len() == 0 {
        s
    } else {
        let before = dashed(s.drop_last());
        let c = if stays(s.last()) {
            s.last()
        } else {
            '-'
        };
        if c == '-' && before.len() > 0 && before.last() == '-' {
            before
        } else {
            before.push(c)
        }
    }
}

/// The text without the dashes at its beginning.
pub open spec fn without_first_dashes(s: Seq<char>) -> Seq<char>
    decreases s.len(),
{
    if s.len() > 0 && s[0] == '-' {
        without_first_dashes(s.drop_first())
    } else {
        s
    }
}

/// The text without the dashes at its end.
pub open spec fn without_last_dashes(s: Seq<char>) -> Seq<char>
    decreases s.len(),
{
    if s.len() > 0 && s.last() == '-' {
        without_last_dashes(s.drop_last())
    } else {
        s
    }
}

/// A branch's name as part of a path.
pub open spec fn sanitized(branch: Seq<char>) -> Seq<char> {
    let t = without_last_dashes(without_first_dashes(dashed(branch)));
    if t.len() == 0 {
        "branch"@
    } else {
        t
    }
}

/// Makes a part of a path out of a branch's name.
pub fn sanitize_branch_for_path(branch: &str) -> (r: String)
    ensures
        r@ == sanitized(branch@),
{
    let v = to_chars(branch);
    let mut out: Vec<char> = Vec::new();
    let mut i: usize = 0;
    while i < v.len()
        invariant
            i <= v@.len(),
            v@ == branch@,
            out@ == dashed(v@.take(i as int)),
        decreases v@.len() - i,
    {
        assert(v@.take(i + 1).drop_last() =~= v@.take(i as int));
        assert(v@.take(i + 1).last() == v@[i as int]);
        let c = if keep(v[i]) {
            v[i]
        } else {
            '-'
        };
        let n: usize = out.len();
        if !(c == '-' && n > 0 && out[n - 1] == '-') {
            out.push(c);
        }
        i += 1;
    }
    assert(v@.take(v@.len() as int) =~= v@);
    let mut from: usize = 0;
    assert(out@.skip(0) =~= out@);
    while from < out.len() && out[from] == '-'
        invariant
            from <= out@.len(),
            without_first_dashes(out@) == without_first_dashes(out@.skip(from as int)),
        decreases out@.len() - from,
    {
        assert(out@.skip(from as int).drop_first() =~= out@.skip(from + 1));
        from += 1;
    }
    let ghost rest = out@.skip(from as int);
    assert(without_first_dashes(rest) == rest);
    let mut to: usize = out.len();
    assert(out@.subrange(from as int, to as int) =~= rest);
    while to > from && out[to - 1] == '-'
        invariant
            from <= to <= out@.len(),
            without_last_dashes(rest) == without_last_dashes(out@.subrange(from as int, to as int)),
        decreases to,
    {
        assert(out@.subrange(from as int, to as int).drop_last() =~= out@.subrange(
            from as int,
            to - 1,
        ));
        to -= 1;
    }
    if from == to {
        "branch".to_owned()
    } else {
        crate::text::from_range(&out, from, to)
    }
}

/// Only characters that stay, no two dashes in a row, and no dash at either end.
pub open spec fn is_clean(s: Seq<char>) -> bool {
    &&& s.len() > 0
    &&& forall|i: int| 0 <= i < s.len() ==> stays(#[trigger] s[i])
    &&& forall|i: int, j: int|
        0 <= i && j == i + 1 && j < s.len() ==> !(#[trigger] s[i] == '-' && #[trigger] s[j] == '-')
    &&& s[0] != '-'
    &&& s.last() != '-'
}

proof fn lemma_dashed(s: Seq<char>)
    ensures
        forall|i: int| 0 <= i < dashed(s).len() ==> stays(#[trigger] dashed(s)[i]),
        forall|i: int, j: int|
            0 <= i && j == i + 1 && j < dashed(s).len() ==> !(#[trigger] dashed(s)[i] == '-'
                && #[trigger] dashed(s)[j] == '-'),
    decreases s.len(),
{
    if s.len() > 0 {
        lemma_dashed(s.drop_last());
        let before = dashed(s.drop_last());
        let after = dashed(s);
        assert forall|i: int, j: int| 0 <= i && j == i + 1 && j < after.len() implies !(
        #[trigger] after[i] == '-' && #[trigger] after[j] == '-') by {
            if j < before.len() {
                assert(after[i] == before[i] && after[j] == before[j]);
            }
        }
    }
}

proof fn lemma_first_dashes(s: Seq<char>)
    ensures
        exists|k: int| 0 <= k <= s.len() && without_first_dashes(s) == #[trigger] s.skip(k),
        without_first_dashes(s).len() > 0 ==> without_first_dashes(s)[0] != '-',
    decreases s.len(),
{
    if s.len() > 0 && s[0] == '-' {
        let t = s.drop_first();
        lemma_first_dashes(t);
        let k = choose|k: int| 0 <= k <= t.len() && without_first_dashes(t) == #[trigger] t.skip(k);
        assert(t.skip(k) =~= s.skip(k + 1));
        assert(without_first_dashes(s) == s.skip(k + 1));
    } else {
        assert(s.skip(0) =~= s);
        assert(without_first_dashes(s) == s.skip(0));
    }
}

proof fn lemma_last_dashes(s: Seq<char>)
    ensures
        exists|k: int| 0 <= k <= s.len() && without_last_dashes(s) == #[trigger] s.take(k),
        without_last_dashes(s).len() > 0 ==> without_last_dashes(s).last() != '-',
    decreases s.len(),
{
    if s.len() > 0 && s.last() == '-' {
        let t = s.drop_last();
        lemma_last_dashes(t);
        let k = choose|k: int| 0 <= k <= t.len() && without_last_dashes(t) == #[trigger] t.take(k);
        assert(t.take(k) =~= s.take(k));
        assert(without_last_dashes(s) == s.take(k));
    } else {
        assert(s.take(s.len() as int) =~= s);
        assert(without_last_dashes(s) == s.take(s.len() as int));
    }
}

/// A branch's name in a path is never empty and holds no separator: only letters, digits, dots,
/// underscores and single dashes between them.
pub proof fn law_sanitized_is_clean(branch: Seq<char>)
    ensures
        is_clean(sanitized(branch)),
        !sanitized(branch).contains('/'),
{
    let d = dashed(branch);
    lemma_dashed(branch);
    lemma_first_dashes(d);
    let a = without_first_dashes(d);
    let k = choose|k: int| 0 <= k <= d.len() && a == #[trigger] d.skip(k);
    lemma_last_dashes(a);
    let t = without_last_dashes(a);
    let m = choose|m: int| 0 <= m <= a.len() && t == #[trigger] a.take(m);
    if t.len() == 0 {
        reveal_strlit("branch");
    } else {
        assert forall|i: int| 0 <= i < t.len() implies stays(#[trigger] t[i]) by {
            assert(t[i] == d[i + k]);
        }
        assert forall|i: int, j: int| 0 <= i && j == i + 1 && j < t.len() implies !(#[trigger] t[i]
            == '-' && #[trigger] t[j] == '-') by {
            assert(t[i] == d[i + k] && t[j] == d[j + k]);
        }
        assert(t[0] == a[0]);
    }
    let s = sanitized(branch);
    if s.contains('/') {
        let i = s.index_of('/');
        assert(stays(s[i]));
    }
}

proof fn lemma_dashed_same(s: Seq<char>)
    requires
        forall|i: int| 0 <= i < s.len() ==> stays(#[trigger] s[i]),
        forall|i: int, j: int|
            0 <= i && j == i + 1 && j < s.len() ==> !(#[trigger] s[i] == '-' && #[trigger] s[j] == '-'),
    ensures
        dashed(s) == s,
    decreases s.len(),
{
    if s.len() > 0 {
        let t = s.drop_last();
        assert forall|i: int| 0 <= i < t.len() implies stays(#[trigger] t[i]) by {
            assert(t[i] == s[i]);
        }
        assert forall|i: int, j: int| 0 <= i && j == i + 1 && j < t.len() implies !(#[trigger] t[i]
            == '-' && #[trigger] t[j] == '-') by {
            assert(t[i] == s[i] && t[j] == s[j]);
        }
        lemma_dashed_same(t);
        assert(stays(s[s.len() - 1]));
        if t.len() > 0 {
            assert(t.last() == s[s.len() - 2]);
            assert(!(s[s.len() - 2] == '-' && s[s.len() - 1] == '-'));
        }
        assert(t.push(s.last()) =~= s);
    }
}

/// A name that has been made fit for a path stays as it is when that is done again.
pub proof fn law_sanitize_is_idempotent(branch: Seq<char>)
    ensures
        sanitized(sanitized(branch)) == sanitized(branch),
{
    law_sanitized_is_clean(branch);
    lemma_dashed_same(sanitized(branch));
}

/// The parts of a path: what stands between separators, without empty parts and `.`.
pub open spec fn is_part(s: Seq<char>) -> bool {
    s.len() > 0 && s != "."@
}

/// One more part: `..` takes the part before it away, and means nothing at the root.
pub open spec fn part_step(absolute: bool, before: Seq<Seq<char>>, part: Seq<char>) -> Seq<Seq<char>> {
    if !is_part(part) {
        before
    } else if part != ".."@ {
        before.push(part)
    } else if before.len() > 0 && before.last() != ".."@ {
        before.drop_last()
    } else if absolute {
        before
    } else {
        before.push(part)
    }
}

/// The parts that are left when each `..` has taken a part away.
pub open spec fn settled(absolute: bool, parts: Seq<Seq<char>>) -> Seq<Seq<char>>
    decreases parts.len(),
{
    if parts.len() == 0 {
        Seq::empty()
    } else {
        part_step(absolute, settled(absolute, parts.drop_last()), parts.last())
    }
}

pub open spec fn is_absolute_path(path: Seq<char>) -> bool {
    path.len() > 0 && path[0] == '/'
}

/// The parts of a path in its plainest form.
pub open spec fn path_parts(path: Seq<char>) -> Seq<Seq<char>> {
    settled(is_absolute_path(path), split_on(path, '/'))
}

/// The text of a path.
pub open spec fn path_text(absolute: bool, parts: Seq<Seq<char>>) -> Seq<char> {
    if absolute {
        "/"@ + join_of(parts, "/"@)
    } else {
        join_of(parts, "/"@)
    }
}

/// A path in its plainest form.
pub open spec fn normalized(path: Seq<char>) -> Seq<char> {
    path_text(is_absolute_path(path), path_parts(path))
}

/// Whether a path begins at the root.
pub fn is_absolute(path: &str) -> (r: bool)
    ensures
        r == is_absolute_path(path@),
{
    let v = to_chars(path);
    v.len() > 0 && v[0] == '/'
}

/// The parts of a path in its plainest form.
pub fn read_parts(path: &str) -> (r: Vec<String>)
    ensures
        strs(r@) == path_parts(path@),
{
    let absolute = is_absolute(path);
    let pieces = split_char(path, '/');
    let ghost all = strs(pieces@);
    let mut out: Vec<String> = Vec::new();
    let mut i: usize = 0;
    assert(strs(out@) =~= Seq::<Seq<char>>::empty());
    while i < pieces.len()
        invariant
            i <= pieces@.len(),
            all == strs(pieces@),
            absolute == is_absolute_path(path@),
            strs(out@) == settled(absolute, all.take(i as int)),
        decreases pieces@.len() - i,
    {
        let piece = pieces[i].as_str();
        proof {
            assert(all.take(i + 1).drop_last() =~= all.take(i as int));
            assert(all.take(i + 1).last() == piece@);
            assert(strs(out@).len() == out@.len());
        }
        let ghost before = out@;
        let n: usize = out.len();
        if !piece.is_empty() && !same(piece, ".") {
            if !same(piece, "..") {
                out.push(pieces[i].clone());
                assert(strs(out@) =~= strs(before).push(piece@));
            } else if n > 0 && !same(out[n - 1].as_str(), "..") {
                assert(strs(before).last() == before[n - 1]@);
                out.pop();
                assert(strs(out@) =~= strs(before).drop_last());
            } else {
                if n > 0 {
                    assert(strs(before).last() == before[n - 1]@);
                }
                if !absolute {
                    out.push(pieces[i].clone());
                    assert(strs(out@) =~= strs(before).push(piece@));
                }
            }
        }
        i += 1;
    }
    assert(all.take(all.len() as int) =~= all);
    out
}

/// Brings a path into its plainest form: no empty parts, no `.`, and `..` only at the beginning of
/// a relative path.
pub fn normalize_path(path: &str) -> (r: String)
    ensures
        r@ == normalized(path@),
{
    let parts = read_parts(path);
    let text = join(&parts, "/");
    if is_absolute(path) {
        cat2("/", text.as_str())
    } else {
        text
    }
}

/// A second path seen from a first: itself where it is absolute.
pub open spec fn joined(base: Seq<char>, path: Seq<char>) -> Seq<char> {
    if is_absolute_path(path) || base.len() == 0 {
        path
    } else if base.last() == '/' {
        base + path
    } else {
        base + "/"@ + path
    }
}

pub fn join_path(base: &str, path: &str) -> (r: String)
    ensures
        r@ == joined(base@, path@),
{
    if is_absolute(path) || base.is_empty() {
        return path.to_owned();
    }
    let v = to_chars(base);
    if v[v.len() - 1] == '/' {
        cat2(base, path)
    } else {
        cat3(base, "/", path)
    }
}

/// A relative path without parts: every path, an absolute one too, lies below it.
pub open spec fn is_empty_path(path: Seq<char>) -> bool {
    !is_absolute_path(path) && path_parts(path).len() == 0
}

/// The path is the root or lies below it.
pub open spec fn within(root: Seq<char>, path: Seq<char>) -> bool {
    is_empty_path(root) || (is_absolute_path(root) == is_absolute_path(path) && path_parts(
        root,
    ).is_prefix_of(path_parts(path)))
}

/// Whether a path is the root or lies below it, part by part.
pub fn path_is_inside(root: &str, path: &str) -> (r: bool)
    ensures
        r == within(root@, path@),
{
    let a = read_parts(root);
    let b = read_parts(path);
    let ghost x = strs(a@);
    let ghost y = strs(b@);
    assert(x.len() == a@.len() && y.len() == b@.len());
    if a.is_empty() && !is_absolute(root) {
        return true;
    }
    if is_absolute(root) != is_absolute(path) {
        return false;
    }
    if a.len() > b.len() {
        return false;
    }
    let mut i: usize = 0;
    while i < a.len()
        invariant
            i <= a@.len() <= b@.len(),
            x == strs(a@),
            y == strs(b@),
            within(root@, path@) == x.is_prefix_of(y),
            forall|k: int| 0 <= k < i ==> #[trigger] x[k] == y[k],
        decreases a@.len() - i,
    {
        assert(x[i as int] == a@[i as int]@ && y[i as int] == b@[i as int]@);
        if !same(a[i].as_str(), b[i].as_str()) {
            proof {
                if x.is_prefix_of(y) {
                    assert(y.subrange(0, x.len() as int)[i as int] == y[i as int]);
                }
            }
            return false;
        }
        i += 1;
    }
    assert(y.subrange(0, x.len() as int) =~= x);
    true
}

/// A template without a place for the branch.
#[derive(Debug)]
pub struct TemplateError(pub String);

impl TemplateError {
    pub fn message(&self) -> (r: String)
        ensures
            r@ == "Temp worktree path template '"@ + self.0@ + "' must include '{branch}'."@,
    {
        cat3("Temp worktree path template '", self.0.as_str(), "' must include '{branch}'.")
    }
}

/// The path of a branch's worktree: the branch is put in wherever the template has a place for it.
pub fn expand_path_template(template: &str, branch: &str) -> (r: Result<String, TemplateError>)
    ensures
        match r {
            Ok(path) => find_text_of(template@, "{branch}"@) is Some && path@ == normalized(
                replace_of(template@, "{branch}"@, sanitized(branch@)),
            ),
            Err(e) => find_text_of(template@, "{branch}"@) is None && e.0@ == template@,
        },
{
    if !contains_text(template, "{branch}") {
        return Err(TemplateError(template.to_owned()));
    }
    proof {
        reveal_strlit("{branch}");
    }
    let text = replace(template, "{branch}", sanitize_branch_for_path(branch).as_str());
    Ok(normalize_path(text.as_str()))
}

/// The part of a template before the branch: everything that is made from it lies there.
pub fn temp_template_root(template: &str) -> (r: Result<String, TemplateError>)
    ensures
        match split_once_text_of(template@, "{branch}"@) {
            Some((prefix, _)) => r matches Ok(root) && root@ == normalized(prefix),
            None => r matches Err(e) && e.0@ == template@,
        },
{
    match split_once_text(template, "{branch}") {
        Some((prefix, _)) => Ok(normalize_path(prefix.as_str())),
        None => Err(TemplateError(template.to_owned())),
    }
}

/// Parts that a plain path can have: they are not empty and hold no separator.
pub open spec fn plain_parts(parts: Seq<Seq<char>>) -> bool {
    forall|i: int| 0 <= i < parts.len() ==> is_part(#[trigger] parts[i]) && !parts[i].contains('/')
}

/// Only `..` stands before a `..`, and none stands behind the root.
pub open spec fn settled_parts(absolute: bool, parts: Seq<Seq<char>>) -> bool {
    forall|i: int|
        0 <= i < parts.len() && #[trigger] parts[i] == ".."@ ==> !absolute && (forall|j: int|
            0 <= j < i ==> #[trigger] parts[j] == ".."@)
}

proof fn lemma_pieces_plain(s: Seq<char>)
    ensures
        forall|i: int|
            0 <= i < split_on(s, '/').len() ==> !(#[trigger] split_on(s, '/')[i]).contains('/'),
    decreases s.len(),
{
    lemma_index_of_char(s, '/');
    let i = index_of_char(s, '/');
    if i < s.len() {
        let rest = s.skip(i + 1);
        lemma_pieces_plain(rest);
        let v = split_on(s, '/');
        assert forall|k: int| 0 <= k < v.len() implies !(#[trigger] v[k]).contains('/') by {
            if k > 0 {
                assert(v[k] == split_on(rest, '/')[k - 1]);
            }
        }
    }
}

proof fn lemma_settled(absolute: bool, pieces: Seq<Seq<char>>)
    requires
        forall|i: int| 0 <= i < pieces.len() ==> !(#[trigger] pieces[i]).contains('/'),
    ensures
        plain_parts(settled(absolute, pieces)),
        settled_parts(absolute, settled(absolute, pieces)),
    decreases pieces.len(),
{
    if pieces.len() > 0 {
        let fewer = pieces.drop_last();
        assert forall|i: int| 0 <= i < fewer.len() implies !(#[trigger] fewer[i]).contains('/') by {
            assert(fewer[i] == pieces[i]);
        }
        lemma_settled(absolute, fewer);
        let before = settled(absolute, fewer);
        let after = settled(absolute, pieces);
        let part = pieces[pieces.len() - 1];
        assert(!part.contains('/'));
        if is_part(part) && part == ".."@ && after.len() > before.len() {
            assert forall|j: int| 0 <= j < before.len() implies #[trigger] before[j] == ".."@ by {
                let last = before.len() - 1;
                assert(before[last] == ".."@);
            }
        }
    }
}

/// The pieces of parts that were put together are those parts.
proof fn lemma_split_join(parts: Seq<Seq<char>>)
    requires
        parts.len() > 0,
        forall|i: int| 0 <= i < parts.len() ==> !(#[trigger] parts[i]).contains('/'),
    ensures
        split_on(join_of(parts, "/"@), '/') == parts,
    decreases parts.len(),
{
    reveal_strlit("/");
    if parts.len() == 1 {
        lemma_index_of_char(parts[0], '/');
        assert(split_on(parts[0], '/') =~= parts);
    } else {
        let rest = parts.drop_first();
        assert forall|i: int| 0 <= i < rest.len() implies !(#[trigger] rest[i]).contains('/') by {
            assert(rest[i] == parts[i + 1]);
        }
        lemma_split_join(rest);
        lemma_join_first(parts);
        assert(join_of(parts, "/"@) =~= parts[0].push('/') + join_of(rest, "/"@));
        crate::text::lemma_split_on_head(parts[0], '/', join_of(rest, "/"@));
        assert(seq![parts[0]] + rest =~= parts);
    }
}

/// Putting texts together from the left.
proof fn lemma_join_first(parts: Seq<Seq<char>>)
    requires
        parts.len() > 1,
    ensures
        join_of(parts, "/"@) == parts[0] + "/"@ + join_of(parts.drop_first(), "/"@),
    decreases parts.len(),
{
    let rest = parts.drop_first();
    if parts.len() == 2 {
        assert(parts.drop_last() =~= seq![parts[0]]);
        assert(join_of(parts.drop_last(), "/"@) == parts[0]);
        assert(join_of(rest, "/"@) == parts[1]);
    } else {
        lemma_join_first(parts.drop_last());
        assert(parts.drop_last().drop_first() =~= rest.drop_last());
        assert(rest.last() == parts.last());
        assert(join_of(parts, "/"@) =~= parts[0] + "/"@ + (join_of(rest.drop_last(), "/"@) + "/"@
            + rest.last()));
    }
}

/// Parts that are settled stay as they are.
proof fn lemma_settled_same(absolute: bool, parts: Seq<Seq<char>>)
    requires
        plain_parts(parts),
        settled_parts(absolute, parts),
    ensures
        settled(absolute, parts) == parts,
    decreases parts.len(),
{
    if parts.len() > 0 {
        let fewer = parts.drop_last();
        assert forall|i: int| 0 <= i < fewer.len() implies is_part(#[trigger] fewer[i])
            && !fewer[i].contains('/') by {
            assert(fewer[i] == parts[i]);
        }
        assert forall|i: int| 0 <= i < fewer.len() && #[trigger] fewer[i] == ".."@ implies !absolute
            && (forall|j: int| 0 <= j < i ==> #[trigger] fewer[j] == ".."@) by {
            assert(parts[i] == ".."@);
            assert forall|j: int| 0 <= j < i implies #[trigger] fewer[j] == ".."@ by {
                assert(parts[j] == ".."@);
            }
        }
        lemma_settled_same(absolute, fewer);
        let last = parts.len() - 1;
        assert(is_part(parts[last]));
        if parts[last] == ".."@ && fewer.len() > 0 {
            assert(parts[last - 1] == ".."@);
            assert(fewer.last() == parts[last - 1]);
        }
        assert(fewer.push(parts.last()) =~= parts);
    }
}

/// An empty piece or `.` before the parts does not matter.
proof fn lemma_settled_prefix(absolute: bool, first: Seq<char>, parts: Seq<Seq<char>>)
    requires
        !is_part(first),
    ensures
        settled(absolute, seq![first] + parts) == settled(absolute, parts),
    decreases parts.len(),
{
    let all = seq![first] + parts;
    if parts.len() == 0 {
        assert(all.drop_last() =~= Seq::<Seq<char>>::empty());
        assert(all.last() == first);
        assert(settled(absolute, all.drop_last()) == Seq::<Seq<char>>::empty());
    } else {
        lemma_settled_prefix(absolute, first, parts.drop_last());
        assert(all.drop_last() =~= seq![first] + parts.drop_last());
        assert(all.last() == parts.last());
    }
}

/// A text that begins with something else than a separator.
proof fn lemma_join_relative(parts: Seq<Seq<char>>)
    requires
        plain_parts(parts),
    ensures
        !is_absolute_path(join_of(parts, "/"@)),
        parts.len() > 0 ==> join_of(parts, "/"@).len() > 0,
    decreases parts.len(),
{
    if parts.len() == 1 {
        assert(is_part(parts[0]) && !parts[0].contains('/'));
        if parts[0][0] == '/' {
            assert(parts[0].contains('/'));
        }
    } else if parts.len() > 1 {
        lemma_join_first(parts);
        assert(is_part(parts[0]) && !parts[0].contains('/'));
        if parts[0][0] == '/' {
            assert(parts[0].contains('/'));
        }
        assert(join_of(parts, "/"@)[0] == parts[0][0]);
    }
}

/// A path in its plainest form is absolute if the path was, has the same parts, and stays as it is
/// when it is brought into its plainest form again.
pub proof fn law_normalize_is_idempotent(path: Seq<char>)
    ensures
        is_absolute_path(normalized(path)) == is_absolute_path(path),
        path_parts(normalized(path)) == path_parts(path),
        normalized(normalized(path)) == normalized(path),
{
    let absolute = is_absolute_path(path);
    let parts = path_parts(path);
    let text = normalized(path);
    lemma_pieces_plain(path);
    lemma_settled(absolute, split_on(path, '/'));
    lemma_settled_same(absolute, parts);
    lemma_join_relative(parts);
    reveal_strlit("/");
    let body = join_of(parts, "/"@);
    if parts.len() > 0 {
        assert forall|i: int| 0 <= i < parts.len() implies !(#[trigger] parts[i]).contains('/') by {
            assert(is_part(parts[i]));
        }
        lemma_split_join(parts);
    } else {
        lemma_index_of_char(body, '/');
        assert(split_on(body, '/') =~= seq![Seq::<char>::empty()]);
        lemma_settled_prefix(absolute, Seq::empty(), parts);
        assert(seq![Seq::<char>::empty()] + parts =~= seq![Seq::<char>::empty()]);
    }
    if absolute {
        assert(text[0] == '/');
        assert(text =~= Seq::<char>::empty().push('/') + body);
        crate::text::lemma_split_on_head(Seq::empty(), '/', body);
        lemma_settled_prefix(absolute, Seq::empty(), split_on(body, '/'));
    }
}

/// What stands between the separators of a path, behind the root where it has one.
pub open spec fn components(path: Seq<char>) -> Seq<Seq<char>> {
    let body = if is_absolute_path(path) {
        path.skip(1)
    } else {
        path
    };
    if body.len() == 0 {
        Seq::empty()
    } else {
        split_on(body, '/')
    }
}

/// A path in its plainest form: no component is empty or `.`, none is `..` behind the root, and in a
/// relative path every `..` stands before every other component.
pub open spec fn is_plain_path(path: Seq<char>) -> bool {
    let all = components(path);
    &&& forall|i: int| 0 <= i < all.len() ==> (#[trigger] all[i]).len() > 0 && all[i] != "."@
    &&& is_absolute_path(path) ==> forall|i: int|
        0 <= i < all.len() ==> #[trigger] all[i] != ".."@
    &&& forall|i: int, j: int|
        0 <= i < j < all.len() && #[trigger] all[j] == ".."@ ==> #[trigger] all[i] == ".."@
}

/// Pieces of a text, put together again.
proof fn lemma_join_split(s: Seq<char>)
    ensures
        join_of(split_on(s, '/'), "/"@) == s,
        split_on(s, '/').len() > 0,
    decreases s.len(),
{
    reveal_strlit("/");
    lemma_index_of_char(s, '/');
    let i = index_of_char(s, '/');
    if i < s.len() {
        let rest = s.skip(i + 1);
        lemma_join_split(rest);
        let all = split_on(s, '/');
        lemma_join_first(all);
        assert(all.drop_first() =~= split_on(rest, '/'));
        assert(s.take(i) + "/"@ + rest =~= s);
    }
}

/// The components of a plain text are its parts.
proof fn lemma_components_of_text(absolute: bool, parts: Seq<Seq<char>>)
    requires
        plain_parts(parts),
    ensures
        is_absolute_path(path_text(absolute, parts)) == absolute,
        components(path_text(absolute, parts)) == parts,
{
    reveal_strlit("/");
    let body = join_of(parts, "/"@);
    let text = path_text(absolute, parts);
    lemma_join_relative(parts);
    if absolute {
        assert(text[0] == '/');
        assert(text.skip(1) =~= body);
    }
    if parts.len() > 0 {
        assert forall|i: int| 0 <= i < parts.len() implies !(#[trigger] parts[i]).contains('/') by {
            assert(is_part(parts[i]));
        }
        lemma_split_join(parts);
    } else {
        assert(parts =~= Seq::<Seq<char>>::empty());
    }
}

/// A path in its plainest form is plain: it is absolute exactly where the path was, it has no empty
/// component and no `.`, an absolute one has no `..`, and in a relative one every `..` comes first.
/// It stays as it is when it is brought into its plainest form again.
pub proof fn law_normalized_path_is_plain(path: Seq<char>)
    ensures
        is_plain_path(normalized(path)),
        is_absolute_path(normalized(path)) == is_absolute_path(path),
        components(normalized(path)) == path_parts(path),
        normalized(normalized(path)) == normalized(path),
{
    let absolute = is_absolute_path(path);
    let parts = path_parts(path);
    lemma_pieces_plain(path);
    lemma_settled(absolute, split_on(path, '/'));
    lemma_components_of_text(absolute, parts);
    law_normalize_is_idempotent(path);
    assert forall|i: int| 0 <= i < parts.len() implies (#[trigger] parts[i]).len() > 0 && parts[i]
        != "."@ by {
        assert(is_part(parts[i]));
    }
}

/// A plain path is its own plainest form.
pub proof fn law_plain_path_stays(path: Seq<char>)
    requires
        is_plain_path(path),
    ensures
        normalized(path) == path,
{
    reveal_strlit("/");
    let absolute = is_absolute_path(path);
    let body = if absolute {
        path.skip(1)
    } else {
        path
    };
    let all = components(path);
    lemma_pieces_plain(body);
    lemma_join_split(body);
    assert forall|i: int| 0 <= i < all.len() implies is_part(#[trigger] all[i])
        && !all[i].contains('/') by {}
    lemma_settled_same(absolute, all);
    let none = Seq::<char>::empty();
    if body.len() == 0 {
        assert(body =~= none);
        lemma_index_of_char(none, '/');
        assert(split_on(none, '/') =~= seq![none]);
        lemma_settled_prefix(absolute, none, all);
        assert(seq![none] + all =~= seq![none]);
    }
    if absolute {
        assert(path =~= none.push('/') + body);
        crate::text::lemma_split_on_head(none, '/', body);
        lemma_settled_prefix(absolute, none, split_on(body, '/'));
        assert(path =~= "/"@ + body);
    }
    assert(path_parts(path) == all);
}

/// What lies within the plainest form of a root lies within the root.
pub proof fn law_within_is_the_same_for_normalized(root: Seq<char>, path: Seq<char>)
    ensures
        within(normalized(root), normalized(path)) == within(root, path),
{
    law_normalize_is_idempotent(root);
    law_normalize_is_idempotent(path);
}

/// One more part at the end of a path: an empty one and a dot change nothing, a plain one comes last,
/// and `..` takes the last one away, unless there is none to take; then it stays in a relative path and
/// is nothing at the root.
pub proof fn law_part_at_the_end(absolute: bool, parts: Seq<Seq<char>>, part: Seq<char>)
    ensures
        settled(absolute, parts.push(""@)) == settled(absolute, parts),
        settled(absolute, parts.push("."@)) == settled(absolute, parts),
        part != ""@ && part != "."@ && part != ".."@ ==> settled(absolute, parts.push(part))
            == settled(absolute, parts).push(part),
        ({
            let before = settled(absolute, parts);
            let up = settled(absolute, parts.push(".."@));
            &&& before.len() > 0 && before.last() != ".."@ ==> up == before.drop_last()
            &&& before.len() == 0 && absolute ==> up == before
            &&& (before.len() == 0 || before.last() == ".."@) && !absolute ==> up == before.push(
                ".."@,
            )
        }),
        settled(absolute, Seq::empty()) == Seq::<Seq<char>>::empty(),
{
    reveal_strlit("");
    reveal_strlit(".");
    reveal_strlit("..");
    assert(""@.len() == 0 && "."@.len() == 1 && ".."@.len() == 2);
    assert(""@ =~= Seq::<char>::empty());
    if part.len() == 0 {
        assert(part =~= ""@);
    }
    assert(parts.push(""@).drop_last() =~= parts);
    assert(parts.push("."@).drop_last() =~= parts);
    assert(parts.push(".."@).drop_last() =~= parts);
    assert(parts.push(part).drop_last() =~= parts);
}

/// A path lies within a root exactly where both begin at the root of all paths or neither does and the
/// parts of the root are the first parts of the path; every path lies within an empty one.
pub proof fn law_what_lies_within_a_root(root: Seq<char>, path: Seq<char>)
    ensures
        root.len() > 0 && root[0] == '/' ==> (within(root, path) <==> path.len() > 0 && path[0] == '/'
            && path_parts(root).len() <= path_parts(path).len() && forall|i: int|
            0 <= i < path_parts(root).len() ==> #[trigger] path_parts(root)[i] == path_parts(
                path,
            )[i]),
        !(root.len() > 0 && root[0] == '/') && path_parts(root).len() == 0 ==> within(root, path),
        !(root.len() > 0 && root[0] == '/') && path_parts(root).len() > 0 ==> (within(root, path)
            <==> !(path.len() > 0 && path[0] == '/') && path_parts(root).len() <= path_parts(
            path,
        ).len() && forall|i: int|
            0 <= i < path_parts(root).len() ==> #[trigger] path_parts(root)[i] == path_parts(
                path,
            )[i]),
{
    let a = path_parts(root);
    let b = path_parts(path);
    if a.len() <= b.len() && forall|i: int| 0 <= i < a.len() ==> #[trigger] a[i] == b[i] {
        assert(a =~= b.subrange(0, a.len() as int));
    }
    if a.is_prefix_of(b) {
        assert forall|i: int| 0 <= i < a.len() implies #[trigger] a[i] == b[i] by {
            assert(b.subrange(0, a.len() as int)[i] == b[i]);
        }
    }
}

/// A path seen from another one stands behind it, with one separator between them; an absolute one
/// stays as it is.
pub proof fn law_path_seen_from_another(base: Seq<char>, path: Seq<char>)
    ensures
        path.len() > 0 && path[0] == '/' ==> joined(base, path) == path,
        base.len() == 0 ==> joined(base, path) == path,
        base.len() > 0 && !(path.len() > 0 && path[0] == '/') && base.last() == '/' ==> joined(
            base,
            path,
        ) == base + path,
        base.len() > 0 && !(path.len() > 0 && path[0] == '/') && base.last() != '/' ==> joined(
            base,
            path,
        ) == base + "/"@ + path,
{
}

/// The letters, digits, dots and underscores of a text, in order.
pub open spec fn letters_of(s: Seq<char>) -> Seq<char>
    decreases s.len(),
{
    if s.len() == 0 {
        Seq::empty()
    } else if ('a' <= s.last() <= 'z') || ('A' <= s.last() <= 'Z') || ('0' <= s.last() <= '9')
        || s.last() == '.' || s.last() == '_' {
        letters_of(s.drop_last()).push(s.last())
    } else {
        letters_of(s.drop_last())
    }
}

proof fn lemma_letters_of_dashed(s: Seq<char>)
    ensures
        letters_of(dashed(s)) == letters_of(s),
    decreases s.len(),
{
    if s.len() > 0 {
        lemma_letters_of_dashed(s.drop_last());
        let before = dashed(s.drop_last());
        assert(before.push(s.last()).drop_last() =~= before);
        assert(before.push('-').drop_last() =~= before);
    }
}

proof fn lemma_letters_join(a: Seq<char>, b: Seq<char>)
    ensures
        letters_of(a + b) == letters_of(a) + letters_of(b),
    decreases b.len(),
{
    if b.len() > 0 {
        lemma_letters_join(a, b.drop_last());
        assert((a + b).drop_last() =~= a + b.drop_last());
        assert((a + b).last() == b.last());
        assert(letters_of(a + b) =~= letters_of(a) + letters_of(b));
    } else {
        assert(a + b =~= a);
        assert(letters_of(a + b) =~= letters_of(a) + letters_of(b));
    }
}

proof fn lemma_letters_first_dashes(s: Seq<char>)
    ensures
        letters_of(without_first_dashes(s)) == letters_of(s),
    decreases s.len(),
{
    if s.len() > 0 && s[0] == '-' {
        let rest = s.drop_first();
        lemma_letters_first_dashes(rest);
        lemma_letters_join(seq!['-'], rest);
        assert(s =~= seq!['-'] + rest);
        assert(letters_of(seq!['-'].drop_last()) =~= Seq::<char>::empty());
        assert(seq!['-'].last() == '-');
        assert(letters_of(seq!['-']) =~= Seq::<char>::empty());
        assert(letters_of(s) =~= letters_of(rest));
    }
}

proof fn lemma_letters_last_dashes(s: Seq<char>)
    ensures
        letters_of(without_last_dashes(s)) == letters_of(s),
    decreases s.len(),
{
    if s.len() > 0 && s.last() == '-' {
        lemma_letters_last_dashes(s.drop_last());
    }
}

/// A branch's name in a path holds the letters, digits, dots and underscores of the name, all of them
/// and in their order, unless there are none. A name that is fit for a path stays as it is.
pub proof fn law_sanitized_keeps_the_letters(branch: Seq<char>)
    ensures
        letters_of(branch).len() > 0 ==> letters_of(sanitized(branch)) == letters_of(branch),
        letters_of(branch).len() == 0 ==> sanitized(branch) == "branch"@,
        is_clean(branch) ==> sanitized(branch) == branch,
{
    let d = dashed(branch);
    let a = without_first_dashes(d);
    let t = without_last_dashes(a);
    lemma_letters_of_dashed(branch);
    lemma_letters_first_dashes(d);
    lemma_letters_last_dashes(a);
    if is_clean(branch) {
        lemma_dashed_same(branch);
    }
    if letters_of(branch).len() == 0 && t.len() > 0 {
        lemma_dashed(branch);
        lemma_first_dashes(d);
        lemma_last_dashes(a);
        let k = choose|k: int| 0 <= k <= d.len() && a == #[trigger] d.skip(k);
        let m = choose|m: int| 0 <= m <= a.len() && t == #[trigger] a.take(m);
        assert(t.last() == d[k + m - 1]);
        assert(stays(d[k + m - 1]));
        assert(t.last() != '-');
        assert(letters_of(t).len() > 0);
    }
}

} // verus!
