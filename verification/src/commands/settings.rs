//! Where settings come from: the command line, the repository, the user, git, and the defaults.

use crate::names::{in_order, sorted_texts};
use crate::text::{
    cat2, cat3, has_text, lemma_take_contains, list, opt_string, opt_text, same, split_once,
    split_once_spec, starts_with, strs, text_lt, trim, trim_of,
};
use vstd::prelude::*;

verus! {

/// How many commits a restack looks back where nothing says otherwise.
pub const DEFAULT_RESTACK_HISTORY_LIMIT: usize = 100;

/// The first setting that is there.
pub open spec fn first_set<T>(a: Option<T>, b: Option<T>, c: Option<T>, default: T) -> T {
    match a {
        Some(v) => v,
        None => match b {
            Some(v) => v,
            None => match c {
                Some(v) => v,
                None => default,
            },
        },
    }
}

/// How many commits a restack looks back: the command line comes first, then the repository, then
/// the user.
pub fn resolve_restack_history_limit(
    cli_override: Option<usize>,
    repo: Option<usize>,
    global: Option<usize>,
) -> (r: usize)
    ensures
        r == first_set(cli_override, repo, global, DEFAULT_RESTACK_HISTORY_LIMIT),
{
    match cli_override {
        Some(v) => v,
        None => match repo {
            Some(v) => v,
            None => match global {
                Some(v) => v,
                None => DEFAULT_RESTACK_HISTORY_LIMIT,
            },
        },
    }
}

/// What the two flags `--autostash` and `--no-autostash` say together.
pub fn autostash_override(autostash: bool, no_autostash: bool) -> (r: Option<bool>)
    ensures
        r == if autostash {
            Some(true)
        } else if no_autostash {
            Some(false)
        } else {
            None
        },
{
    if autostash {
        Some(true)
    } else if no_autostash {
        Some(false)
    } else {
        None
    }
}

/// Whether rebases set changes aside: the command line comes first, then the repository, then the
/// user; they do not where none says so.
pub fn resolve_rebase_autostash(
    cli_override: Option<bool>,
    repo: Option<bool>,
    global: Option<bool>,
) -> (r: bool)
    ensures
        r == first_set(cli_override, repo, global, false),
{
    match cli_override {
        Some(v) => v,
        None => match repo {
            Some(v) => v,
            None => match global {
                Some(v) => v,
                None => false,
            },
        },
    }
}

/// The branch is there, locally or on a remote.
pub open spec fn exists_branch(
    name: Seq<char>,
    locals: Seq<Seq<char>>,
    remotes: Seq<Seq<char>>,
) -> bool {
    locals.contains(name) || remotes.contains(name)
}

fn branch_exists(name: &str, locals: &Vec<String>, remotes: &Vec<String>) -> (r: bool)
    ensures
        r == exists_branch(name@, strs(locals@), strs(remotes@)),
{
    has_text(locals, name) || has_text(remotes, name)
}

/// The name as it is, or on `origin`, whichever is there.
pub open spec fn branch_or_origin(
    name: Seq<char>,
    locals: Seq<Seq<char>>,
    remotes: Seq<Seq<char>>,
) -> Option<Seq<char>> {
    if exists_branch(name, locals, remotes) {
        Some(name)
    } else if !"origin/"@.is_prefix_of(name) && exists_branch(
        "origin/"@ + name,
        locals,
        remotes,
    ) {
        Some("origin/"@ + name)
    } else {
        None
    }
}

/// There are changes, and they are not to be set aside.
#[derive(Debug)]
pub struct DirtyTree {
}

impl DirtyTree {
    pub fn message(&self) -> (r: String)
        ensures
            r@
                == "Working tree has uncommitted changes. Commit or stash them, or rerun with --autostash."@,
    {
        "Working tree has uncommitted changes. Commit or stash them, or rerun with --autostash.".to_owned()
    }
}

/// Whether rebases set changes aside, as the options and the settings say. With changes in the
/// working tree that are not set aside, no rebase begins.
pub fn resolve_and_check_autostash(
    autostash: bool,
    no_autostash: bool,
    repo: Option<bool>,
    global: Option<bool>,
    dirty: bool,
) -> (r: Result<bool, DirtyTree>)
    ensures
        ({
            let given = if autostash {
                Some(true)
            } else if no_autostash {
                Some(false)
            } else {
                None
            };
            let yes = first_set(given, repo, global, false);
            match r {
                Ok(b) => b == yes && (!dirty || yes),
                Err(_) => dirty && !yes,
            }
        }),
{
    let yes = resolve_rebase_autostash(autostash_override(autostash, no_autostash), repo, global);
    if dirty && !yes {
        return Err(DirtyTree {  });
    }
    Ok(yes)
}

pub fn resolve_branch_name(name: &str, locals: &Vec<String>, remotes: &Vec<String>) -> (r: Option<
    String,
>)
    ensures
        opt_string(r) == branch_or_origin(name@, strs(locals@), strs(remotes@)),
{
    if branch_exists(name, locals, remotes) {
        return Some(name.to_owned());
    }
    if !starts_with(name, "origin/") {
        let origin_name = cat2("origin/", name);
        if branch_exists(origin_name.as_str(), locals, remotes) {
            return Some(origin_name);
        }
    }
    None
}

/// The upstream that the repository's settings name is not there.
#[derive(Debug)]
pub struct MissingUpstream(pub String);

impl MissingUpstream {
    pub fn message(&self) -> (r: String)
        ensures
            r@ == "Configured upstream branch '"@ + self.0@ + "' in .git/kindra.toml was not found"@,
    {
        cat3(
            "Configured upstream branch '",
            self.0.as_str(),
            "' in .git/kindra.toml was not found",
        )
    }
}

/// The candidates for the upstream: git's default branch, then the usual names, each once.
pub open spec fn upstream_candidates_of(default_branch: Option<Seq<char>>) -> Seq<Seq<char>> {
    let usual = seq!["main"@, "master"@, "trunk"@];
    match default_branch {
        Some(d) => if trim_of(d).len() == 0 {
            usual
        } else {
            seq![trim_of(d)] + usual.filter(|n: Seq<char>| n != trim_of(d))
        },
        None => usual,
    }
}

proof fn lemma_usual(d: Seq<char>)
    ensures
        seq!["main"@, "master"@, "trunk"@].filter(|n: Seq<char>| n != d) == (if "main"@ != d {
            seq!["main"@]
        } else {
            seq![]
        }) + (if "master"@ != d {
            seq!["master"@]
        } else {
            seq![]
        }) + (if "trunk"@ != d {
            seq!["trunk"@]
        } else {
            seq![]
        }),
{
    let keep = |n: Seq<char>| n != d;
    let s = seq!["main"@, "master"@, "trunk"@];
    crate::stack::lemma_filter_next(s, 0, keep);
    crate::stack::lemma_filter_next(s, 1, keep);
    crate::stack::lemma_filter_next(s, 2, keep);
    reveal(Seq::filter);
    assert(s.take(0).filter(keep) =~= Seq::<Seq<char>>::empty());
    assert(s.take(3) =~= s);
    let parts = (if "main"@ != d {
        seq!["main"@]
    } else {
        seq![]
    }) + (if "master"@ != d {
        seq!["master"@]
    } else {
        seq![]
    }) + (if "trunk"@ != d {
        seq!["trunk"@]
    } else {
        seq![]
    });
    assert(s.filter(keep) =~= parts);
}

pub fn upstream_candidates(default_branch: Option<&str>) -> (r: Vec<String>)
    ensures
        strs(r@) == upstream_candidates_of(opt_text(default_branch)),
{
    let d = match default_branch {
        Some(text) => trim(text),
        None => String::new(),
    };
    if d.as_str().is_empty() {
        let r = list(&["main", "master", "trunk"]);
        assert(strs(r@) =~= seq!["main"@, "master"@, "trunk"@]);
        return r;
    }
    let mut out: Vec<String> = Vec::new();
    out.push(d.clone());
    let ghost v0 = out@;
    if !same(d.as_str(), "main") {
        out.push("main".to_owned());
    }
    let ghost v1 = out@;
    if !same(d.as_str(), "master") {
        out.push("master".to_owned());
    }
    let ghost v2 = out@;
    if !same(d.as_str(), "trunk") {
        out.push("trunk".to_owned());
    }
    proof {
        lemma_usual(d@);
        let a = if "main"@ != d@ {
            seq!["main"@]
        } else {
            seq![]
        };
        let b = if "master"@ != d@ {
            seq!["master"@]
        } else {
            seq![]
        };
        let c = if "trunk"@ != d@ {
            seq!["trunk"@]
        } else {
            seq![]
        };
        assert(strs(v0) =~= seq![d@]);
        assert(strs(v1) =~= seq![d@] + a);
        assert(strs(v2) =~= seq![d@] + a + b);
        assert(strs(out@) =~= seq![d@] + a + b + c);
        assert(seq![d@] + a + b + c =~= seq![d@] + (a + b + c));
    }
    out
}

/// The first candidate that is a local branch.
pub open spec fn first_local(candidates: Seq<Seq<char>>, locals: Seq<Seq<char>>) -> Option<Seq<char>>
    decreases candidates.len(),
{
    if candidates.len() == 0 {
        None
    } else if locals.contains(candidates[0]) {
        Some(candidates[0])
    } else {
        first_local(candidates.drop_first(), locals)
    }
}

/// The first candidate that is there on `origin`.
pub open spec fn first_on_origin(
    candidates: Seq<Seq<char>>,
    locals: Seq<Seq<char>>,
    remotes: Seq<Seq<char>>,
) -> Option<Seq<char>>
    decreases candidates.len(),
{
    if candidates.len() == 0 {
        None
    } else if !"origin/"@.is_prefix_of(candidates[0]) && exists_branch(
        "origin/"@ + candidates[0],
        locals,
        remotes,
    ) {
        Some("origin/"@ + candidates[0])
    } else {
        first_on_origin(candidates.drop_first(), locals, remotes)
    }
}

/// The upstream where the repository's settings name none.
pub open spec fn default_upstream(
    default_branch: Option<Seq<char>>,
    locals: Seq<Seq<char>>,
    remotes: Seq<Seq<char>>,
) -> Option<Seq<char>> {
    let candidates = upstream_candidates_of(default_branch);
    match first_local(candidates, locals) {
        Some(n) => Some(n),
        None => first_on_origin(candidates, locals, remotes),
    }
}

/// The branches of a remote that no branch of another name may be pushed over: the base that stacks
/// stand on, and the usual names of one.
pub open spec fn protected_targets(
    upstream: Option<Seq<char>>,
    default_branch: Option<Seq<char>>,
    remotes: Seq<Seq<char>>,
) -> Seq<Seq<char>> {
    let usual = upstream_candidates_of(default_branch);
    match upstream {
        Some(u) => if usual.contains(short_base(u, remotes)) {
            usual
        } else {
            usual.push(short_base(u, remotes))
        },
        None => usual,
    }
}

pub fn protected_push_targets(
    upstream: Option<&str>,
    default_branch: Option<&str>,
    remotes: &Vec<String>,
) -> (r: Vec<String>)
    ensures
        strs(r@) == protected_targets(opt_text(upstream), opt_text(default_branch), strs(remotes@)),
{
    let mut out = upstream_candidates(default_branch);
    if let Some(u) = upstream {
        let base = base_short_name(u, remotes);
        if !has_text(&out, base.as_str()) {
            let ghost before = out@;
            out.push(base);
            assert(strs(out@) =~= strs(before).push(base@));
        }
    }
    out
}

/// The name in the repository's settings, where there is one.
pub open spec fn configured_upstream(setting: Option<Seq<char>>) -> Option<Seq<char>> {
    match setting {
        Some(v) => if trim_of(v).len() > 0 {
            Some(trim_of(v))
        } else {
            None
        },
        None => None,
    }
}

/// Finds the branch that stacks stand on: the one that the repository's settings name, or else the
/// first candidate that is there, locally before remotely.
pub fn find_upstream(
    setting: Option<&str>,
    default_branch: Option<&str>,
    locals: &Vec<String>,
    remotes: &Vec<String>,
) -> (r: Result<Option<String>, MissingUpstream>)
    ensures
        match configured_upstream(opt_text(setting)) {
            Some(name) => match branch_or_origin(name, strs(locals@), strs(remotes@)) {
                Some(found) => r matches Ok(Some(s)) && s@ == found,
                None => r matches Err(e) && e.0@ == name,
            },
            None => r matches Ok(found) && opt_string(found) == default_upstream(
                opt_text(default_branch),
                strs(locals@),
                strs(remotes@),
            ),
        },
{
    if let Some(value) = setting {
        let name = trim(value);
        if !name.as_str().is_empty() {
            return match resolve_branch_name(name.as_str(), locals, remotes) {
                Some(found) => Ok(Some(found)),
                None => Err(MissingUpstream(name)),
            };
        }
    }
    let candidates = upstream_candidates(default_branch);
    let ghost all = strs(candidates@);
    let ghost ls = strs(locals@);
    let ghost rs = strs(remotes@);
    let mut i: usize = 0;
    assert(all.skip(0) =~= all);
    while i < candidates.len()
        invariant
            i <= candidates@.len(),
            configured_upstream(opt_text(setting)) is None,
            all == strs(candidates@),
            all == upstream_candidates_of(opt_text(default_branch)),
            ls == strs(locals@),
            rs == strs(remotes@),
            first_local(all, ls) == first_local(all.skip(i as int), ls),
        decreases candidates@.len() - i,
    {
        assert(all.skip(i as int)[0] == candidates@[i as int]@);
        assert(all.skip(i as int).drop_first() =~= all.skip(i + 1));
        if has_text(locals, candidates[i].as_str()) {
            return Ok(Some(candidates[i].clone()));
        }
        i += 1;
    }
    let mut j: usize = 0;
    while j < candidates.len()
        invariant
            j <= candidates@.len(),
            configured_upstream(opt_text(setting)) is None,
            all == strs(candidates@),
            all == upstream_candidates_of(opt_text(default_branch)),
            ls == strs(locals@),
            rs == strs(remotes@),
            first_local(all, ls) is None,
            first_on_origin(all, ls, rs) == first_on_origin(all.skip(j as int), ls, rs),
        decreases candidates@.len() - j,
    {
        assert(all.skip(j as int)[0] == candidates@[j as int]@);
        assert(all.skip(j as int).drop_first() =~= all.skip(j + 1));
        let name = candidates[j].as_str();
        if !starts_with(name, "origin/") {
            let remote_name = cat2("origin/", name);
            if branch_exists(remote_name.as_str(), locals, remotes) {
                return Ok(Some(remote_name));
            }
        }
        j += 1;
    }
    Ok(None)
}

/// The local name behind an upstream: without a remote that is configured.
pub open spec fn short_base(upstream: Seq<char>, remote_names: Seq<Seq<char>>) -> Seq<char> {
    match split_once_spec(upstream, '/') {
        Some((remote, rest)) => if remote_names.contains(remote) {
            rest
        } else {
            upstream
        },
        None => upstream,
    }
}

/// The local branch that an upstream would shadow: `origin/main` shadows `main` where `origin` is a
/// remote, and `feature/x` is left as it is.
pub fn base_short_name(upstream: &str, remote_names: &Vec<String>) -> (r: String)
    ensures
        r@ == short_base(upstream@, strs(remote_names@)),
{
    match split_once(upstream, '/') {
        Some((remote, rest)) => if has_text(remote_names, remote.as_str()) {
            rest
        } else {
            upstream.to_owned()
        },
        None => upstream.to_owned(),
    }
}

/// The names that begin with `current`, in order.
pub fn local_branch_candidates(names: &Vec<String>, current: &str) -> (r: Vec<String>)
    ensures
        in_order(strs(r@)),
        forall|n: Seq<char>| #[trigger]
            strs(r@).contains(n) <==> strs(names@).contains(n) && current@.is_prefix_of(n),
{
    let ordered = sorted_texts(names);
    let ghost all = strs(ordered@);
    let mut out: Vec<String> = Vec::new();
    let mut i: usize = 0;
    while i < ordered.len()
        invariant
            i <= ordered@.len(),
            all == strs(ordered@),
            in_order(all),
            in_order(strs(out@)),
            forall|n: Seq<char>| #[trigger]
                strs(out@).contains(n) <==> all.take(i as int).contains(n) && current@.is_prefix_of(n),
        decreases ordered@.len() - i,
    {
        let name = ordered[i].as_str();
        let ghost before = out@;
        proof {
            lemma_take_contains(all, i as int);
            assert(all[i as int] == name@);
        }
        if starts_with(name, current) {
            out.push(ordered[i].clone());
            proof {
                assert(strs(out@) =~= strs(before).push(name@));
                assert forall|a: int, b: int| 0 <= a < b < strs(out@).len() implies text_lt(
                    #[trigger] strs(out@)[a],
                    #[trigger] strs(out@)[b],
                ) by {
                    assert(strs(out@)[a] == strs(before)[a]);
                    if b == before.len() {
                        assert(strs(before).contains(strs(before)[a]));
                        let j = all.take(i as int).index_of(strs(before)[a]);
                        assert(all[j] == strs(before)[a]);
                        assert(text_lt(all[j], all[i as int]));
                    } else {
                        assert(strs(out@)[b] == strs(before)[b]);
                    }
                }
                assert forall|n: Seq<char>| #[trigger]
                    strs(out@).contains(n) <==> all.take(i + 1).contains(n)
                        && current@.is_prefix_of(n) by {
                    if strs(before).contains(n) {
                        assert(strs(out@)[strs(before).index_of(n)] == n);
                    }
                    assert(strs(out@)[before.len() as int] == name@);
                    if strs(out@).contains(n) && n != name@ {
                        assert(strs(before)[strs(out@).index_of(n)] == n);
                    }
                }
            }
        }
        i += 1;
    }
    assert(all.take(all.len() as int) =~= all);
    out
}

} // verus!
