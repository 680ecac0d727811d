//! Where settings and the upstream come from, and which branches are spared by a push.

use crate::commands::settings::{
    branch_or_origin, configured_upstream, default_upstream, first_local, first_on_origin,
    first_set, protected_targets, short_base, upstream_candidates_of,
};
use crate::lists::{lemma_chosen_next, lemma_chosen_none, lemma_filter_is_chosen};
use crate::text::{lemma_index_of_char, lemma_index_of_char_is, trim_of};
use vstd::prelude::*;

verus! {

/// A setting on the command line decides; where there is none the repository's, then the user's, and
/// the default only where nothing was said.
pub proof fn law_nearest_setting_decides<T>(a: Option<T>, b: Option<T>, c: Option<T>, default: T)
    ensures
        a is Some ==> first_set(a, b, c, default) == a->0,
        a is None && b is Some ==> first_set(a, b, c, default) == b->0,
        a is None && b is None && c is Some ==> first_set(a, b, c, default) == c->0,
        a is None && b is None && c is None ==> first_set(a, b, c, default) == default,
{
}

/// A name stands for the branch of that name, where there is one, and else for the one of `origin`;
/// nothing is found only where neither is there.
pub proof fn law_name_stands_for_a_branch(
    name: Seq<char>,
    locals: Seq<Seq<char>>,
    remotes: Seq<Seq<char>>,
)
    ensures
        match branch_or_origin(name, locals, remotes) {
            Some(found) => {
                &&& locals.contains(found) || remotes.contains(found)
                &&& found == name || found == "origin/"@ + name
                &&& locals.contains(name) || remotes.contains(name) ==> found == name
            },
            None => {
                &&& !locals.contains(name) && !remotes.contains(name)
                &&& "origin/"@.is_prefix_of(name) || (!locals.contains("origin/"@ + name)
                    && !remotes.contains("origin/"@ + name))
            },
        },
{
}

/// The repository's own setting for the upstream counts without the space around it, and only where
/// something is left of it.
pub proof fn law_blank_setting_says_nothing(setting: Option<Seq<char>>)
    ensures
        configured_upstream(setting) is Some <==> setting is Some && trim_of(setting->0).len() > 0,
        configured_upstream(setting) is Some ==> configured_upstream(setting)->0 == trim_of(
            setting->0,
        ),
{
}

/// Git's own default branch comes before the usual names; all of those are candidates, in the same
/// order, and none is a candidate twice.
pub proof fn law_candidates_for_the_upstream(default_branch: Option<Seq<char>>)
    ensures
        ({
            let all = upstream_candidates_of(default_branch);
            let given = default_branch is Some && trim_of(default_branch->0).len() > 0;
            let d = trim_of(default_branch->0);
            &&& given ==> all.len() > 0 && all[0] == d
            &&& forall|n: Seq<char>| #[trigger]
                all.contains(n) <==> n == "main"@ || n == "master"@ || n == "trunk"@ || given && n
                    == d
            &&& all.no_duplicates()
            &&& !given ==> all == seq!["main"@, "master"@, "trunk"@]
        }),
{
    reveal_strlit("main");
    reveal_strlit("master");
    reveal_strlit("trunk");
    let usual = seq!["main"@, "master"@, "trunk"@];
    assert("main"@.len() == 4 && "master"@.len() == 6 && "trunk"@.len() == 5);
    assert(usual[0] == "main"@ && usual[1] == "master"@ && usual[2] == "trunk"@);
    let all = upstream_candidates_of(default_branch);
    let given = default_branch is Some && trim_of(default_branch->0).len() > 0;
    let d = trim_of(default_branch->0);
    if given {
        let keep = |n: Seq<char>| n != d;
        let at = |k: int| keep(usual[k]);
        let give = |k: int| usual[k];
        lemma_filter_is_chosen(usual, 3, keep);
        lemma_chosen_none(at, give);
        lemma_chosen_next(0, at, give);
        lemma_chosen_next(1, at, give);
        lemma_chosen_next(2, at, give);
        let rest = usual.filter(keep);
        assert(all == seq![d] + rest);
        let want = (if "main"@ != d {
            seq!["main"@]
        } else {
            seq![]
        }) + (if "master"@ != d {
            seq!["master"@]
        } else {
            seq![]
        }) + (if "trunk"@ != d {
            seq!["trunk"@]
        } else {
            seq![]
        });
        assert(rest =~= want);
        let none: int = if "main"@ != d {
            1
        } else {
            0
        };
        let mid: int = none + if "master"@ != d {
            1int
        } else {
            0
        };
        assert("main"@ != d ==> all[1] == "main"@);
        assert("master"@ != d ==> all[1 + none] == "master"@);
        assert("trunk"@ != d ==> all[1 + mid] == "trunk"@);
        assert(all[0] == d);
        assert forall|n: Seq<char>| #[trigger]
            all.contains(n) <==> n == "main"@ || n == "master"@ || n == "trunk"@ || n == d by {
            if all.contains(n) {
                let k = all.index_of(n);
                assert(k == 0 || n == want[k - 1]);
            }
        }
    } else {
        assert forall|n: Seq<char>| #[trigger]
            all.contains(n) <==> n == "main"@ || n == "master"@ || n == "trunk"@ by {
            assert(usual.contains(usual[0]) && usual.contains(usual[1]) && usual.contains(
                usual[2],
            ));
        }
    }
}

proof fn lemma_first_local(candidates: Seq<Seq<char>>, locals: Seq<Seq<char>>) -> (i: int)
    ensures
        0 <= i <= candidates.len(),
        i < candidates.len() <==> first_local(candidates, locals) is Some,
        i < candidates.len() ==> locals.contains(candidates[i]) && first_local(candidates, locals)
            == Some(candidates[i]),
        forall|j: int| 0 <= j < i ==> !locals.contains(#[trigger] candidates[j]),
    decreases candidates.len(),
{
    if candidates.len() == 0 || locals.contains(candidates[0]) {
        0
    } else {
        let rest = candidates.drop_first();
        let k = lemma_first_local(rest, locals);
        assert forall|j: int| 0 <= j < k + 1 implies !locals.contains(#[trigger] candidates[j]) by {
            if j > 0 {
                assert(rest[j - 1] == candidates[j]);
            }
        }
        k + 1
    }
}

/// The candidate is there on `origin`.
pub open spec fn on_origin(
    name: Seq<char>,
    locals: Seq<Seq<char>>,
    remotes: Seq<Seq<char>>,
) -> bool {
    !"origin/"@.is_prefix_of(name) && (locals.contains("origin/"@ + name) || remotes.contains(
        "origin/"@ + name,
    ))
}

proof fn lemma_first_on_origin(
    candidates: Seq<Seq<char>>,
    locals: Seq<Seq<char>>,
    remotes: Seq<Seq<char>>,
) -> (i: int)
    ensures
        0 <= i <= candidates.len(),
        i < candidates.len() <==> first_on_origin(candidates, locals, remotes) is Some,
        i < candidates.len() ==> on_origin(candidates[i], locals, remotes) && first_on_origin(
            candidates,
            locals,
            remotes,
        ) == Some("origin/"@ + candidates[i]),
        forall|j: int| 0 <= j < i ==> !on_origin(#[trigger] candidates[j], locals, remotes),
    decreases candidates.len(),
{
    if candidates.len() == 0 || on_origin(candidates[0], locals, remotes) {
        0
    } else {
        let rest = candidates.drop_first();
        let k = lemma_first_on_origin(rest, locals, remotes);
        assert forall|j: int| 0 <= j < k + 1 implies !on_origin(
            #[trigger] candidates[j],
            locals,
            remotes,
        ) by {
            if j > 0 {
                assert(rest[j - 1] == candidates[j]);
            }
        }
        k + 1
    }
}

/// The first of the candidates that is a local branch.
pub open spec fn is_first_local(
    candidates: Seq<Seq<char>>,
    locals: Seq<Seq<char>>,
    i: int,
) -> bool {
    0 <= i < candidates.len() && locals.contains(candidates[i]) && forall|j: int|
        0 <= j < i ==> !locals.contains(#[trigger] candidates[j])
}

/// The first of the candidates that is on `origin`.
pub open spec fn is_first_on_origin(
    candidates: Seq<Seq<char>>,
    locals: Seq<Seq<char>>,
    remotes: Seq<Seq<char>>,
    i: int,
) -> bool {
    0 <= i < candidates.len() && on_origin(candidates[i], locals, remotes) && forall|j: int|
        0 <= j < i ==> !on_origin(#[trigger] candidates[j], locals, remotes)
}

/// The upstream is the first candidate that is a local branch; only where none is, the first one that
/// is on `origin`; and only where none is there either, there is no upstream.
pub proof fn law_local_upstream_comes_first(
    default_branch: Option<Seq<char>>,
    locals: Seq<Seq<char>>,
    remotes: Seq<Seq<char>>,
)
    ensures
        ({
            let all = upstream_candidates_of(default_branch);
            let no_local = forall|j: int|
                0 <= j < all.len() ==> !locals.contains(#[trigger] all[j]);
            match default_upstream(default_branch, locals, remotes) {
                Some(u) => {
                    ||| exists|i: int| #[trigger] is_first_local(all, locals, i) && u == all[i]
                    ||| no_local && exists|i: int| #[trigger]
                        is_first_on_origin(all, locals, remotes, i) && u == "origin/"@ + all[i]
                },
                None => no_local && forall|j: int|
                    0 <= j < all.len() ==> !on_origin(#[trigger] all[j], locals, remotes),
            }
        }),
{
    let all = upstream_candidates_of(default_branch);
    let i = lemma_first_local(all, locals);
    let j = lemma_first_on_origin(all, locals, remotes);
    if i < all.len() {
        assert(is_first_local(all, locals, i));
    } else if j < all.len() {
        assert(is_first_on_origin(all, locals, remotes, j));
    }
}

/// The short name of an upstream is what follows the remote, where it begins with one that is
/// configured, and else all of it.
pub proof fn law_short_base(
    upstream: Seq<char>,
    remote_names: Seq<Seq<char>>,
    remote: Seq<char>,
    rest: Seq<char>,
)
    requires
        !remote.contains('/'),
    ensures
        upstream == remote + seq!['/'] + rest ==> short_base(upstream, remote_names)
            == if remote_names.contains(remote) {
            rest
        } else {
            upstream
        },
        !upstream.contains('/') ==> short_base(upstream, remote_names) == upstream,
{
    lemma_index_of_char(upstream, '/');
    if upstream == remote + seq!['/'] + rest {
        assert forall|i: int| 0 <= i < remote.len() implies upstream[i] != '/' by {
            assert(remote.contains(remote[i]));
        }
        lemma_index_of_char_is(upstream, '/', remote.len() as int);
        assert(upstream.take(remote.len() as int) =~= remote);
        assert(upstream.skip(remote.len() as int + 1) =~= rest);
    }
}

/// A push spares every candidate for the upstream and the upstream itself, and nothing else.
pub proof fn law_spared_branches(
    upstream: Option<Seq<char>>,
    default_branch: Option<Seq<char>>,
    remotes: Seq<Seq<char>>,
    n: Seq<char>,
)
    ensures
        protected_targets(upstream, default_branch, remotes).contains(n) <==> n == "main"@ || n
            == "master"@ || n == "trunk"@ || (default_branch is Some && n.len() > 0 && n == trim_of(
            default_branch->0,
        )) || (upstream is Some && n == short_base(upstream->0, remotes)),
{
    law_candidates_for_the_upstream(default_branch);
    let usual = upstream_candidates_of(default_branch);
    assert(usual.contains(n) <==> n == "main"@ || n == "master"@ || n == "trunk"@ || (
    default_branch is Some && trim_of(default_branch->0).len() > 0 && n == trim_of(
        default_branch->0,
    )));
    if upstream is Some {
        let b = short_base(upstream->0, remotes);
        let more = usual.push(b);
        assert(more[usual.len() as int] == b);
        if usual.contains(n) {
            assert(more[usual.index_of(n)] == n);
        }
        if more.contains(n) && n != b {
            assert(usual[more.index_of(n)] == n);
        }
    }
}

} // verus!
