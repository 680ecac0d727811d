//! What `git --version` prints, and the versions that the rebases need.

use crate::lists::{chosen, lemma_chosen_next, lemma_chosen_none};
use crate::text::{
    all_digits, cat2, cat3, dec, dec_value, decimal, digits_of, is_digit, is_white,
    leading_number, lemma_index_of_char, lemma_split_on_head, lemma_words_head, opt_text,
    split_char, split_on, strs, to_chars, trim, trim_of, words, words_of,
};
use crate::text_laws::{law_leading_digits, law_number_is_read_back};
use vstd::prelude::*;

verus! {

/// The first word that begins with a digit.
pub open spec fn version_token(words: Seq<Seq<char>>) -> Option<Seq<char>>
    decreases words.len(),
{
    if words.len() == 0 {
        None
    } else if words[0].len() > 0 && is_digit(words[0][0]) {
        Some(words[0])
    } else {
        version_token(words.drop_first())
    }
}

/// The numbers that the segments begin with; a segment without one is passed over.
pub open spec fn segment_numbers(segments: Seq<Seq<char>>) -> Seq<nat>
    decreases segments.len(),
{
    if segments.len() == 0 {
        Seq::empty()
    } else {
        let before = segment_numbers(segments.drop_last());
        let d = digits_of(segments.last());
        if d.len() > 0 && dec_value(d) <= u64::MAX {
            before.push(dec_value(d))
        } else {
            before
        }
    }
}

/// The first three numbers of the version.
pub open spec fn git_semver(output: Seq<char>) -> Option<(nat, nat, nat)> {
    match version_token(words_of(output)) {
        Some(token) => {
            let n = segment_numbers(split_on(token, '.'));
            if n.len() >= 3 {
                Some((n[0], n[1], n[2]))
            } else {
                None
            }
        },
        None => None,
    }
}

/// Reads the version out of what `git --version` prints.
pub fn parse_git_semver(version_output: &str) -> (r: Option<(u64, u64, u64)>)
    ensures
        match r {
            Some((a, b, c)) => git_semver(version_output@) == Some((a as nat, b as nat, c as nat)),
            None => git_semver(version_output@) is None,
        },
{
    let parts = words(version_output);
    let ghost all = strs(parts@);
    let mut i: usize = 0;
    assert(all.skip(0) =~= all);
    while i < parts.len()
        invariant
            i <= parts@.len(),
            all == strs(parts@),
            all == words_of(version_output@),
            version_token(all) == version_token(all.skip(i as int)),
        decreases parts@.len() - i,
    {
        let chars = to_chars(parts[i].as_str());
        assert(all.skip(i as int)[0] == chars@);
        if chars.len() > 0 && crate::text::digit(chars[0]) {
            let segments = split_char(parts[i].as_str(), '.');
            return three_numbers(&segments);
        }
        assert(all.skip(i as int).drop_first() =~= all.skip(i + 1));
        i += 1;
    }
    None
}

fn three_numbers(segments: &Vec<String>) -> (r: Option<(u64, u64, u64)>)
    ensures
        ({
            let n = segment_numbers(strs(segments@));
            match r {
                Some((a, b, c)) => n.len() >= 3 && n[0] == a && n[1] == b && n[2] == c,
                None => n.len() < 3,
            }
        }),
{
    let ghost all = strs(segments@);
    let mut numbers: Vec<u64> = Vec::new();
    let mut i: usize = 0;
    assert(all.take(0) =~= Seq::<Seq<char>>::empty());
    while i < segments.len()
        invariant
            i <= segments@.len(),
            all == strs(segments@),
            numbers@.map_values(|n: u64| n as nat) == segment_numbers(all.take(i as int)),
        decreases segments@.len() - i,
    {
        proof {
            assert(all.take(i + 1).drop_last() =~= all.take(i as int));
            assert(all.take(i + 1).last() == segments@[i as int]@);
        }
        let ghost before = numbers@;
        if let Some(n) = leading_number(segments[i].as_str()) {
            numbers.push(n);
            assert(numbers@.map_values(|n: u64| n as nat) =~= before.map_values(
                |n: u64| n as nat,
            ).push(n as nat));
        }
        i += 1;
    }
    assert(all.take(all.len() as int) =~= all);
    let ghost found = numbers@.map_values(|n: u64| n as nat);
    assert(found.len() == numbers@.len());
    if numbers.len() < 3 {
        return None;
    }
    assert(found[0] == numbers@[0] && found[1] == numbers@[1] && found[2] == numbers@[2]);
    Some((numbers[0], numbers[1], numbers[2]))
}

/// What a rebase asks of git.
#[derive(Debug, Clone, Copy, PartialEq, Eq, Structural)]
pub enum GitFeature {
    UpdateRefs,
    ReapplyCherryPicks,
}

/// Why git cannot do what is asked.
#[derive(Debug)]
pub enum GitVersionProblem {
    /// `git --version` did not succeed.
    Failed,
    /// What it printed holds no version; the text is what it printed.
    Unreadable(String),
    /// The version is below the one that is needed.
    TooOld(u64, u64, u64),
}

#[derive(Debug)]
pub struct GitVersionError {
    pub feature: GitFeature,
    pub problem: GitVersionProblem,
}

/// The first version that has the feature.
pub open spec fn minimum_version(feature: GitFeature) -> (nat, nat, nat) {
    match feature {
        GitFeature::UpdateRefs => (2, 38, 0),
        GitFeature::ReapplyCherryPicks => (2, 34, 0),
    }
}

/// Versions are compared by their first number, then by the second, then by the third.
pub open spec fn version_lt(a: (nat, nat, nat), b: (nat, nat, nat)) -> bool {
    a.0 < b.0 || (a.0 == b.0 && (a.1 < b.1 || (a.1 == b.1 && a.2 < b.2)))
}

pub open spec fn detected_prefix(feature: GitFeature) -> Seq<char> {
    match feature {
        GitFeature::UpdateRefs =>
            "This operation requires Git >= 2.38.0 because '--update-refs' is used during rebase."@,
        GitFeature::ReapplyCherryPicks =>
            "This operation requires Git >= 2.34.0 because '--reapply-cherry-picks' and '--empty=keep' are used during rebase."@,
    }
}

pub open spec fn generic_prefix(feature: GitFeature) -> Seq<char> {
    match feature {
        GitFeature::UpdateRefs =>
            "This operation requires Git >= 2.38.0 because it uses '--update-refs'"@,
        GitFeature::ReapplyCherryPicks =>
            "This operation requires Git >= 2.34.0 because it uses '--reapply-cherry-picks' and '--empty=keep'"@,
    }
}

impl GitVersionError {
    pub open spec fn text(self) -> Seq<char> {
        match self.problem {
            GitVersionProblem::Failed => generic_prefix(self.feature)
                + ", but 'git --version' failed."@,
            GitVersionProblem::Unreadable(output) => generic_prefix(self.feature)
                + ", but could not parse `git --version` output: "@ + trim_of(output@),
            GitVersionProblem::TooOld(a, b, c) => detected_prefix(self.feature) + " Detected Git "@
                + (dec(a as nat) + "."@ + dec(b as nat) + ("."@ + dec(c as nat) + "."@)),
        }
    }

    pub fn message(&self) -> (r: String)
        ensures
            r@ == self.text(),
    {
        let (detected, generic) = match self.feature {
            GitFeature::UpdateRefs => (
                "This operation requires Git >= 2.38.0 because '--update-refs' is used during rebase.",
                "This operation requires Git >= 2.38.0 because it uses '--update-refs'",
            ),
            GitFeature::ReapplyCherryPicks => (
                "This operation requires Git >= 2.34.0 because '--reapply-cherry-picks' and '--empty=keep' are used during rebase.",
                "This operation requires Git >= 2.34.0 because it uses '--reapply-cherry-picks' and '--empty=keep'",
            ),
        };
        match &self.problem {
            GitVersionProblem::Failed => cat2(generic, ", but 'git --version' failed."),
            GitVersionProblem::Unreadable(output) => cat3(
                generic,
                ", but could not parse `git --version` output: ",
                trim(output.as_str()).as_str(),
            ),
            GitVersionProblem::TooOld(a, b, c) => {
                let start = cat3(decimal(*a).as_str(), ".", decimal(*b).as_str());
                let end = cat3(".", decimal(*c).as_str(), ".");
                let version = cat2(start.as_str(), end.as_str());
                cat3(detected, " Detected Git ", version.as_str())
            },
        }
    }
}

/// What is wrong with a version for a feature; `None` stands for a command that failed.
pub open spec fn version_ok(feature: GitFeature, output: Option<Seq<char>>) -> bool {
    output is Some && git_semver(output->0) is Some && !version_lt(
        git_semver(output->0)->0,
        minimum_version(feature),
    )
}

fn ensure_git_version_at_least(
    feature: GitFeature,
    minimum: (u64, u64, u64),
    version_output: Option<&str>,
) -> (r: Result<(), GitVersionError>)
    requires
        minimum_version(feature) == (minimum.0 as nat, minimum.1 as nat, minimum.2 as nat),
    ensures
        r is Ok <==> version_ok(feature, opt_text(version_output)),
        r matches Err(e) ==> e.feature == feature && match e.problem {
            GitVersionProblem::Failed => version_output is None,
            GitVersionProblem::Unreadable(text) => version_output is Some && text@
                == version_output->0@ && git_semver(text@) is None,
            GitVersionProblem::TooOld(a, b, c) => version_output is Some && git_semver(
                version_output->0@,
            ) == Some((a as nat, b as nat, c as nat)),
        },
{
    let output = match version_output {
        Some(text) => text,
        None => return Err(GitVersionError { feature, problem: GitVersionProblem::Failed }),
    };
    let version = match parse_git_semver(output) {
        Some(v) => v,
        None => {
            return Err(
                GitVersionError {
                    feature,
                    problem: GitVersionProblem::Unreadable(output.to_owned()),
                },
            );
        },
    };
    let too_old = version.0 < minimum.0 || (version.0 == minimum.0 && (version.1 < minimum.1 || (
    version.1 == minimum.1 && version.2 < minimum.2)));
    if too_old {
        return Err(
            GitVersionError {
                feature,
                problem: GitVersionProblem::TooOld(version.0, version.1, version.2),
            },
        );
    }
    Ok(())
}

/// Whether git knows `--update-refs`. `None` stands for a `git --version` that failed.
pub fn ensure_git_supports_update_refs(version_output: Option<&str>) -> (r: Result<
    (),
    GitVersionError,
>)
    ensures
        r is Ok <==> version_ok(GitFeature::UpdateRefs, opt_text(version_output)),
        r matches Err(e) ==> e.feature == GitFeature::UpdateRefs && match e.problem {
            GitVersionProblem::Failed => version_output is None,
            GitVersionProblem::Unreadable(text) => version_output is Some && text@
                == version_output->0@ && git_semver(text@) is None,
            GitVersionProblem::TooOld(a, b, c) => version_output is Some && git_semver(
                version_output->0@,
            ) == Some((a as nat, b as nat, c as nat)),
        },
{
    ensure_git_version_at_least(GitFeature::UpdateRefs, (2, 38, 0), version_output)
}

/// Whether git knows `--reapply-cherry-picks` and `--empty=keep`. `None` stands for a
/// `git --version` that failed.
pub fn ensure_git_supports_reapply_cherry_picks(version_output: Option<&str>) -> (r: Result<
    (),
    GitVersionError,
>)
    ensures
        r is Ok <==> version_ok(
            GitFeature::ReapplyCherryPicks,
            opt_text(version_output),
        ),
        r matches Err(e) ==> e.feature == GitFeature::ReapplyCherryPicks && match e.problem {
            GitVersionProblem::Failed => version_output is None,
            GitVersionProblem::Unreadable(text) => version_output is Some && text@
                == version_output->0@ && git_semver(text@) is None,
            GitVersionProblem::TooOld(a, b, c) => version_output is Some && git_semver(
                version_output->0@,
            ) == Some((a as nat, b as nat, c as nat)),
        },
{
    ensure_git_version_at_least(GitFeature::ReapplyCherryPicks, (2, 34, 0), version_output)
}

/// A git that knows `--update-refs` also knows `--reapply-cherry-picks`.
pub proof fn law_update_refs_is_the_later_feature(output: Option<Seq<char>>)
    requires
        version_ok(GitFeature::UpdateRefs, output),
    ensures
        version_ok(GitFeature::ReapplyCherryPicks, output),
{
}

/// Git has a feature exactly from the version on that brought it.
pub proof fn law_features_by_version(output: Seq<char>, a: nat, b: nat, c: nat)
    requires
        git_semver(output) == Some((a, b, c)),
    ensures
        version_ok(GitFeature::UpdateRefs, Some(output)) <==> a > 2 || (a == 2 && b >= 38),
        version_ok(GitFeature::ReapplyCherryPicks, Some(output)) <==> a > 2 || (a == 2 && b >= 34),
        !version_ok(GitFeature::UpdateRefs, None),
        !version_ok(GitFeature::ReapplyCherryPicks, None),
{
}

/// The version is the first word of the output that begins with a digit.
pub proof fn law_version_is_the_first_number(words: Seq<Seq<char>>) -> (i: int)
    ensures
        0 <= i <= words.len(),
        i < words.len() ==> words[i].len() > 0 && '0' <= words[i][0] <= '9' && version_token(words)
            == Some(words[i]),
        i == words.len() ==> version_token(words) is None,
        forall|j: int|
            0 <= j < i ==> !((#[trigger] words[j]).len() > 0 && '0' <= words[j][0] <= '9'),
    decreases words.len(),
{
    if words.len() == 0 || (words[0].len() > 0 && is_digit(words[0][0])) {
        0
    } else {
        let rest = words.drop_first();
        let k = law_version_is_the_first_number(rest);
        assert forall|j: int| 0 <= j < k + 1 implies !((#[trigger] words[j]).len() > 0 && '0'
            <= words[j][0] <= '9') by {
            if j > 0 {
                assert(rest[j - 1] == words[j]);
            }
        }
        k + 1
    }
}

/// The numbers of a version are what its parts begin with, where that is a number.
pub proof fn law_numbers_of_a_version(segments: Seq<Seq<char>>, n: int)
    requires
        0 <= n <= segments.len(),
    ensures
        segment_numbers(segments.take(n)) == chosen(
            n,
            |k: int| digits_of(segments[k]).len() > 0 && dec_value(digits_of(segments[k])) <= u64::MAX,
            |k: int| dec_value(digits_of(segments[k])),
        ),
    decreases n,
{
    let keep = |k: int|
        digits_of(segments[k]).len() > 0 && dec_value(digits_of(segments[k])) <= u64::MAX;
    let give = |k: int| dec_value(digits_of(segments[k]));
    if n > 0 {
        law_numbers_of_a_version(segments, n - 1);
        lemma_chosen_next(n - 1, keep, give);
        assert(segments.take(n).drop_last() =~= segments.take(n - 1));
        assert(segments.take(n).last() == segments[n - 1]);
    } else {
        lemma_chosen_none(keep, give);
    }
}

proof fn lemma_digits_of_number(s: Seq<char>)
    requires
        all_digits(s),
    ensures
        digits_of(s) == s,
{
    law_leading_digits(s);
    if digits_of(s).len() < s.len() {
        assert(is_digit(s[digits_of(s).len() as int]));
    }
    assert(s.take(s.len() as int) =~= s);
}

proof fn lemma_no_dot(s: Seq<char>)
    requires
        all_digits(s),
    ensures
        !s.contains('.'),
        forall|i: int| 0 <= i < s.len() ==> !is_white(#[trigger] s[i]),
{
    if s.contains('.') {
        let i = s.index_of('.');
        assert(is_digit(s[i]));
    }
    assert forall|i: int| 0 <= i < s.len() implies !is_white(#[trigger] s[i]) by {
        assert(is_digit(s[i]));
    }
}

/// The version that git prints is read as it is, whatever follows it.
pub proof fn law_printed_version_is_read(a: nat, b: nat, c: nat, rest: Seq<char>)
    requires
        a <= u64::MAX,
        b <= u64::MAX,
        c <= u64::MAX,
        rest.len() == 0 || is_white(rest[0]),
    ensures
        git_semver("git version "@ + dec(a) + "."@ + dec(b) + "."@ + dec(c) + rest) == Some((a, b, c)),
{
    reveal_strlit("git version ");
    reveal_strlit(".");
    reveal_strlit("git");
    reveal_strlit("version");
    reveal_strlit(" ");
    law_number_is_read_back(a);
    law_number_is_read_back(b);
    law_number_is_read_back(c);
    lemma_no_dot(dec(a));
    lemma_no_dot(dec(b));
    lemma_no_dot(dec(c));
    lemma_digits_of_number(dec(a));
    lemma_digits_of_number(dec(b));
    lemma_digits_of_number(dec(c));
    let token = dec(a) + seq!['.'] + dec(b) + seq!['.'] + dec(c);
    let none = Seq::<char>::empty();
    let s = "git version "@ + dec(a) + "."@ + dec(b) + "."@ + dec(c) + rest;
    let third = " "@ + token + rest;
    let second = " "@ + "version"@ + third;
    assert(s =~= none + "git"@ + second);
    lemma_words_head(none, "git"@, second);
    lemma_words_head(" "@, "version"@, third);
    assert forall|i: int| 0 <= i < token.len() implies !is_white(#[trigger] token[i]) by {
        let x = dec(a).len() as int;
        let y = dec(b).len() as int;
        if i < x {
            assert(token[i] == dec(a)[i]);
        } else if x < i < x + 1 + y {
            assert(token[i] == dec(b)[i - x - 1]);
        } else if i > x + 1 + y {
            assert(token[i] == dec(c)[i - x - y - 2]);
        }
    }
    lemma_words_head(" "@, token, rest);
    let words = words_of(s);
    assert(words =~= seq!["git"@, "version"@, token] + words_of(rest));
    assert(words[0] == "git"@ && words[1] == "version"@ && words[2] == token);
    assert("git"@[0] == 'g' && "version"@[0] == 'v');
    assert(token[0] == dec(a)[0]);
    let i = law_version_is_the_first_number(words);
    assert(is_digit(dec(a)[0]));
    assert(i == 2);
    let tail = dec(b) + seq!['.'] + dec(c);
    assert(token =~= dec(a).push('.') + tail);
    assert(tail =~= dec(b).push('.') + dec(c));
    lemma_split_on_head(dec(a), '.', tail);
    lemma_split_on_head(dec(b), '.', dec(c));
    lemma_index_of_char(dec(c), '.');
    let parts = split_on(token, '.');
    assert(parts =~= seq![dec(a), dec(b), dec(c)]);
    law_numbers_of_a_version(parts, 3);
    assert(parts.take(3) =~= parts);
    let keep = |k: int| digits_of(parts[k]).len() > 0 && dec_value(digits_of(parts[k])) <= u64::MAX;
    let give = |k: int| dec_value(digits_of(parts[k]));
    lemma_chosen_none(keep, give);
    lemma_chosen_next(0, keep, give);
    lemma_chosen_next(1, keep, give);
    lemma_chosen_next(2, keep, give);
}

} // verus!
