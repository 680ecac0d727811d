//! The arguments of `kin commit`: what Kindra keeps for itself and what goes on to `git commit`.

use crate::text::{same, starts_with, strip_prefix, strs};
use vstd::prelude::*;

verus! {

/// What the arguments of `kin commit` ask for.
#[derive(Debug)]
pub struct ParsedCommitArgs {
    /// `--on`: with a branch, or with the wish to choose one.
    pub on_target: Option<Option<String>>,
    pub interactive: bool,
    pub fixup_target: Option<String>,
    pub force: bool,
    pub autostash: Option<bool>,
    /// What goes on to `git commit`.
    pub git_commit_args: Vec<String>,
}

/// Why the arguments of `kin commit` make no sense.
#[derive(Debug, Clone, Copy, PartialEq, Eq, Structural)]
pub enum CommitArgsError {
    FixupTwice,
    FixupWithoutCommit,
    FixupWithEmptyCommit,
    OnTwice,
    OnBeforeOption,
    InteractiveAndOn,
    FixupAndInteractive,
    FixupAndOn,
}

impl CommitArgsError {
    pub open spec fn text(self) -> Seq<char> {
        match self {
            CommitArgsError::FixupTwice => "--fixup can only be specified once."@,
            CommitArgsError::FixupWithoutCommit =>
                "--fixup requires a commit to fix up (e.g. 'kin commit --fixup <sha>')."@,
            CommitArgsError::FixupWithEmptyCommit =>
                "--fixup requires a commit to fix up (e.g. 'kin commit --fixup=<sha>')."@,
            CommitArgsError::OnTwice => "--on can only be specified once."@,
            CommitArgsError::OnBeforeOption =>
                "When using '--on', provide a branch name or use '--on=' for interactive selection."@,
            CommitArgsError::InteractiveAndOn =>
                "--interactive and --on are mutually exclusive. Use one or the other."@,
            CommitArgsError::FixupAndInteractive =>
                "--fixup and --interactive are mutually exclusive. Use one or the other."@,
            CommitArgsError::FixupAndOn =>
                "--fixup and --on are mutually exclusive. --fixup determines the target branch from the commit."@,
        }
    }

    pub fn message(&self) -> (r: String)
        ensures
            r@ == self.text(),
    {
        let text = match self {
            CommitArgsError::FixupTwice => "--fixup can only be specified once.",
            CommitArgsError::FixupWithoutCommit =>
                "--fixup requires a commit to fix up (e.g. 'kin commit --fixup <sha>').",
            CommitArgsError::FixupWithEmptyCommit =>
                "--fixup requires a commit to fix up (e.g. 'kin commit --fixup=<sha>').",
            CommitArgsError::OnTwice => "--on can only be specified once.",
            CommitArgsError::OnBeforeOption =>
                "When using '--on', provide a branch name or use '--on=' for interactive selection.",
            CommitArgsError::InteractiveAndOn =>
                "--interactive and --on are mutually exclusive. Use one or the other.",
            CommitArgsError::FixupAndInteractive =>
                "--fixup and --interactive are mutually exclusive. Use one or the other.",
            CommitArgsError::FixupAndOn =>
                "--fixup and --on are mutually exclusive. --fixup determines the target branch from the commit.",
        };
        text.to_owned()
    }
}

/// The arguments as they have been understood.
#[verifier::ext_equal]
pub struct CommitArgsView {
    pub on_target: Option<Option<Seq<char>>>,
    pub interactive: bool,
    pub fixup_target: Option<Seq<char>>,
    pub force: bool,
    pub autostash: Option<bool>,
    pub git_commit_args: Seq<Seq<char>>,
}

impl View for ParsedCommitArgs {
    type V = CommitArgsView;

    open spec fn view(&self) -> CommitArgsView {
        CommitArgsView {
            on_target: match self.on_target {
                None => None,
                Some(None) => Some(None),
                Some(Some(b)) => Some(Some(b@)),
            },
            interactive: self.interactive,
            fixup_target: match self.fixup_target {
                None => None,
                Some(t) => Some(t@),
            },
            force: self.force,
            autostash: self.autostash,
            git_commit_args: strs(self.git_commit_args@),
        }
    }
}

/// The flags that steer questions to the user, which clap leaves among the arguments.
pub open spec fn is_interaction_flag(arg: Seq<char>) -> bool {
    arg == "--yes"@ || arg == "--no-interactive"@
}

fn is_global_interaction_flag(arg: &str) -> (r: bool)
    ensures
        r == is_interaction_flag(arg@),
{
    same(arg, "--yes") || same(arg, "--no-interactive")
}

/// The place of the first `--`, or the number of arguments.
pub open spec fn separator(args: Seq<Seq<char>>) -> int
    decreases args.len(),
{
    if args.len() == 0 || args[0] == "--"@ {
        0
    } else {
        1 + separator(args.drop_first())
    }
}

pub proof fn lemma_separator(args: Seq<Seq<char>>)
    ensures
        0 <= separator(args) <= args.len(),
        forall|i: int| 0 <= i < separator(args) ==> #[trigger] args[i] != "--"@,
        separator(args) < args.len() ==> args[separator(args)] == "--"@,
    decreases args.len(),
{
    if args.len() > 0 && args[0] != "--"@ {
        let rest = args.drop_first();
        lemma_separator(rest);
        assert forall|i: int| 0 <= i < separator(args) implies #[trigger] args[i] != "--"@ by {
            if i > 0 {
                assert(rest[i - 1] == args[i]);
            }
        }
        if separator(args) < args.len() {
            assert(rest[separator(rest)] == args[separator(args)]);
        }
    }
}

fn find_separator(args: &Vec<String>) -> (r: usize)
    ensures
        r == separator(strs(args@)),
        r <= args@.len(),
{
    let ghost all = strs(args@);
    let mut i: usize = 0;
    assert(all.skip(0) =~= all);
    while i < args.len() && !same(args[i].as_str(), "--")
        invariant
            i <= args@.len(),
            all == strs(args@),
            separator(all) == i + separator(all.skip(i as int)),
        decreases args@.len() - i,
    {
        assert(all.skip(i as int)[0] == args@[i as int]@);
        assert(all.skip(i as int).drop_first() =~= all.skip(i + 1));
        i += 1;
    }
    proof {
        if i < args@.len() {
            assert(all.skip(i as int)[0] == args@[i as int]@);
        }
    }
    i
}

/// The flags that steer questions to the user: given before the command, or among its arguments
/// before a `--`. Returns whether questions are off, and whether they are answered with yes.
pub fn recover_interaction_flags(args: &Vec<String>, no_interactive: bool, yes: bool) -> (r: (
    bool,
    bool,
))
    ensures
        ({
            let own = strs(args@).take(separator(strs(args@)));
            r == (
                no_interactive || own.contains("--no-interactive"@),
                yes || own.contains("--yes"@),
            )
        }),
{
    let ghost all = strs(args@);
    let n = find_separator(args);
    let ghost own = all.take(n as int);
    let mut off = no_interactive;
    let mut agreed = yes;
    let mut i: usize = 0;
    while i < n
        invariant
            i <= n <= args@.len(),
            all == strs(args@),
            own == all.take(n as int),
            off == (no_interactive || own.take(i as int).contains("--no-interactive"@)),
            agreed == (yes || own.take(i as int).contains("--yes"@)),
        decreases n - i,
    {
        let arg = args[i].as_str();
        proof {
            let part = own.take(i as int);
            let next = own.take(i + 1);
            assert(next =~= part.push(arg@));
            assert forall|t: Seq<char>| #[trigger] next.contains(t) == (part.contains(t) || t
                == arg@) by {
                if part.contains(t) {
                    assert(next[part.index_of(t)] == t);
                }
                assert(next[i as int] == arg@);
                if next.contains(t) && t != arg@ {
                    assert(part[next.index_of(t)] == t);
                }
            }
        }
        if same(arg, "--no-interactive") {
            off = true;
        } else if same(arg, "--yes") {
            proof {
                reveal_strlit("--yes");
                reveal_strlit("--no-interactive");
            }
            agreed = true;
        }
        proof {
            reveal_strlit("--yes");
            reveal_strlit("--no-interactive");
            assert("--yes"@.len() != "--no-interactive"@.len());
        }
        i += 1;
    }
    assert(own.take(n as int) =~= own);
    (off, agreed)
}

/// The value behind `--name=`.
pub open spec fn value_of(arg: Seq<char>, prefix: Seq<char>) -> Seq<char> {
    arg.skip(prefix.len() as int)
}

pub open spec fn begins_option(arg: Seq<char>) -> bool {
    "-"@.is_prefix_of(arg)
}

/// Reads the arguments from the first one on, with what is known already.
pub open spec fn parse_from(args: Seq<Seq<char>>, p: CommitArgsView) -> Result<
    CommitArgsView,
    CommitArgsError,
>
    decreases args.len(),
{
    if args.len() == 0 {
        Ok(p)
    } else {
        let arg = args[0];
        let rest = args.drop_first();
        if arg == "--"@ {
            Ok(CommitArgsView { git_commit_args: p.git_commit_args + args, ..p })
        } else if is_interaction_flag(arg) {
            parse_from(rest, p)
        } else if arg == "--interactive"@ {
            parse_from(rest, CommitArgsView { interactive: true, ..p })
        } else if arg == "--force"@ {
            parse_from(rest, CommitArgsView { force: true, ..p })
        } else if arg == "--autostash"@ {
            parse_from(rest, CommitArgsView { autostash: Some(true), ..p })
        } else if arg == "--no-autostash"@ {
            parse_from(rest, CommitArgsView { autostash: Some(false), ..p })
        } else if arg == "--fixup"@ {
            if p.fixup_target is Some {
                Err(CommitArgsError::FixupTwice)
            } else if args.len() == 1 || args[1].len() == 0 || begins_option(args[1]) {
                Err(CommitArgsError::FixupWithoutCommit)
            } else {
                parse_from(args.skip(2), CommitArgsView { fixup_target: Some(args[1]), ..p })
            }
        } else if "--fixup="@.is_prefix_of(arg) {
            let value = value_of(arg, "--fixup="@);
            if p.fixup_target is Some {
                Err(CommitArgsError::FixupTwice)
            } else if value.len() == 0 {
                Err(CommitArgsError::FixupWithEmptyCommit)
            } else {
                parse_from(rest, CommitArgsView { fixup_target: Some(value), ..p })
            }
        } else if arg == "--on"@ {
            if p.on_target is Some {
                Err(CommitArgsError::OnTwice)
            } else if args.len() == 1 {
                parse_from(rest, CommitArgsView { on_target: Some(None), ..p })
            } else if begins_option(args[1]) {
                Err(CommitArgsError::OnBeforeOption)
            } else {
                parse_from(args.skip(2), CommitArgsView { on_target: Some(Some(args[1])), ..p })
            }
        } else if "--on="@.is_prefix_of(arg) {
            let value = value_of(arg, "--on="@);
            if p.on_target is Some {
                Err(CommitArgsError::OnTwice)
            } else if value.len() == 0 {
                parse_from(rest, CommitArgsView { on_target: Some(None), ..p })
            } else {
                parse_from(rest, CommitArgsView { on_target: Some(Some(value)), ..p })
            }
        } else {
            parse_from(rest, CommitArgsView { git_commit_args: p.git_commit_args.push(arg), ..p })
        }
    }
}

/// Nothing is asked for yet.
pub open spec fn no_args() -> CommitArgsView {
    CommitArgsView {
        on_target: None,
        interactive: false,
        fixup_target: None,
        force: false,
        autostash: None,
        git_commit_args: Seq::empty(),
    }
}

/// At most one way to name a target may be used.
pub open spec fn check_exclusive(p: CommitArgsView) -> Result<CommitArgsView, CommitArgsError> {
    if p.interactive && p.on_target is Some {
        Err(CommitArgsError::InteractiveAndOn)
    } else if p.fixup_target is Some && p.interactive {
        Err(CommitArgsError::FixupAndInteractive)
    } else if p.fixup_target is Some && p.on_target is Some {
        Err(CommitArgsError::FixupAndOn)
    } else {
        Ok(p)
    }
}

/// What the arguments ask for.
pub open spec fn commit_args(args: Seq<Seq<char>>) -> Result<CommitArgsView, CommitArgsError> {
    match parse_from(args, no_args()) {
        Ok(p) => check_exclusive(p),
        Err(e) => Err(e),
    }
}

/// Reads the arguments of `kin commit`.
pub fn parse_commit_args(args: &Vec<String>) -> (r: Result<ParsedCommitArgs, CommitArgsError>)
    ensures
        match r {
            Ok(p) => commit_args(strs(args@)) == Ok::<_, CommitArgsError>(p@),
            Err(e) => commit_args(strs(args@)) == Err::<CommitArgsView, _>(e),
        },
{
    let mut parsed = ParsedCommitArgs {
        on_target: None,
        interactive: false,
        fixup_target: None,
        force: false,
        autostash: None,
        git_commit_args: Vec::new(),
    };
    let ghost all = strs(args@);
    let n: usize = args.len();
    let mut idx: usize = 0;
    assert(parsed@ =~= no_args());
    assert(all.skip(0) =~= all);
    while idx < n
        invariant_except_break
            parse_from(all, no_args()) == parse_from(all.skip(idx as int), parsed@),
        invariant
            idx <= n == args@.len(),
            all == strs(args@),
        ensures
            parse_from(all, no_args()) == Ok::<_, CommitArgsError>(parsed@),
        decreases n - idx,
    {
        let arg = args[idx].as_str();
        let ghost rest = all.skip(idx as int);
        let ghost before = parsed@;
        proof {
            assert(rest[0] == arg@);
            assert(rest.len() == n - idx);
            assert(rest.drop_first() =~= all.skip(idx + 1));
            if idx + 1 < n {
                assert(rest[1] == args@[idx + 1]@);
                assert(rest.skip(2) =~= all.skip(idx + 2));
            }
        }
        if same(arg, "--") {
            let mut i: usize = idx;
            while i < n
                invariant
                    idx <= i <= n == args@.len(),
                    all == strs(args@),
                    rest == all.skip(idx as int),
                    parsed@ =~= (CommitArgsView {
                        git_commit_args: before.git_commit_args + rest.take(i - idx),
                        ..before
                    }),
                decreases n - i,
            {
                let ghost have = parsed.git_commit_args@;
                parsed.git_commit_args.push(args[i].clone());
                assert(strs(parsed.git_commit_args@) =~= strs(have).push(args@[i as int]@));
                assert(rest.take(i - idx + 1) =~= rest.take(i - idx).push(args@[i as int]@));
                i += 1;
            }
            assert(rest.take(n - idx) =~= rest);
            break;
        }
        if is_global_interaction_flag(arg) {
            idx += 1;
            continue;
        }
        if same(arg, "--interactive") {
            parsed.interactive = true;
            assert(parsed@ =~= (CommitArgsView { interactive: true, ..before }));
            idx += 1;
            continue;
        }
        if same(arg, "--force") {
            parsed.force = true;
            assert(parsed@ =~= (CommitArgsView { force: true, ..before }));
            idx += 1;
            continue;
        }
        if same(arg, "--autostash") {
            parsed.autostash = Some(true);
            assert(parsed@ =~= (CommitArgsView { autostash: Some(true), ..before }));
            idx += 1;
            continue;
        }
        if same(arg, "--no-autostash") {
            parsed.autostash = Some(false);
            assert(parsed@ =~= (CommitArgsView { autostash: Some(false), ..before }));
            idx += 1;
            continue;
        }
        if same(arg, "--fixup") {
            if parsed.fixup_target.is_some() {
                return Err(CommitArgsError::FixupTwice);
            }
            if idx + 1 == n || args[idx + 1].as_str().is_empty() || starts_with(
                args[idx + 1].as_str(),
                "-",
            ) {
                return Err(CommitArgsError::FixupWithoutCommit);
            }
            parsed.fixup_target = Some(args[idx + 1].clone());
            assert(parsed@ =~= (CommitArgsView { fixup_target: Some(rest[1]), ..before }));
            idx += 2;
            continue;
        }
        if let Some(value) = strip_prefix(arg, "--fixup=") {
            if parsed.fixup_target.is_some() {
                return Err(CommitArgsError::FixupTwice);
            }
            if value.as_str().is_empty() {
                return Err(CommitArgsError::FixupWithEmptyCommit);
            }
            let ghost text = value@;
            parsed.fixup_target = Some(value);
            assert(parsed@ =~= (CommitArgsView { fixup_target: Some(text), ..before }));
            idx += 1;
            continue;
        }
        if same(arg, "--on") {
            if parsed.on_target.is_some() {
                return Err(CommitArgsError::OnTwice);
            }
            if idx + 1 == n {
                parsed.on_target = Some(None);
                assert(parsed@ =~= (CommitArgsView { on_target: Some(None), ..before }));
                idx += 1;
                continue;
            }
            if starts_with(args[idx + 1].as_str(), "-") {
                return Err(CommitArgsError::OnBeforeOption);
            }
            parsed.on_target = Some(Some(args[idx + 1].clone()));
            assert(parsed@ =~= (CommitArgsView { on_target: Some(Some(rest[1])), ..before }));
            idx += 2;
            continue;
        }
        if let Some(value) = strip_prefix(arg, "--on=") {
            if parsed.on_target.is_some() {
                return Err(CommitArgsError::OnTwice);
            }
            if value.as_str().is_empty() {
                parsed.on_target = Some(None);
                assert(parsed@ =~= (CommitArgsView { on_target: Some(None), ..before }));
            } else {
                let ghost text = value@;
                parsed.on_target = Some(Some(value));
                assert(parsed@ =~= (CommitArgsView { on_target: Some(Some(text)), ..before }));
            }
            idx += 1;
            continue;
        }
        let ghost have = parsed.git_commit_args@;
        parsed.git_commit_args.push(args[idx].clone());
        assert(strs(parsed.git_commit_args@) =~= strs(have).push(arg@));
        assert(parsed@ =~= (CommitArgsView {
            git_commit_args: before.git_commit_args.push(arg@),
            ..before
        }));
        idx += 1;
    }
    if parsed.interactive && parsed.on_target.is_some() {
        return Err(CommitArgsError::InteractiveAndOn);
    }
    if parsed.fixup_target.is_some() && parsed.interactive {
        return Err(CommitArgsError::FixupAndInteractive);
    }
    if parsed.fixup_target.is_some() && parsed.on_target.is_some() {
        return Err(CommitArgsError::FixupAndOn);
    }
    Ok(parsed)
}

/// Arguments from before the `--`, none of them a flag that steers questions.
pub open spec fn plain_args(v: Seq<Seq<char>>, args: Seq<Seq<char>>) -> bool {
    forall|i: int|
        0 <= i < v.len() ==> args.take(separator(args)).contains(#[trigger] v[i])
            && !is_interaction_flag(v[i])
}

proof fn lemma_plain_args_grow(v: Seq<Seq<char>>, args: Seq<Seq<char>>, n: int)
    requires
        0 <= n <= args.len(),
        separator(args) == n + separator(args.skip(n)),
        plain_args(v, args.skip(n)),
    ensures
        plain_args(v, args),
{
    let rest = args.skip(n);
    lemma_separator(args);
    lemma_separator(rest);
    assert forall|i: int| 0 <= i < v.len() implies args.take(separator(args)).contains(
        #[trigger] v[i],
    ) && !is_interaction_flag(v[i]) by {
        let own = rest.take(separator(rest));
        assert(own.contains(v[i]));
        let j = choose|j: int| 0 <= j < own.len() && own[j] == v[i];
        assert(args.take(separator(args))[n + j] == v[i]);
    }
}

/// What goes on to `git commit` is what was there already, then arguments from before the `--`
/// without any flag that steers questions, then everything from the `--` on, word for word.
pub proof fn law_parse_forwards(args: Seq<Seq<char>>, p: CommitArgsView)
    ensures
        parse_from(args, p) matches Ok(q) ==> exists|own: Seq<Seq<char>>|
            plain_args(own, args) && q.git_commit_args == p.git_commit_args + own + args.skip(
                separator(args),
            ),
    decreases args.len(),
{
    if parse_from(args, p) is Ok {
        let q = parse_from(args, p)->Ok_0;
        lemma_separator(args);
        if args.len() == 0 || args[0] == "--"@ {
            let own = Seq::<Seq<char>>::empty();
            assert(args.skip(0) =~= args);
            assert(q.git_commit_args =~= p.git_commit_args + own + args.skip(separator(args)));
            assert(plain_args(own, args));
        } else {
            let arg = args[0];
            let rest = args.drop_first();
            reveal_strlit("--on");
            reveal_strlit("--fixup=");
            reveal_strlit("-");
            reveal_strlit("--");
            let kept = !is_interaction_flag(arg) && arg != "--interactive"@ && arg != "--force"@
                && arg != "--autostash"@ && arg != "--no-autostash"@ && arg != "--fixup"@
                && !"--fixup="@.is_prefix_of(arg) && arg != "--on"@ && !"--on="@.is_prefix_of(arg);
            let two = !is_interaction_flag(arg) && arg != "--interactive"@ && arg != "--force"@
                && arg != "--autostash"@ && arg != "--no-autostash"@ && (arg == "--fixup"@ || (arg
                == "--on"@ && args.len() > 1));
            let n: int = if two {
                2
            } else {
                1
            };
            let next = if is_interaction_flag(arg) {
                p
            } else if arg == "--interactive"@ {
                CommitArgsView { interactive: true, ..p }
            } else if arg == "--force"@ {
                CommitArgsView { force: true, ..p }
            } else if arg == "--autostash"@ {
                CommitArgsView { autostash: Some(true), ..p }
            } else if arg == "--no-autostash"@ {
                CommitArgsView { autostash: Some(false), ..p }
            } else if arg == "--fixup"@ {
                CommitArgsView { fixup_target: Some(args[1]), ..p }
            } else if "--fixup="@.is_prefix_of(arg) {
                CommitArgsView { fixup_target: Some(value_of(arg, "--fixup="@)), ..p }
            } else if arg == "--on"@ {
                CommitArgsView {
                    on_target: Some(
                        if args.len() == 1 {
                            None
                        } else {
                            Some(args[1])
                        },
                    ),
                    ..p
                }
            } else if "--on="@.is_prefix_of(arg) {
                let value = value_of(arg, "--on="@);
                CommitArgsView {
                    on_target: Some(
                        if value.len() == 0 {
                            None
                        } else {
                            Some(value)
                        },
                    ),
                    ..p
                }
            } else {
                CommitArgsView { git_commit_args: p.git_commit_args.push(arg), ..p }
            };
            let tail = args.skip(n);
            assert(rest =~= args.skip(1));
            if two {
                assert("-"@.is_prefix_of("--"@));
                assert(rest[0] == args[1]);
                assert(rest.drop_first() =~= tail);
            }
            assert(parse_from(tail, next) == parse_from(args, p));
            law_parse_forwards(tail, next);
            assert(separator(args) == n + separator(tail));
            assert(tail.skip(separator(tail)) =~= args.skip(separator(args)));
            let own = choose|own: Seq<Seq<char>>|
                plain_args(own, tail) && q.git_commit_args == next.git_commit_args + own
                    + tail.skip(separator(tail));
            lemma_plain_args_grow(own, args, n);
            if kept {
                let whole = seq![arg] + own;
                assert forall|i: int| 0 <= i < whole.len() implies args.take(
                    separator(args),
                ).contains(#[trigger] whole[i]) && !is_interaction_flag(whole[i]) by {
                    if i > 0 {
                        assert(whole[i] == own[i - 1]);
                    } else {
                        assert(args.take(separator(args))[0] == arg);
                    }
                }
                assert(plain_args(whole, args));
                assert(q.git_commit_args =~= p.git_commit_args + whole + args.skip(
                    separator(args),
                ));
            }
        }
    }
}

/// Puts an argument that Kindra adds before the `--`, or at the end.
pub fn insert_generated_commit_arg(args: &mut Vec<String>, value: String)
    ensures
        strs(final(args)@) == strs(old(args)@).insert(separator(strs(old(args)@)), value@),
{
    let at = find_separator(args);
    let ghost before = args@;
    args.insert(at, value);
    assert(strs(args@) =~= strs(before).insert(at as int, value@));
}

/// An option of `git commit` that takes its value from the next argument.
pub open spec fn takes_value(arg: Seq<char>) -> bool {
    ||| arg == "-m"@
    ||| arg == "-C"@
    ||| arg == "-c"@
    ||| arg == "-F"@
    ||| arg == "--message"@
    ||| arg == "--reuse-message"@
    ||| arg == "--reedit-message"@
    ||| arg == "--cleanup"@
    ||| arg == "-S"@
    ||| arg == "--gpg-sign"@
    ||| arg == "--trailer"@
    ||| arg == "--date"@
    ||| arg == "--author"@
    ||| arg == "--pathspec-from-file"@
    ||| arg == "--inter-hunk-context"@
    ||| arg == "-U"@
    ||| arg == "--unified"@
}

pub fn option_takes_value(arg: &str) -> (r: bool)
    ensures
        r == takes_value(arg@),
{
    same(arg, "-m") || same(arg, "-C") || same(arg, "-c") || same(arg, "-F") || same(
        arg,
        "--message",
    ) || same(arg, "--reuse-message") || same(arg, "--reedit-message") || same(arg, "--cleanup")
        || same(arg, "-S") || same(arg, "--gpg-sign") || same(arg, "--trailer") || same(
        arg,
        "--date",
    ) || same(arg, "--author") || same(arg, "--pathspec-from-file") || same(
        arg,
        "--inter-hunk-context",
    ) || same(arg, "-U") || same(arg, "--unified")
}

/// An argument that is neither an option nor the value of one.
pub open spec fn has_loose_arg(args: Seq<Seq<char>>) -> bool
    decreases args.len(),
{
    if args.len() == 0 {
        false
    } else if takes_value(args[0]) {
        args.len() > 1 && has_loose_arg(args.skip(2))
    } else {
        !begins_option(args[0]) || has_loose_arg(args.drop_first())
    }
}

/// The arguments name files: something follows the `--`, or, without one, some argument is neither
/// an option nor the value of one.
pub open spec fn forwards_pathspec(args: Seq<Seq<char>>) -> bool {
    if separator(args) < args.len() {
        separator(args) + 1 < args.len()
    } else {
        has_loose_arg(args)
    }
}

pub fn has_forwarded_pathspec(args: &Vec<String>) -> (r: bool)
    ensures
        r == forwards_pathspec(strs(args@)),
{
    let ghost all = strs(args@);
    let n: usize = args.len();
    let at = find_separator(args);
    if at < n {
        return at + 1 < n;
    }
    let mut i: usize = 0;
    assert(all.skip(0) =~= all);
    while i < n
        invariant
            i <= n == args@.len(),
            all == strs(args@),
            forwards_pathspec(all) == has_loose_arg(all),
            has_loose_arg(all) == has_loose_arg(all.skip(i as int)),
        decreases n - i,
    {
        let ghost rest = all.skip(i as int);
        let arg = args[i].as_str();
        assert(rest[0] == arg@);
        assert(rest.drop_first() =~= all.skip(i + 1));
        if option_takes_value(arg) {
            if i + 1 >= n {
                return false;
            }
            assert(rest.skip(2) =~= all.skip(i + 2));
            i += 2;
            continue;
        }
        if !starts_with(arg, "-") {
            return true;
        }
        i += 1;
    }
    false
}

/// The content of the commit comes from the index alone: no option that stages by itself and no
/// files are given.
pub open spec fn needs_staged_changes(args: Seq<Seq<char>>) -> bool {
    &&& !args.contains("-a"@)
    &&& !args.contains("--all"@)
    &&& !args.contains("-p"@)
    &&& !args.contains("--patch"@)
    &&& !forwards_pathspec(args)
}

pub fn requires_staged_changes(args: &Vec<String>) -> (r: bool)
    ensures
        r == needs_staged_changes(strs(args@)),
{
    !crate::text::has_text(args, "-a") && !crate::text::has_text(args, "--all")
        && !crate::text::has_text(args, "-p") && !crate::text::has_text(args, "--patch")
        && !has_forwarded_pathspec(args)
}

} // verus!
