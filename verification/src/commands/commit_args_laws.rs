//! What each argument of `kin commit` adds to those behind it.

use crate::commands::commit_args::{
    commit_args, forwards_pathspec, has_loose_arg, lemma_separator, needs_staged_changes, no_args,
    parse_from, takes_value, CommitArgsError, CommitArgsView,
};
use vstd::prelude::*;

verus! {

/// A flag in front of other arguments changes what they ask for in nothing but what the flag says. The
/// flags that steer questions change nothing.
pub proof fn law_flags_add_only_themselves(rest: Seq<Seq<char>>, p: CommitArgsView)
    ensures
        parse_from(seq!["--yes"@] + rest, p) == parse_from(rest, p),
        parse_from(seq!["--no-interactive"@] + rest, p) == parse_from(rest, p),
        parse_from(seq!["--interactive"@] + rest, p) == parse_from(
            rest,
            (CommitArgsView { interactive: true, ..p }),
        ),
        parse_from(seq!["--force"@] + rest, p) == parse_from(
            rest,
            (CommitArgsView { force: true, ..p }),
        ),
        parse_from(seq!["--autostash"@] + rest, p) == parse_from(
            rest,
            (CommitArgsView { autostash: Some(true), ..p }),
        ),
        parse_from(seq!["--no-autostash"@] + rest, p) == parse_from(
            rest,
            (CommitArgsView { autostash: Some(false), ..p }),
        ),
        parse_from(Seq::empty(), p) == Ok::<CommitArgsView, CommitArgsError>(p),
{
    reveal_strlit("--");
    reveal_strlit("--yes");
    reveal_strlit("--no-interactive");
    reveal_strlit("--interactive");
    reveal_strlit("--force");
    reveal_strlit("--autostash");
    reveal_strlit("--no-autostash");
    assert("--"@.len() == 2 && "--yes"@.len() == 5 && "--no-interactive"@.len() == 16
        && "--interactive"@.len() == 13 && "--force"@.len() == 7 && "--autostash"@.len() == 11
        && "--no-autostash"@.len() == 14);
    assert((seq!["--yes"@] + rest).drop_first() =~= rest);
    assert((seq!["--no-interactive"@] + rest).drop_first() =~= rest);
    assert((seq!["--interactive"@] + rest).drop_first() =~= rest);
    assert((seq!["--force"@] + rest).drop_first() =~= rest);
    assert((seq!["--autostash"@] + rest).drop_first() =~= rest);
    assert((seq!["--no-autostash"@] + rest).drop_first() =~= rest);
}

/// The commit to fix up follows `--fixup`, or stands behind `--fixup=`; it is no option and not empty,
/// and there is only one.
pub proof fn law_fixup_names_its_commit(
    commit: Seq<char>,
    rest: Seq<Seq<char>>,
    p: CommitArgsView,
)
    ensures
        ({
            let given = CommitArgsView { fixup_target: Some(commit), ..p };
            let apart = parse_from(seq!["--fixup"@, commit] + rest, p);
            let joined = parse_from(seq!["--fixup="@ + commit] + rest, p);
            let twice = Err::<CommitArgsView, _>(CommitArgsError::FixupTwice);
            &&& p.fixup_target is None && commit.len() > 0 && !"-"@.is_prefix_of(commit) ==> apart
                == parse_from(rest, given)
            &&& p.fixup_target is None && (commit.len() == 0 || "-"@.is_prefix_of(commit)) ==> apart
                == Err::<CommitArgsView, _>(CommitArgsError::FixupWithoutCommit)
            &&& p.fixup_target is None && commit.len() > 0 ==> joined == parse_from(rest, given)
            &&& p.fixup_target is None && commit.len() == 0 ==> joined == Err::<CommitArgsView, _>(
                CommitArgsError::FixupWithEmptyCommit,
            )
            &&& p.fixup_target is Some ==> apart == twice && joined == twice
            &&& p.fixup_target is None ==> parse_from(seq!["--fixup"@], p) == Err::<
                CommitArgsView,
                _,
            >(CommitArgsError::FixupWithoutCommit)
        }),
{
    lemma_literals();
    let apart = seq!["--fixup"@, commit] + rest;
    let joined = seq!["--fixup="@ + commit] + rest;
    assert(apart[0] == "--fixup"@ && apart[1] == commit);
    assert(apart.skip(2) =~= rest);
    let arg = "--fixup="@ + commit;
    assert(joined[0] == arg);
    assert(joined.drop_first() =~= rest);
    assert("--fixup="@.is_prefix_of(arg));
    assert(arg.skip("--fixup="@.len() as int) =~= commit);
    assert(arg[2] == 'f' && arg[3] == 'i' && arg.len() >= 8);
}

/// The branch to commit on follows `--on`, or stands behind `--on=`; without one the user is asked. It
/// is no option, and there is only one.
pub proof fn law_on_names_its_branch(branch: Seq<char>, rest: Seq<Seq<char>>, p: CommitArgsView)
    ensures
        ({
            let given = CommitArgsView { on_target: Some(Some(branch)), ..p };
            let ask = CommitArgsView { on_target: Some(None), ..p };
            let apart = parse_from(seq!["--on"@, branch] + rest, p);
            let joined = parse_from(seq!["--on="@ + branch] + rest, p);
            let twice = Err::<CommitArgsView, _>(CommitArgsError::OnTwice);
            &&& p.on_target is None && !"-"@.is_prefix_of(branch) ==> apart == parse_from(
                rest,
                given,
            )
            &&& p.on_target is None && "-"@.is_prefix_of(branch) ==> apart == Err::<
                CommitArgsView,
                _,
            >(CommitArgsError::OnBeforeOption)
            &&& p.on_target is None && branch.len() > 0 ==> joined == parse_from(rest, given)
            &&& p.on_target is None && branch.len() == 0 ==> joined == parse_from(rest, ask)
            &&& p.on_target is Some ==> apart == twice && joined == twice
            &&& p.on_target is None ==> parse_from(seq!["--on"@], p) == Ok::<
                CommitArgsView,
                CommitArgsError,
            >(ask)
        }),
{
    lemma_literals();
    let apart = seq!["--on"@, branch] + rest;
    let joined = seq!["--on="@ + branch] + rest;
    assert(apart[0] == "--on"@ && apart[1] == branch);
    assert(apart.skip(2) =~= rest);
    let arg = "--on="@ + branch;
    assert(joined[0] == arg);
    assert(joined.drop_first() =~= rest);
    assert("--on="@.is_prefix_of(arg));
    assert(!"--fixup="@.is_prefix_of(arg)) by {
        assert(arg[2] == 'o');
        assert("--fixup="@[2] == 'f');
    }
    assert(arg.skip("--on="@.len() as int) =~= branch);
    assert(arg[2] == 'o' && arg[3] == 'n' && arg[4] == '=');
    let alone = seq!["--on"@];
    assert(alone.drop_first() =~= Seq::<Seq<char>>::empty());
    let ask = CommitArgsView { on_target: Some(None), ..p };
    law_flags_add_only_themselves(rest, ask);
}

proof fn lemma_literals()
    ensures
        "--"@.len() == 2,
        "--yes"@.len() == 5 && "--yes"@[2] == 'y',
        "--no-interactive"@.len() == 16 && "--no-interactive"@[2] == 'n',
        "--interactive"@.len() == 13 && "--interactive"@[2] == 'i',
        "--force"@.len() == 7 && "--force"@[2] == 'f' && "--force"@[3] == 'o',
        "--autostash"@.len() == 11 && "--autostash"@[2] == 'a',
        "--no-autostash"@.len() == 14 && "--no-autostash"@[2] == 'n',
        "--fixup"@.len() == 7 && "--fixup"@[2] == 'f' && "--fixup"@[3] == 'i',
        "--fixup="@.len() == 8 && "--fixup="@[2] == 'f' && "--fixup="@[3] == 'i',
        "--on"@.len() == 4 && "--on"@[2] == 'o',
        "--on="@.len() == 5 && "--on="@[2] == 'o' && "--on="@[3] == 'n' && "--on="@[4] == '=',
{
    reveal_strlit("--");
    reveal_strlit("--yes");
    reveal_strlit("--no-interactive");
    reveal_strlit("--interactive");
    reveal_strlit("--force");
    reveal_strlit("--autostash");
    reveal_strlit("--no-autostash");
    reveal_strlit("--fixup");
    reveal_strlit("--fixup=");
    reveal_strlit("--on");
    reveal_strlit("--on=");
}

/// The argument is one that `kin commit` reads itself.
pub open spec fn is_own(arg: Seq<char>) -> bool {
    ||| arg == "--"@
    ||| arg == "--yes"@
    ||| arg == "--no-interactive"@
    ||| arg == "--interactive"@
    ||| arg == "--force"@
    ||| arg == "--autostash"@
    ||| arg == "--no-autostash"@
    ||| arg == "--fixup"@
    ||| "--fixup="@.is_prefix_of(arg)
    ||| arg == "--on"@
    ||| "--on="@.is_prefix_of(arg)
}

/// Any other argument goes on to git, behind those before it, and so does everything from `--` on.
pub proof fn law_other_arguments_go_on_to_git(
    arg: Seq<char>,
    rest: Seq<Seq<char>>,
    p: CommitArgsView,
)
    ensures
        !is_own(arg) ==> parse_from(seq![arg] + rest, p) == parse_from(
            rest,
            (CommitArgsView { git_commit_args: p.git_commit_args.push(arg), ..p }),
        ),
        parse_from(seq!["--"@] + rest, p) == Ok::<CommitArgsView, CommitArgsError>(
            (CommitArgsView { git_commit_args: p.git_commit_args + seq!["--"@] + rest, ..p }),
        ),
{
    assert((seq![arg] + rest).drop_first() =~= rest);
    assert(p.git_commit_args + (seq!["--"@] + rest) =~= p.git_commit_args + seq!["--"@] + rest);
}

/// At most one of a choice by the user, a branch and a commit to fix up names the target; nothing is
/// asked for where there are no arguments.
pub proof fn law_one_way_to_name_the_target(args: Seq<Seq<char>>, p: CommitArgsView)
    requires
        parse_from(args, no_args()) == Ok::<_, CommitArgsError>(p),
    ensures
        commit_args(args) is Ok <==> !(p.interactive && p.on_target is Some) && !(p.interactive
            && p.fixup_target is Some) && !(p.on_target is Some && p.fixup_target is Some),
        commit_args(args) matches Ok(q) ==> q == p,
        commit_args(args) == Err::<CommitArgsView, _>(CommitArgsError::InteractiveAndOn)
            ==> p.interactive && p.on_target is Some,
        commit_args(args) == Err::<CommitArgsView, _>(CommitArgsError::FixupAndInteractive)
            ==> p.interactive && p.fixup_target is Some,
        commit_args(args) == Err::<CommitArgsView, _>(CommitArgsError::FixupAndOn)
            ==> p.on_target is Some && p.fixup_target is Some,
        no_args().on_target is None && no_args().fixup_target is None && no_args().autostash is None,
        !no_args().interactive && !no_args().force && no_args().git_commit_args.len() == 0,
{
}

/// The options of `git commit` that take their value from the next argument.
pub proof fn law_options_with_a_value(arg: Seq<char>)
    ensures
        takes_value(arg) <==> seq![
            "-m"@,
            "-C"@,
            "-c"@,
            "-F"@,
            "--message"@,
            "--reuse-message"@,
            "--reedit-message"@,
            "--cleanup"@,
            "-S"@,
            "--gpg-sign"@,
            "--trailer"@,
            "--date"@,
            "--author"@,
            "--pathspec-from-file"@,
            "--inter-hunk-context"@,
            "-U"@,
            "--unified"@,
        ].contains(arg),
{
    let all = seq![
        "-m"@,
        "-C"@,
        "-c"@,
        "-F"@,
        "--message"@,
        "--reuse-message"@,
        "--reedit-message"@,
        "--cleanup"@,
        "-S"@,
        "--gpg-sign"@,
        "--trailer"@,
        "--date"@,
        "--author"@,
        "--pathspec-from-file"@,
        "--inter-hunk-context"@,
        "-U"@,
        "--unified"@,
    ];
    assert(all[0] == "-m"@ && all[1] == "-C"@ && all[2] == "-c"@ && all[3] == "-F"@);
    assert(all[4] == "--message"@ && all[5] == "--reuse-message"@ && all[6] == "--reedit-message"@);
    assert(all[7] == "--cleanup"@ && all[8] == "-S"@ && all[9] == "--gpg-sign"@);
    assert(all[10] == "--trailer"@ && all[11] == "--date"@ && all[12] == "--author"@);
    assert(all[13] == "--pathspec-from-file"@ && all[14] == "--inter-hunk-context"@);
    assert(all[15] == "-U"@ && all[16] == "--unified"@);
}

/// The value of an option names no file, an option names none, and any other argument does.
pub proof fn law_loose_arguments_name_files(arg: Seq<char>, value: Seq<char>, rest: Seq<Seq<char>>)
    ensures
        !has_loose_arg(Seq::empty()),
        takes_value(arg) ==> has_loose_arg(seq![arg, value] + rest) == has_loose_arg(rest),
        takes_value(arg) ==> !has_loose_arg(seq![arg]),
        !takes_value(arg) && "-"@.is_prefix_of(arg) ==> has_loose_arg(seq![arg] + rest)
            == has_loose_arg(rest),
        !takes_value(arg) && !"-"@.is_prefix_of(arg) ==> has_loose_arg(seq![arg] + rest),
{
    assert((seq![arg, value] + rest).skip(2) =~= rest);
    assert((seq![arg] + rest).drop_first() =~= rest);
    assert((seq![arg, value] + rest)[0] == arg);
}

/// A commit takes its content from the index alone exactly where nothing is to be staged by it: neither
/// all files, nor parts of them, nor files that are named, with or without a `--` before them.
pub proof fn law_commit_of_the_index(args: Seq<Seq<char>>)
    ensures
        needs_staged_changes(args) <==> !args.contains("-a"@) && !args.contains("--all"@)
            && !args.contains("-p"@) && !args.contains("--patch"@) && !forwards_pathspec(args),
        args.contains("--"@) ==> (forwards_pathspec(args) <==> args.last() != "--"@ || exists|i: int|
            0 <= i < args.len() - 1 && #[trigger] args[i] == "--"@),
        !args.contains("--"@) ==> forwards_pathspec(args) == has_loose_arg(args),
{
    lemma_separator(args);
    let s = crate::commands::commit_args::separator(args);
    if args.contains("--"@) {
        let k = args.index_of("--"@);
        assert(args[k] == "--"@);
        assert(s <= k);
    }
    if s < args.len() {
        assert(args[s] == "--"@);
        assert(args.contains(args[s]));
        assert(args.last() == args[args.len() - 1]);
    }
}

} // verus!
