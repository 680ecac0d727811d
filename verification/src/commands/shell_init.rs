//! `kin shell-init`: the snippet that ties the program to a shell.

use crate::text::{cat4, trim, trim_of};
use vstd::prelude::*;

verus! {

/// The options of `kin shell-init`.
#[derive(Debug, Clone, Copy)]
pub struct ShellInitArgs {
    pub shell: Shell,
    pub no_completions: bool,
}

#[derive(Debug, Clone, Copy, PartialEq, Eq, Structural)]
pub enum Shell {
    Bash,
    Zsh,
    Fish,
}

impl Shell {
    pub open spec fn name(self) -> Seq<char> {
        match self {
            Shell::Bash => "bash"@,
            Shell::Zsh => "zsh"@,
            Shell::Fish => "fish"@,
        }
    }

    pub fn as_str(self) -> (r: &'static str)
        ensures
            r@ == self.name(),
    {
        match self {
            Shell::Bash => "bash",
            Shell::Zsh => "zsh",
            Shell::Fish => "fish",
        }
    }
}

/// The function for shells with the syntax of POSIX.
pub open spec fn posix_script() -> Seq<char> {
    "# kin shell integration.\n#   bash/zsh: eval \"$(kin shell-init zsh)\"\nkin() {\n  if [ \"$1\" = \"wt\" ] && [ \"$2\" = \"cd\" ]; then\n    shift 2\n    local __kin_target\n    __kin_target=\"$(command kin wt cd \"$@\")\" || return $?\n    if [ -n \"$__kin_target\" ]; then\n      cd \"$__kin_target\" || return $?\n    fi\n  else\n    command kin \"$@\"\n  fi\n}\n"@
}

/// The function for fish.
pub open spec fn fish_script() -> Seq<char> {
    "# kin shell integration.\n#   fish: kin shell-init fish | source\nfunction kin\n    if test (count $argv) -ge 2; and test \"$argv[1]\" = wt; and test \"$argv[2]\" = cd\n        set -l __kin_target (command kin wt cd $argv[3..-1])\n        or return $status\n        if test -n \"$__kin_target\"\n            cd $__kin_target\n        end\n    else\n        command kin $argv\n    end\nend\n"@
}

/// A shell function around the program: `kin wt cd` changes the directory of the shell, and
/// everything else goes to the program as it is.
pub fn script(shell: Shell) -> (r: String)
    ensures
        r@ == match shell {
            Shell::Fish => fish_script(),
            _ => posix_script(),
        },
{
    match shell {
        Shell::Bash | Shell::Zsh =>
            "# kin shell integration.\n#   bash/zsh: eval \"$(kin shell-init zsh)\"\nkin() {\n  if [ \"$1\" = \"wt\" ] && [ \"$2\" = \"cd\" ]; then\n    shift 2\n    local __kin_target\n    __kin_target=\"$(command kin wt cd \"$@\")\" || return $?\n    if [ -n \"$__kin_target\" ]; then\n      cd \"$__kin_target\" || return $?\n    fi\n  else\n    command kin \"$@\"\n  fi\n}\n".to_owned(),
        Shell::Fish =>
            "# kin shell integration.\n#   fish: kin shell-init fish | source\nfunction kin\n    if test (count $argv) -ge 2; and test \"$argv[1]\" = wt; and test \"$argv[2]\" = cd\n        set -l __kin_target (command kin wt cd $argv[3..-1])\n        or return $status\n        if test -n \"$__kin_target\"\n            cd $__kin_target\n        end\n    else\n        command kin $argv\n    end\nend\n".to_owned(),
    }
}

/// What is printed: the completions, where they are wanted, and the function.
pub fn shell_init(args: &ShellInitArgs, completions: &str) -> (r: String)
    ensures
        ({
            let function = match args.shell {
                Shell::Fish => fish_script(),
                _ => posix_script(),
            };
            r@ == if args.no_completions {
                function
            } else {
                completions@ + "\n"@ + function
            }
        }),
{
    let function = script(args.shell);
    if args.no_completions {
        function
    } else {
        crate::text::cat3(completions, "\n", function.as_str())
    }
}

/// What is said where the completions cannot be made.
pub fn completions_failed(shell: Shell, stderr: &str) -> (r: String)
    ensures
        r@ == "failed to generate "@ + shell.name() + " completions: "@ + trim_of(stderr@),
{
    cat4("failed to generate ", shell.as_str(), " completions: ", trim(stderr).as_str())
}

} // verus!
