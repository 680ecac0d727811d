//! The commands that are run in worktrees.

use crate::commands::run::{variables, Variable};
use crate::text::{cat2, cat3, cat5, copy_texts, dec, decimal, list, strs, trim, trim_of};
use crate::worktree::config::{HookListConfig, WorktreeConfig};
use crate::worktree::WorktreeRole;
use vstd::prelude::*;

verus! {

#[derive(Debug, Clone, Copy, PartialEq, Eq, Structural)]
pub enum HookEvent {
    Create,
    Checkout,
    Remove,
}

impl HookEvent {
    pub open spec fn text(self) -> Seq<char> {
        match self {
            HookEvent::Create => "on_create"@,
            HookEvent::Checkout => "on_checkout"@,
            HookEvent::Remove => "on_remove"@,
        }
    }

    pub fn as_str(self) -> (r: &'static str)
        ensures
            r@ == self.text(),
    {
        match self {
            HookEvent::Create => "on_create",
            HookEvent::Checkout => "on_checkout",
            HookEvent::Remove => "on_remove",
        }
    }
}

/// The commands of a list for an event.
pub open spec fn hooks_in(list: HookListConfig, event: HookEvent) -> Seq<String> {
    match event {
        HookEvent::Create => list.on_create@,
        HookEvent::Checkout => list.on_checkout@,
        HookEvent::Remove => list.on_remove@,
    }
}

fn hooks_from_list(list: &HookListConfig, event: HookEvent) -> (r: Vec<String>)
    ensures
        r@ == hooks_in(*list, event),
{
    match event {
        HookEvent::Create => copy_texts(&list.on_create),
        HookEvent::Checkout => copy_texts(&list.on_checkout),
        HookEvent::Remove => copy_texts(&list.on_remove),
    }
}

/// The commands of a role for an event.
pub open spec fn role_hooks(config: WorktreeConfig, role: WorktreeRole, event: HookEvent) -> Seq<
    String,
> {
    match role {
        WorktreeRole::Main => hooks_in(config.main.hooks, event),
        WorktreeRole::Review => hooks_in(config.review.hooks, event),
        WorktreeRole::Temp => hooks_in(config.temp.hooks, event),
    }
}

/// The commands for an event in a worktree: those for all worktrees, then those of its role.
pub fn hooks_for_role(config: &WorktreeConfig, role: WorktreeRole, event: HookEvent) -> (r: Vec<
    String,
>)
    ensures
        r@ == hooks_in(config.hooks, event) + role_hooks(*config, role, event),
{
    let mut all = hooks_from_list(&config.hooks, event);
    let mut own = match role {
        WorktreeRole::Main => hooks_from_list(&config.main.hooks, event),
        WorktreeRole::Review => hooks_from_list(&config.review.hooks, event),
        WorktreeRole::Temp => hooks_from_list(&config.temp.hooks, event),
    };
    all.append(&mut own);
    all
}

/// The commands for an event in a worktree that plays no role: those for all worktrees.
pub fn global_hooks(config: &WorktreeConfig, event: HookEvent) -> (r: Vec<String>)
    ensures
        r@ == hooks_in(config.hooks, event),
{
    hooks_from_list(&config.hooks, event)
}

/// What a command printed, or a word for nothing.
pub open spec fn shown_output(text: Seq<char>) -> Seq<char> {
    if trim_of(text).len() == 0 {
        "<empty>"@
    } else {
        trim_of(text)
    }
}

fn show_output(text: &str) -> (r: String)
    ensures
        r@ == shown_output(text@),
{
    let t = trim(text);
    if t.as_str().is_empty() {
        "<empty>".to_owned()
    } else {
        t
    }
}

/// An exit code, or words for none.
pub open spec fn shown_code(code: Option<i32>) -> Seq<char> {
    match code {
        Some(n) => if n < 0 {
            "-"@ + dec((-(n as int)) as nat)
        } else {
            dec(n as nat)
        },
        None => "<no exit code>"@,
    }
}

/// The text of an exit code.
pub fn show_code(code: Option<i32>) -> (r: String)
    ensures
        r@ == shown_code(code),
{
    match code {
        Some(n) => {
            if n < 0 {
                let wide: i64 = n as i64;
                cat2("-", decimal((-wide) as u64).as_str())
            } else {
                decimal(n as u64)
            }
        },
        None => "<no exit code>".to_owned(),
    }
}

/// What is told of a command that failed.
pub open spec fn failure_text(
    event: HookEvent,
    role: Seq<char>,
    path: Seq<char>,
    hook: Seq<char>,
    code: Option<i32>,
    stdout: Seq<char>,
    stderr: Seq<char>,
) -> Seq<char> {
    ("Worktree "@ + event.text() + " hook failed for role '"@ + role + "' at '"@) + (path + "': "@
        + hook) + ("\nexit code: "@ + shown_code(code)) + ("\nstdout: "@ + shown_output(stdout)) + (
    "\nstderr: "@ + shown_output(stderr))
}

/// What is told of a command that failed. `role` is the name of the worktree's role, or what stands
/// for it.
pub fn hook_failure(
    event: HookEvent,
    role: &str,
    worktree_path: &str,
    hook: &str,
    exit_code: Option<i32>,
    stdout: &str,
    stderr: &str,
) -> (r: String)
    ensures
        r@ == failure_text(event, role@, worktree_path@, hook@, exit_code, stdout@, stderr@),
{
    let a = cat5("Worktree ", event.as_str(), " hook failed for role '", role, "' at '");
    let b = cat3(worktree_path, "': ", hook);
    let c = cat2("\nexit code: ", show_code(exit_code).as_str());
    let d = cat2("\nstdout: ", show_output(stdout).as_str());
    let e = cat2("\nstderr: ", show_output(stderr).as_str());
    cat5(a.as_str(), b.as_str(), c.as_str(), d.as_str(), e.as_str())
}

/// What a command is told of the worktree that it runs in.
pub open spec fn worktree_env(role: Seq<char>, branch: Seq<char>, path: Seq<char>) -> Seq<
    (Seq<char>, Seq<char>),
> {
    seq![
        ("KINDRA_WORKTREE_ROLE"@, role),
        ("KINDRA_WORKTREE_BRANCH"@, branch),
        ("KINDRA_WORKTREE_PATH"@, path),
    ]
}

/// The variables that describe the worktree to a command.
pub fn hook_env(role: &str, branch: &str, path: &str) -> (r: Vec<Variable>)
    ensures
        variables(r@) == worktree_env(role@, branch@, path@),
{
    let mut out: Vec<Variable> = Vec::new();
    out.push(("KINDRA_WORKTREE_ROLE".to_owned(), role.to_owned()));
    out.push(("KINDRA_WORKTREE_BRANCH".to_owned(), branch.to_owned()));
    out.push(("KINDRA_WORKTREE_PATH".to_owned(), path.to_owned()));
    assert(variables(out@) =~= worktree_env(role@, branch@, path@));
    out
}

/// A command that is run: a program with its arguments, in a directory, with variables.
#[derive(Debug)]
pub struct HookCall {
    pub program: String,
    pub args: Vec<String>,
    pub directory: String,
    pub env: Vec<Variable>,
}

impl HookCall {
    /// The call hands the script to the shell, or to the command interpreter of Windows.
    pub open spec fn runs(self, script: Seq<char>, windows: bool) -> bool {
        if windows {
            self.program@ == "cmd"@ && strs(self.args@) == seq!["/C"@, script]
        } else {
            self.program@ == "sh"@ && strs(self.args@) == seq!["-c"@, script]
        }
    }
}

/// How a script is run in a directory.
pub fn shell_call(script: &str, directory: &str, env: Vec<Variable>, windows: bool) -> (r: HookCall)
    ensures
        r.runs(script@, windows),
        r.directory@ == directory@,
        r.env == env,
{
    let flag = if windows {
        "/C"
    } else {
        "-c"
    };
    let program = if windows {
        "cmd"
    } else {
        "sh"
    };
    let args = list(&[flag, script]);
    assert(strs(args@) =~= seq![flag@, script@]);
    HookCall { program: program.to_owned(), args, directory: directory.to_owned(), env }
}

/// What a command left behind.
#[derive(Debug)]
pub struct HookOutput {
    /// The exit code; none where a signal ended the command.
    pub code: Option<i32>,
    pub stdout: String,
    pub stderr: String,
}

impl HookOutput {
    /// Success is an exit code of zero.
    pub open spec fn succeeded(self) -> bool {
        self.code == Some(0i32)
    }

    fn is_success(&self) -> (r: bool)
        ensures
            r == self.succeeded(),
    {
        match self.code {
            Some(code) => code == 0,
            None => false,
        }
    }
}

/// What comes next when hooks are run.
#[derive(Debug)]
pub enum HookStep {
    /// Run this.
    Run(HookCall),
    /// All have run.
    Done,
    /// One has failed, and this is told.
    Failed(String),
}

/// The first output of a failure, or the number of outputs.
pub open spec fn first_failure(outputs: Seq<HookOutput>) -> int
    decreases outputs.len(),
{
    if outputs.len() == 0 || !outputs[0].succeeded() {
        0
    } else {
        1 + first_failure(outputs.drop_first())
    }
}

/// What comes next after the first hooks have run and left these outputs. Each hook runs in the
/// worktree and is told its role, branch and path; the first failure is the end.
pub open spec fn is_next_hook(
    step: HookStep,
    hooks: Seq<String>,
    event: HookEvent,
    role: Seq<char>,
    path: Seq<char>,
    branch: Seq<char>,
    windows: bool,
    outputs: Seq<HookOutput>,
) -> bool {
    let at = first_failure(outputs);
    if at < outputs.len() {
        step matches HookStep::Failed(text) && text@ == failure_text(
            event,
            role,
            path,
            hooks[at]@,
            outputs[at].code,
            outputs[at].stdout@,
            outputs[at].stderr@,
        )
    } else if outputs.len() < hooks.len() {
        step matches HookStep::Run(call) && call.runs(hooks[outputs.len() as int]@, windows)
            && call.directory@ == path && variables(call.env@) == worktree_env(role, branch, path)
    } else {
        step is Done
    }
}

fn next_hook(
    hooks: &Vec<String>,
    event: HookEvent,
    role: &str,
    path: &str,
    branch: &str,
    windows: bool,
    outputs: &Vec<HookOutput>,
) -> (r: HookStep)
    requires
        outputs@.len() <= hooks@.len(),
    ensures
        is_next_hook(r, hooks@, event, role@, path@, branch@, windows, outputs@),
{
    let mut i: usize = 0;
    assert(outputs@.skip(0) =~= outputs@);
    while i < outputs.len()
        invariant
            i <= outputs@.len() <= hooks@.len(),
            first_failure(outputs@) == i + first_failure(outputs@.skip(i as int)),
        decreases outputs@.len() - i,
    {
        assert(outputs@.skip(i as int)[0] == outputs@[i as int]);
        assert(outputs@.skip(i as int).drop_first() =~= outputs@.skip(i + 1));
        let output = &outputs[i];
        if !output.is_success() {
            return HookStep::Failed(
                hook_failure(
                    event,
                    role,
                    path,
                    hooks[i].as_str(),
                    output.code,
                    output.stdout.as_str(),
                    output.stderr.as_str(),
                ),
            );
        }
        i += 1;
    }
    assert(outputs@.skip(i as int).len() == 0);
    if i < hooks.len() {
        HookStep::Run(shell_call(hooks[i].as_str(), path, hook_env(role, branch, path), windows))
    } else {
        HookStep::Done
    }
}

/// Runs the hooks for an event in a worktree that plays a role, one step at a time: `outputs` are
/// those of the hooks that have run so far.
pub fn run_hooks(
    config: &WorktreeConfig,
    role: WorktreeRole,
    event: HookEvent,
    worktree_path: &str,
    branch: &str,
    windows: bool,
    outputs: &Vec<HookOutput>,
) -> (r: HookStep)
    requires
        outputs@.len() <= (hooks_in(config.hooks, event) + role_hooks(*config, role, event)).len(),
    ensures
        is_next_hook(
            r,
            hooks_in(config.hooks, event) + role_hooks(*config, role, event),
            event,
            role.text(),
            worktree_path@,
            branch@,
            windows,
            outputs@,
        ),
{
    let hooks = hooks_for_role(config, role, event);
    next_hook(&hooks, event, role.as_str(), worktree_path, branch, windows, outputs)
}

/// Runs the hooks for an event in a worktree that plays no role, one step at a time; `role_label`
/// stands for the role.
pub fn run_global_hooks(
    config: &WorktreeConfig,
    role_label: &str,
    event: HookEvent,
    worktree_path: &str,
    branch: &str,
    windows: bool,
    outputs: &Vec<HookOutput>,
) -> (r: HookStep)
    requires
        outputs@.len() <= hooks_in(config.hooks, event).len(),
    ensures
        is_next_hook(
            r,
            hooks_in(config.hooks, event),
            event,
            role_label@,
            worktree_path@,
            branch@,
            windows,
            outputs@,
        ),
{
    let hooks = global_hooks(config, event);
    next_hook(&hooks, event, role_label, worktree_path, branch, windows, outputs)
}

proof fn lemma_first_failure(outputs: Seq<HookOutput>)
    ensures
        0 <= first_failure(outputs) <= outputs.len(),
        forall|i: int| 0 <= i < first_failure(outputs) ==> (#[trigger] outputs[i]).succeeded(),
        first_failure(outputs) < outputs.len() ==> !outputs[first_failure(outputs)].succeeded(),
    decreases outputs.len(),
{
    if outputs.len() > 0 && outputs[0].succeeded() {
        let rest = outputs.drop_first();
        lemma_first_failure(rest);
        assert forall|i: int| 0 <= i < first_failure(outputs) implies (
        #[trigger] outputs[i]).succeeded() by {
            if i > 0 {
                assert(outputs[i] == rest[i - 1]);
            }
        }
        if first_failure(rest) < rest.len() {
            assert(outputs[first_failure(outputs)] == rest[first_failure(rest)]);
        }
    }
}

/// Hooks run one by one in their order, and the first that fails ends them: another hook runs exactly
/// where all before it succeeded, all is well exactly where every hook has run and succeeded, and
/// there is a failure exactly where a hook failed; it is told of the first one.
pub proof fn law_hooks_stop_at_the_first_failure(
    step: HookStep,
    hooks: Seq<String>,
    event: HookEvent,
    role: Seq<char>,
    path: Seq<char>,
    branch: Seq<char>,
    windows: bool,
    outputs: Seq<HookOutput>,
)
    requires
        outputs.len() <= hooks.len(),
        is_next_hook(step, hooks, event, role, path, branch, windows, outputs),
    ensures
        step is Run <==> outputs.len() < hooks.len() && forall|i: int|
            0 <= i < outputs.len() ==> (#[trigger] outputs[i]).succeeded(),
        step is Done <==> outputs.len() == hooks.len() && forall|i: int|
            0 <= i < outputs.len() ==> (#[trigger] outputs[i]).succeeded(),
        step matches HookStep::Failed(text) ==> exists|i: int|
            0 <= i < outputs.len() && !(#[trigger] outputs[i]).succeeded() && (forall|j: int|
                0 <= j < i ==> (#[trigger] outputs[j]).succeeded()) && text@ == failure_text(
                event,
                role,
                path,
                hooks[i]@,
                outputs[i].code,
                outputs[i].stdout@,
                outputs[i].stderr@,
            ),
{
    lemma_first_failure(outputs);
    let at = first_failure(outputs);
    if at < outputs.len() {
        assert(!outputs[at].succeeded());
    }
}

} // verus!
