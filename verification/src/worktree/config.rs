//! Where worktrees live and what is run in them: the settings, with their defaults.

use crate::text::{
    cat3, copy_texts, has_text, opt_string, same, split_once, split_once_spec, split_once_text_of,
    strip_prefix, strs, trim, trim_of,
};
use crate::worktree::path_resolver::{
    join_path, joined, normalize_path, normalized, path_is_inside, temp_template_root, within,
    TemplateError,
};
use vstd::prelude::*;

verus! {

/// Where worktrees live, seen from the repository, unless the settings say otherwise.
pub const DEFAULT_ROOT: &'static str = ".git/kindra-worktrees";

/// Commands to run when a worktree is made, switched and removed.
#[derive(Debug, Clone, PartialEq, Eq)]
pub struct HookListConfig {
    pub on_create: Vec<String>,
    pub on_checkout: Vec<String>,
    pub on_remove: Vec<String>,
}

/// Nothing is to be run.
pub open spec fn no_hooks(h: HookListConfig) -> bool {
    h.on_create@.len() == 0 && h.on_checkout@.len() == 0 && h.on_remove@.len() == 0
}

impl Default for HookListConfig {
    fn default() -> (r: HookListConfig)
        ensures
            no_hooks(r),
    {
        HookListConfig { on_create: Vec::new(), on_checkout: Vec::new(), on_remove: Vec::new() }
    }
}

#[derive(Debug, Clone, PartialEq, Eq)]
pub struct MainWorktreeConfig {
    pub enabled: bool,
    pub branch: String,
    pub path: String,
    pub allow_branch_switch: bool,
    pub hooks: HookListConfig,
}

#[derive(Debug, Clone, PartialEq, Eq)]
pub struct ReviewWorktreeConfig {
    pub enabled: bool,
    pub path: String,
    pub reuse: bool,
    pub clean_before_switch: bool,
    pub hooks: HookListConfig,
}

#[derive(Debug, Clone, PartialEq, Eq)]
pub struct TempWorktreeConfig {
    pub enabled: bool,
    pub path_template: String,
    pub delete_merged: bool,
    pub hooks: HookListConfig,
}

#[derive(Debug, Clone, PartialEq, Eq)]
pub struct WorktreeConfig {
    pub root: String,
    pub trunk: String,
    pub hooks: HookListConfig,
    pub main: MainWorktreeConfig,
    pub review: ReviewWorktreeConfig,
    pub temp: TempWorktreeConfig,
}

/// The settings of the main worktree as the file gives them.
#[derive(Debug)]
pub struct RawMainWorktreeConfig {
    pub enabled: Option<bool>,
    pub branch: Option<String>,
    pub path: Option<String>,
    pub allow_branch_switch: Option<bool>,
    pub hooks: HookListConfig,
}

/// The settings of the review worktree as the file gives them.
#[derive(Debug)]
pub struct RawReviewWorktreeConfig {
    pub enabled: Option<bool>,
    pub path: Option<String>,
    pub reuse: Option<bool>,
    pub clean_before_switch: Option<bool>,
    pub hooks: HookListConfig,
}

/// The settings of temporary worktrees as the file gives them.
#[derive(Debug)]
pub struct RawTempWorktreeConfig {
    pub enabled: Option<bool>,
    pub path_template: Option<String>,
    pub delete_merged: Option<bool>,
    pub hooks: HookListConfig,
}

/// The settings as the file gives them.
#[derive(Debug)]
pub struct RawWorktreeConfig {
    pub root: Option<String>,
    pub trunk: Option<String>,
    pub upstream_branch: Option<String>,
    pub hooks: HookListConfig,
    pub main: RawMainWorktreeConfig,
    pub review: RawReviewWorktreeConfig,
    pub temp: RawTempWorktreeConfig,
}

impl Default for RawWorktreeConfig {
    fn default() -> (r: RawWorktreeConfig)
        ensures
            r.root is None,
            r.trunk is None,
            r.upstream_branch is None,
            no_hooks(r.hooks),
            no_hooks(r.main.hooks),
            no_hooks(r.review.hooks),
            no_hooks(r.temp.hooks),
            r.main.enabled is None,
            r.main.branch is None,
            r.main.path is None,
            r.main.allow_branch_switch is None,
            r.review.enabled is None,
            r.review.path is None,
            r.review.reuse is None,
            r.review.clean_before_switch is None,
            r.temp.enabled is None,
            r.temp.path_template is None,
            r.temp.delete_merged is None,
    {
        RawWorktreeConfig {
            root: None,
            trunk: None,
            upstream_branch: None,
            hooks: HookListConfig::default(),
            main: RawMainWorktreeConfig {
                enabled: None,
                branch: None,
                path: None,
                allow_branch_switch: None,
                hooks: HookListConfig::default(),
            },
            review: RawReviewWorktreeConfig {
                enabled: None,
                path: None,
                reuse: None,
                clean_before_switch: None,
                hooks: HookListConfig::default(),
            },
            temp: RawTempWorktreeConfig {
                enabled: None,
                path_template: None,
                delete_merged: None,
                hooks: HookListConfig::default(),
            },
        }
    }
}

/// Why settings are refused.
#[derive(Debug)]
pub enum ConfigError {
    EmptyMainBranch,
    MainSwitching,
    SamePaths,
    Template(TemplateError),
    OutsideRoot(String),
}

impl ConfigError {
    pub open spec fn text(self) -> Seq<char> {
        match self {
            ConfigError::EmptyMainBranch =>
                "Configured worktree main branch must be non-empty when main worktrees are enabled."@,
            ConfigError::MainSwitching =>
                "worktrees.main.allow_branch_switch = true is not supported in the current MVP."@,
            ConfigError::SamePaths =>
                "Configured main and review worktree paths must not be the same."@,
            ConfigError::Template(e) => "Temp worktree path template '"@ + e.0@
                + "' must include '{branch}'."@,
            ConfigError::OutsideRoot(root) =>
                "Configured main/review/temp worktree paths must live under the managed worktree root '"@
                + root@ + "'."@,
        }
    }

    pub fn message(&self) -> (r: String)
        ensures
            r@ == self.text(),
    {
        match self {
            ConfigError::EmptyMainBranch =>
                "Configured worktree main branch must be non-empty when main worktrees are enabled.".to_owned(),
            ConfigError::MainSwitching =>
                "worktrees.main.allow_branch_switch = true is not supported in the current MVP.".to_owned(),
            ConfigError::SamePaths =>
                "Configured main and review worktree paths must not be the same.".to_owned(),
            ConfigError::Template(e) => e.message(),
            ConfigError::OutsideRoot(root) => cat3(
                "Configured main/review/temp worktree paths must live under the managed worktree root '",
                root.as_str(),
                "'.",
            ),
        }
    }
}

/// A path of the settings: relative ones are seen from the repository.
pub open spec fn config_path(base: Seq<char>, value: Seq<char>) -> Seq<char> {
    normalized(joined(base, value))
}

pub fn resolve_config_path(base: &str, value: &str) -> (r: String)
    ensures
        r@ == config_path(base@, value@),
{
    normalize_path(join_path(base, value).as_str())
}

/// A setting without white space around it; none where nothing is left.
pub open spec fn filled(value: Option<Seq<char>>) -> Option<Seq<char>> {
    match value {
        Some(v) => if trim_of(v).len() > 0 {
            Some(trim_of(v))
        } else {
            None
        },
        None => None,
    }
}

fn fill(value: &Option<String>) -> (r: Option<String>)
    ensures
        opt_string(r) == filled(opt_string(*value)),
{
    match value {
        Some(v) => {
            let t = trim(v.as_str());
            if t.as_str().is_empty() {
                None
            } else {
                Some(t)
            }
        },
        None => None,
    }
}

/// The trunk that the file names: its own setting comes before the upstream.
pub open spec fn named_trunk(raw: RawWorktreeConfig) -> Option<Seq<char>> {
    filled(
        match raw.trunk {
            Some(t) => Some(t@),
            None => opt_string(raw.upstream_branch),
        },
    )
}

/// The branch of the trunk: a reference is cut down to the branch that it names.
pub open spec fn trunk_branch(
    trunk: Seq<char>,
    locals: Seq<Seq<char>>,
    remotes: Seq<Seq<char>>,
) -> Seq<char> {
    let t = trim_of(trunk);
    if t.len() == 0 {
        "main"@
    } else if "refs/heads/"@.is_prefix_of(t) {
        t.skip("refs/heads/"@.len() as int)
    } else if locals.contains(t) {
        t
    } else if "refs/remotes/"@.is_prefix_of(t) && split_once_spec(
        t.skip("refs/remotes/"@.len() as int),
        '/',
    ) is Some {
        match split_once_spec(t.skip("refs/remotes/"@.len() as int), '/') {
            Some((_, branch)) => branch,
            None => t,
        }
    } else if remotes.contains(t) {
        match split_once_spec(t, '/') {
            Some((_, branch)) => branch,
            None => t,
        }
    } else {
        t
    }
}

pub fn default_main_branch(trunk: &str, locals: &Vec<String>, remotes: &Vec<String>) -> (r: String)
    ensures
        r@ == trunk_branch(trunk@, strs(locals@), strs(remotes@)),
{
    let t = trim(trunk);
    if t.as_str().is_empty() {
        return "main".to_owned();
    }
    if let Some(local) = strip_prefix(t.as_str(), "refs/heads/") {
        return local;
    }
    if has_text(locals, t.as_str()) {
        return t;
    }
    if let Some(remote_ref) = strip_prefix(t.as_str(), "refs/remotes/") {
        if let Some((_, branch)) = split_once(remote_ref.as_str(), '/') {
            return branch;
        }
    }
    if has_text(remotes, t.as_str()) {
        if let Some((_, branch)) = split_once(t.as_str(), '/') {
            return branch;
        }
    }
    t
}

fn or_true(value: Option<bool>) -> (r: bool)
    ensures
        r == (value != Some(false)),
{
    match value {
        Some(v) => v,
        None => true,
    }
}

fn copy_hooks(hooks: &HookListConfig) -> (r: HookListConfig)
    ensures
        r.on_create@ == hooks.on_create@,
        r.on_checkout@ == hooks.on_checkout@,
        r.on_remove@ == hooks.on_remove@,
{
    HookListConfig {
        on_create: copy_texts(&hooks.on_create),
        on_checkout: copy_texts(&hooks.on_checkout),
        on_remove: copy_texts(&hooks.on_remove),
    }
}

/// The same commands.
pub open spec fn same_hooks(a: HookListConfig, b: HookListConfig) -> bool {
    a.on_create@ == b.on_create@ && a.on_checkout@ == b.on_checkout@ && a.on_remove@ == b.on_remove@
}

/// Where the root is.
pub open spec fn root_of(base: Seq<char>, raw: RawWorktreeConfig) -> Seq<char> {
    config_path(
        base,
        match raw.root {
            Some(r) => r@,
            None => DEFAULT_ROOT@,
        },
    )
}

/// A path of a role: the one that is set, or a place under the root.
pub open spec fn role_path(
    base: Seq<char>,
    raw: RawWorktreeConfig,
    value: Option<Seq<char>>,
    place: Seq<char>,
) -> Seq<char> {
    match value {
        Some(v) => config_path(base, v),
        None => normalized(joined(root_of(base, raw), place)),
    }
}

/// The settings say what the file says, with the defaults for what it leaves out.
pub open spec fn configured(
    c: WorktreeConfig,
    base: Seq<char>,
    raw: RawWorktreeConfig,
    upstream: Option<Seq<char>>,
    locals: Seq<Seq<char>>,
    remotes: Seq<Seq<char>>,
) -> bool {
    &&& c.root@ == normalized(root_of(base, raw))
    &&& c.trunk@ == match named_trunk(raw) {
        Some(t) => t,
        None => match upstream {
            Some(u) => u,
            None => "main"@,
        },
    }
    &&& same_hooks(c.hooks, raw.hooks)
    &&& c.main.enabled == (raw.main.enabled != Some(false))
    &&& c.main.branch@ == match filled(opt_string(raw.main.branch)) {
        Some(b) => b,
        None => trunk_branch(c.trunk@, locals, remotes),
    }
    &&& c.main.path@ == role_path(base, raw, opt_string(raw.main.path), "main"@)
    &&& c.main.allow_branch_switch == (raw.main.allow_branch_switch == Some(true))
    &&& same_hooks(c.main.hooks, raw.main.hooks)
    &&& c.review.enabled == (raw.review.enabled != Some(false))
    &&& c.review.path@ == role_path(base, raw, opt_string(raw.review.path), "review"@)
    &&& c.review.reuse == (raw.review.reuse != Some(false))
    &&& c.review.clean_before_switch == (raw.review.clean_before_switch != Some(false))
    &&& same_hooks(c.review.hooks, raw.review.hooks)
    &&& c.temp.enabled == (raw.temp.enabled != Some(false))
    &&& c.temp.path_template@ == role_path(
        base,
        raw,
        opt_string(raw.temp.path_template),
        "temp/{branch}"@,
    )
    &&& c.temp.delete_merged == (raw.temp.delete_merged != Some(false))
    &&& same_hooks(c.temp.hooks, raw.temp.hooks)
}

/// What must hold of settings. What is switched off is not looked at.
pub open spec fn config_problem(c: WorktreeConfig) -> Option<ConfigProblem> {
    let temp_root = split_once_text_of(c.temp.path_template@, "{branch}"@);
    if c.main.enabled && trim_of(c.main.branch@).len() == 0 {
        Some(ConfigProblem::EmptyMainBranch)
    } else if c.main.enabled && c.main.allow_branch_switch {
        Some(ConfigProblem::MainSwitching)
    } else if c.main.enabled && c.review.enabled && c.main.path@ == c.review.path@ {
        Some(ConfigProblem::SamePaths)
    } else if c.temp.enabled && temp_root is None {
        Some(ConfigProblem::Template(c.temp.path_template@))
    } else if (c.main.enabled && !within(c.root@, c.main.path@)) || (c.review.enabled && !within(
        c.root@,
        c.review.path@,
    )) || (c.temp.enabled && (temp_root matches Some((prefix, _)) && !within(
        c.root@,
        normalized(prefix),
    ))) {
        Some(ConfigProblem::OutsideRoot(c.root@))
    } else {
        None
    }
}

/// What is wrong with settings.
pub enum ConfigProblem {
    EmptyMainBranch,
    MainSwitching,
    SamePaths,
    /// The template.
    Template(Seq<char>),
    /// The root.
    OutsideRoot(Seq<char>),
}

impl View for ConfigError {
    type V = ConfigProblem;

    open spec fn view(&self) -> ConfigProblem {
        match *self {
            ConfigError::EmptyMainBranch => ConfigProblem::EmptyMainBranch,
            ConfigError::MainSwitching => ConfigProblem::MainSwitching,
            ConfigError::SamePaths => ConfigProblem::SamePaths,
            ConfigError::Template(e) => ConfigProblem::Template(e.0@),
            ConfigError::OutsideRoot(root) => ConfigProblem::OutsideRoot(root@),
        }
    }
}

fn validate_config(config: &WorktreeConfig) -> (r: Result<(), ConfigError>)
    ensures
        match r {
            Ok(_) => config_problem(*config) is None,
            Err(e) => config_problem(*config) == Some(e@),
        },
{
    if config.main.enabled && trim(config.main.branch.as_str()).as_str().is_empty() {
        return Err(ConfigError::EmptyMainBranch);
    }
    if config.main.enabled && config.main.allow_branch_switch {
        return Err(ConfigError::MainSwitching);
    }
    if config.main.enabled && config.review.enabled && same(
        config.main.path.as_str(),
        config.review.path.as_str(),
    ) {
        return Err(ConfigError::SamePaths);
    }
    let root = config.root.as_str();
    let mut outside = false;
    if config.temp.enabled {
        match temp_template_root(config.temp.path_template.as_str()) {
            Ok(temp_root) => {
                outside = !path_is_inside(root, temp_root.as_str());
            },
            Err(e) => return Err(ConfigError::Template(e)),
        }
    }
    if (config.main.enabled && !path_is_inside(root, config.main.path.as_str())) || (
    config.review.enabled && !path_is_inside(root, config.review.path.as_str())) || outside {
        return Err(ConfigError::OutsideRoot(config.root.clone()));
    }
    Ok(())
}

/// Puts the settings together. `base` is the directory of the repository, and `upstream` the branch
/// that stacks stand on, where one was found.
pub fn load_worktree_config(
    base: &str,
    raw: &RawWorktreeConfig,
    upstream: &Option<String>,
    locals: &Vec<String>,
    remotes: &Vec<String>,
) -> (r: Result<WorktreeConfig, ConfigError>)
    ensures
        match r {
            Ok(c) => configured(
                c,
                base@,
                *raw,
                opt_string(*upstream),
                strs(locals@),
                strs(remotes@),
            ) && config_problem(c) is None,
            Err(e) => exists|c: WorktreeConfig| #[trigger]
                configured(
                    c,
                    base@,
                    *raw,
                    opt_string(*upstream),
                    strs(locals@),
                    strs(remotes@),
                ) && config_problem(c) == Some(e@),
        },
{
    let root = match &raw.root {
        Some(r) => resolve_config_path(base, r.as_str()),
        None => resolve_config_path(base, DEFAULT_ROOT),
    };
    let named = match &raw.trunk {
        Some(_) => fill(&raw.trunk),
        None => fill(&raw.upstream_branch),
    };
    let trunk = match named {
        Some(t) => t,
        None => match upstream {
            Some(u) => u.clone(),
            None => "main".to_owned(),
        },
    };
    let main_branch = match fill(&raw.main.branch) {
        Some(b) => b,
        None => default_main_branch(trunk.as_str(), locals, remotes),
    };
    let main_path = match &raw.main.path {
        Some(p) => resolve_config_path(base, p.as_str()),
        None => normalize_path(join_path(root.as_str(), "main").as_str()),
    };
    let review_path = match &raw.review.path {
        Some(p) => resolve_config_path(base, p.as_str()),
        None => normalize_path(join_path(root.as_str(), "review").as_str()),
    };
    let template = match &raw.temp.path_template {
        Some(p) => resolve_config_path(base, p.as_str()),
        None => normalize_path(join_path(root.as_str(), "temp/{branch}").as_str()),
    };
    let config = WorktreeConfig {
        root: normalize_path(root.as_str()),
        trunk,
        hooks: copy_hooks(&raw.hooks),
        main: MainWorktreeConfig {
            enabled: or_true(raw.main.enabled),
            branch: main_branch,
            path: main_path,
            allow_branch_switch: match raw.main.allow_branch_switch {
                Some(v) => v,
                None => false,
            },
            hooks: copy_hooks(&raw.main.hooks),
        },
        review: ReviewWorktreeConfig {
            enabled: or_true(raw.review.enabled),
            path: review_path,
            reuse: or_true(raw.review.reuse),
            clean_before_switch: or_true(raw.review.clean_before_switch),
            hooks: copy_hooks(&raw.review.hooks),
        },
        temp: TempWorktreeConfig {
            enabled: or_true(raw.temp.enabled),
            path_template: template,
            delete_merged: or_true(raw.temp.delete_merged),
            hooks: copy_hooks(&raw.temp.hooks),
        },
    };
    assert(configured(
        config,
        base@,
        *raw,
        opt_string(*upstream),
        strs(locals@),
        strs(remotes@),
    ));
    match validate_config(&config) {
        Ok(_) => Ok(config),
        Err(e) => Err(e),
    }
}

/// In settings that were accepted, every worktree that is switched on lies under the root.
pub proof fn law_accepted_paths_lie_under_the_root(c: WorktreeConfig)
    requires
        config_problem(c) is None,
    ensures
        c.main.enabled ==> within(c.root@, c.main.path@),
        c.review.enabled ==> within(c.root@, c.review.path@),
        c.temp.enabled ==> (split_once_text_of(c.temp.path_template@, "{branch}"@) matches Some(
            (prefix, _),
        ) && within(c.root@, normalized(prefix))),
        c.main.enabled && c.review.enabled ==> c.main.path@ != c.review.path@,
{
}

} // verus!
