//! What has to hold before a command begins.

use crate::text::{cat3, opt_text, same};
use vstd::prelude::*;

verus! {

/// Why a command does not begin.
#[derive(Debug)]
pub enum StartError {
    InProgress,
    RebaseInProgress,
    NoBase,
    /// No branch is checked out to reorder from.
    NotOnBranch,
    DetachedHead,
    IsUpstream(String),
}

impl StartError {
    pub open spec fn text(self) -> Seq<char> {
        match self {
            StartError::InProgress =>
                "A Kindra operation is already in progress. Use 'kin continue' or 'kin abort'."@,
            StartError::RebaseInProgress => "A rebase operation is already in progress."@,
            StartError::NoBase =>
                "Could not find a base branch (init.defaultBranch, main, master, or trunk)"@,
            StartError::NotOnBranch => "You must be on a branch to use 'reorder'"@,
            StartError::DetachedHead => "Detached HEAD"@,
            StartError::IsUpstream(b) => "Branch '"@ + b@
                + "' is the upstream branch. Cannot reorder the upstream branch itself."@,
        }
    }

    pub fn message(&self) -> (r: String)
        ensures
            r@ == self.text(),
    {
        match self {
            StartError::InProgress =>
                "A Kindra operation is already in progress. Use 'kin continue' or 'kin abort'.".to_owned(),
            StartError::RebaseInProgress => "A rebase operation is already in progress.".to_owned(),
            StartError::NoBase =>
                "Could not find a base branch (init.defaultBranch, main, master, or trunk)".to_owned(),
            StartError::NotOnBranch => "You must be on a branch to use 'reorder'".to_owned(),
            StartError::DetachedHead => "Detached HEAD".to_owned(),
            StartError::IsUpstream(b) => cat3(
                "Branch '",
                b.as_str(),
                "' is the upstream branch. Cannot reorder the upstream branch itself.",
            ),
        }
    }
}

/// Whether `kin run` may begin; the base that it stands on.
pub fn check_run(rebase: bool, run: bool, hydration: bool, upstream: Option<String>) -> (r: Result<
    String,
    StartError,
>)
    ensures
        if rebase || run || hydration {
            r matches Err(StartError::InProgress)
        } else {
            match upstream {
                Some(u) => r matches Ok(b) && b == u,
                None => r matches Err(StartError::NoBase),
            }
        },
{
    if rebase || run || hydration {
        return Err(StartError::InProgress);
    }
    match upstream {
        Some(u) => Ok(u),
        None => Err(StartError::NoBase),
    }
}

/// Whether `kin restack` may begin; the branch that it restacks onto.
pub fn check_restack(in_progress: bool, current: Option<&str>) -> (r: Result<String, StartError>)
    ensures
        if in_progress {
            r matches Err(StartError::RebaseInProgress)
        } else {
            match opt_text(current) {
                Some(c) => r matches Ok(b) && b@ == c,
                None => r matches Err(StartError::DetachedHead),
            }
        },
{
    if in_progress {
        return Err(StartError::RebaseInProgress);
    }
    match current {
        Some(c) => Ok(c.to_owned()),
        None => Err(StartError::DetachedHead),
    }
}

/// Whether `kin reorder` may begin; the branch that it begins on.
pub fn check_reorder(in_progress: bool, current: Option<&str>, upstream: Option<&str>) -> (r: Result<
    String,
    StartError,
>)
    ensures
        if in_progress {
            r matches Err(StartError::InProgress)
        } else {
            match (opt_text(current), opt_text(upstream)) {
                (None, _) => r matches Err(StartError::NotOnBranch),
                (Some(_), None) => r matches Err(StartError::NoBase),
                (Some(c), Some(u)) => if c == u {
                    r matches Err(StartError::IsUpstream(b)) && b@ == c
                } else {
                    r matches Ok(b) && b@ == c
                },
            }
        },
{
    if in_progress {
        return Err(StartError::InProgress);
    }
    match (current, upstream) {
        (None, _) => Err(StartError::NotOnBranch),
        (Some(_), None) => Err(StartError::NoBase),
        (Some(c), Some(u)) => if same(c, u) {
            Err(StartError::IsUpstream(c.to_owned()))
        } else {
            Ok(c.to_owned())
        },
    }
}

/// What `kin push` pushes.
#[derive(Debug, Clone, Copy, PartialEq, Eq, Structural)]
pub enum PushScope {
    /// The base itself, which is checked out.
    Base,
    /// The branches of the stack.
    Stack,
}

/// What `kin push` pushes.
pub fn push_scope(current: Option<&str>, upstream: Option<&str>) -> (r: Result<
    PushScope,
    StartError,
>)
    ensures
        match opt_text(upstream) {
            None => r matches Err(StartError::NoBase),
            Some(u) => r matches Ok(s) && s == if opt_text(current) == Some(u) {
                PushScope::Base
            } else {
                PushScope::Stack
            },
        },
{
    match upstream {
        None => Err(StartError::NoBase),
        Some(u) => match current {
            Some(c) => if same(c, u) {
                Ok(PushScope::Base)
            } else {
                Ok(PushScope::Stack)
            },
            None => Ok(PushScope::Stack),
        },
    }
}

} // verus!
