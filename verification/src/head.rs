//! Where the checkout is.

use vstd::prelude::*;

verus! {

/// Where the checkout is.
#[derive(Debug, Clone, PartialEq, Eq)]
pub enum Head {
    Branch(String),
    /// At a commit, without a branch.
    Detached(String),
}

/// Where the checkout is, in texts.
pub enum HeadAt {
    Branch(Seq<char>),
    Detached(Seq<char>),
}

impl View for Head {
    type V = HeadAt;

    open spec fn view(&self) -> HeadAt {
        match *self {
            Head::Branch(name) => HeadAt::Branch(name@),
            Head::Detached(id) => HeadAt::Detached(id@),
        }
    }
}

/// The branch that is checked out.
pub open spec fn head_branch(head: HeadAt) -> Option<Seq<char>> {
    match head {
        HeadAt::Branch(name) => Some(name),
        HeadAt::Detached(_) => None,
    }
}

/// The local branches with their tips, and where the checkout is.
#[verifier::ext_equal]
pub struct RepoView {
    pub tips: Map<Seq<char>, Seq<char>>,
    pub head: HeadAt,
}

impl Head {
    /// The branch that is checked out.
    pub fn branch(&self) -> (r: Option<String>)
        ensures
            crate::text::opt_string(r) == head_branch(self@),
    {
        match self {
            Head::Branch(name) => Some(name.clone()),
            Head::Detached(_) => None,
        }
    }

    pub fn copy(&self) -> (r: Head)
        ensures
            r@ == self@,
    {
        match self {
            Head::Branch(name) => Head::Branch(name.clone()),
            Head::Detached(id) => Head::Detached(id.clone()),
        }
    }
}

} // verus!
