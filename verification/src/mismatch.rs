//! The error a failed layout match reports.

use vstd::prelude::*;
use crate::layout::{BlockLayout, LayoutView};

verus! {

/// Why a host type does not match a reflected layout.
///
/// `MemberMismatch` wraps the error found inside a member, so an error read
/// from the outside in spells the path from the root to the place where the
/// two sides differ.
#[derive(Debug, PartialEq, Eq)]
pub enum LayoutMismatchError {
    /// A member of this name is on one side and cannot be found on the other.
    MissingField { name: String },
    /// The member was found on both sides, and matching inside it failed.
    MemberMismatch { member: String, cause: Box<LayoutMismatchError> },
    /// The two layouts differ in kind or in what a leaf holds. `expected` is
    /// what the host type asks for, `obtained` what was reflected.
    LayoutMismatch { expected: BlockLayout, obtained: BlockLayout },
}

/// Mathematical model of a [`LayoutMismatchError`].
pub enum MismatchView {
    MissingField { name: Seq<char> },
    MemberMismatch { member: Seq<char>, cause: Box<MismatchView> },
    LayoutMismatch { expected: LayoutView, obtained: LayoutView },
}

impl View for LayoutMismatchError {
    type V = MismatchView;

    open spec fn view(&self) -> MismatchView
        decreases self,
    {
        match self {
            LayoutMismatchError::MissingField { name } => MismatchView::MissingField { name: name@ },
            LayoutMismatchError::MemberMismatch { member, cause } => MismatchView::MemberMismatch {
                member: member@,
                cause: Box::new((**cause)@),
            },
            LayoutMismatchError::LayoutMismatch { expected, obtained } => MismatchView::LayoutMismatch {
                expected: expected@,
                obtained: obtained@,
            },
        }
    }
}

impl MismatchView {
    /// The member names passed on the way from the root to the failure,
    /// outermost first.
    pub open spec fn path(self) -> Seq<Seq<char>>
        decreases self,
    {
        match self {
            MismatchView::MemberMismatch { member, cause } => seq![member] + cause.path(),
            _ => Seq::empty(),
        }
    }

    /// The innermost error: the one that is not a `MemberMismatch`.
    pub open spec fn root_cause(self) -> MismatchView
        decreases self,
    {
        match self {
            MismatchView::MemberMismatch { member, cause } => cause.root_cause(),
            _ => self,
        }
    }
}

/// The names held by a vector of strings.
pub open spec fn names_of(v: Seq<String>) -> Seq<Seq<char>> {
    v.map_values(|s: String| s@)
}

impl LayoutMismatchError {
    /// The innermost error, which names what actually differs.
    pub fn root_cause(&self) -> (inner: &LayoutMismatchError)
        ensures
            inner@ == self@.root_cause(),
            !(inner is MemberMismatch),
        decreases self,
    {
        match self {
            LayoutMismatchError::MemberMismatch { member, cause } => cause.root_cause(),
            _ => self,
        }
    }

    /// The member names from the root down to the failure, outermost first.
    /// Empty when the failure is at the root itself.
    pub fn path(&self) -> (names: Vec<String>)
        ensures
            names_of(names@) == self@.path(),
        decreases self,
    {
        match self {
            LayoutMismatchError::MemberMismatch { member, cause } => {
                let mut names: Vec<String> = Vec::new();
                names.push(member.clone());
                let mut rest = cause.path();
                let ghost tail = rest@;
                names.append(&mut rest);
                assert(names_of(names@) =~= seq![member@] + names_of(tail));
                names
            },
            _ => {
                let names: Vec<String> = Vec::new();
                assert(names_of(names@) =~= Seq::<Seq<char>>::empty());
                names
            },
        }
    }
}

impl Clone for LayoutMismatchError {
    /// A deep copy: the result has the same model as `self`.
    fn clone(&self) -> (copy: LayoutMismatchError)
        ensures
            copy@ == self@,
        decreases self,
    {
        match self {
            LayoutMismatchError::MissingField { name } => LayoutMismatchError::MissingField {
                name: name.clone(),
            },
            LayoutMismatchError::MemberMismatch { member, cause } => {
                let inner: LayoutMismatchError = (**cause).clone();
                LayoutMismatchError::MemberMismatch { member: member.clone(), cause: Box::new(inner) }
            },
            LayoutMismatchError::LayoutMismatch { expected, obtained } => LayoutMismatchError::LayoutMismatch {
                expected: expected.clone(),
                obtained: obtained.clone(),
            },
        }
    }
}

} // verus!
