//! Semantic faults found while building the IR. Every fault is derived from
//! the input alone; construction stops at the first one and surfaces it.

use vstd::prelude::*;
use crate::ast::Boundary;

verus! {

/// The mathematical shape of a semantic error: the variant and its payload,
/// with names as character sequences. What a build is specified to report.
pub enum BuildFault {
    Duplicate(Seq<char>),
    InvalidCycle(Seq<char>, usize),
    Undeclared(Seq<char>),
    NextRow(Seq<char>),
    DuplicateBoundary(usize, Boundary),
    Missing(SectionKind),
}

/// `e` is exactly the error that fault `f` prescribes, payload included.
pub open spec fn build_fault_matches(e: SemanticError, f: BuildFault) -> bool {
    match f {
        BuildFault::Duplicate(n) => e matches SemanticError::DuplicateIdentifier(s) && s@ == n,
        BuildFault::InvalidCycle(n, l) => e matches SemanticError::InvalidPeriodicColumnCycle(
            s,
            ll,
        ) && s@ == n && ll == l,
        BuildFault::Undeclared(n) => e matches SemanticError::UndeclaredIdentifier(s) && s@ == n,
        BuildFault::NextRow(n) => e matches SemanticError::InvalidNextRowUsage(s) && s@ == n,
        BuildFault::DuplicateBoundary(c, b) => e matches SemanticError::DuplicateBoundaryAssertion(
            cc,
            bb,
        ) && cc == c && bb == b,
        BuildFault::Missing(k) => e matches SemanticError::MissingSection(kk) && kk == k,
    }
}

/// Names the constraint section that a [`SemanticError::MissingSection`]
/// complains about.
#[derive(Clone, Copy, Debug, PartialEq, Eq, Structural)]
pub enum SectionKind {
    BoundaryConstraints,
    TransitionConstraints,
}

/// A semantic error raised during IR construction.
#[derive(Debug, PartialEq, Eq)]
pub enum SemanticError {
    /// A declared name collides with an earlier declaration of any kind.
    DuplicateIdentifier(String),
    /// A periodic column's cycle length is not a power of two at least the
    /// minimum length; carries the name and the offending length.
    InvalidPeriodicColumnCycle(String, usize),
    /// A constraint references a name that no declaration binds to an
    /// identifier usable in that position.
    UndeclaredIdentifier(String),
    /// A next-row reference stands where only current-row references are
    /// allowed.
    InvalidNextRowUsage(String),
    /// The column already has an assertion for this boundary.
    DuplicateBoundaryAssertion(usize, Boundary),
    /// A constraint section is empty or absent once the whole source is
    /// processed.
    MissingSection(SectionKind),
}

} // verus!
