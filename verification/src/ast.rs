//! Input surface of the builder: the abstract syntax tree that the parsing
//! collaborator hands over. The builder assumes the tree already passed
//! lexical and grammatical validation and performs only semantic checks.

use vstd::prelude::*;

verus! {

/// A name appearing in the source, as a declaration or as a reference.
#[derive(Debug, PartialEq, Eq)]
pub struct Identifier(pub String);

impl View for Identifier {
    type V = Seq<char>;

    open spec fn view(&self) -> Seq<char> {
        self.0@
    }
}

impl Clone for Identifier {
    fn clone(&self) -> (r: Self)
        ensures
            r == *self,
    {
        Identifier(self.0.clone())
    }
}

/// Whether a trace reference speaks of the current row or of the next row.
#[derive(Clone, Copy, Debug, PartialEq, Eq, Structural)]
pub enum RowOffset {
    Current,
    Next,
}

/// The row a boundary constraint pins: the first or the last row of the trace.
#[derive(Clone, Copy, Debug, PartialEq, Eq, Structural)]
pub enum Boundary {
    First,
    Last,
}

/// A parsed source: its sections in source order.
#[derive(Debug)]
pub struct Source(pub Vec<SourceSection>);

/// One section of the source.
#[derive(Debug)]
pub enum SourceSection {
    AirDef(Identifier),
    TraceCols(TraceCols),
    PublicInputs(Vec<PublicInput>),
    PeriodicColumns(Vec<PeriodicColumn>),
    BoundaryConstraints(BoundaryConstraints),
    TransitionConstraints(TransitionConstraints),
}

/// The declared trace columns: main columns and auxiliary columns, each in
/// declaration order.
#[derive(Debug)]
pub struct TraceCols {
    pub main_cols: Vec<Identifier>,
    pub aux_cols: Vec<Identifier>,
}

/// A public input declaration: a name and the number of field elements it holds.
#[derive(Debug)]
pub struct PublicInput {
    pub name: Identifier,
    pub size: usize,
}

/// A periodic column declaration: a name and the repeating values of one cycle.
#[derive(Debug)]
pub struct PeriodicColumn {
    pub name: Identifier,
    pub values: Vec<u64>,
}

/// A boundary constraint section: its assertions in source order.
#[derive(Debug)]
pub struct BoundaryConstraints {
    pub boundary_constraints: Vec<BoundaryConstraint>,
}

/// An assertion that a column equals a value at the first or last row.
#[derive(Debug)]
pub struct BoundaryConstraint {
    pub column: Identifier,
    /// Offset carried by the column reference on the left side; only the
    /// current row may stand in a boundary constraint.
    pub offset: RowOffset,
    pub boundary: Boundary,
    pub value: BoundaryExpr,
}

/// The right side of a boundary constraint: a literal, or one element of a
/// public input. These trees stay outside the shared expression graph.
#[derive(Debug, PartialEq, Eq)]
pub enum BoundaryExpr {
    Const(u64),
    PubInput(Identifier, usize),
}

impl Clone for BoundaryExpr {
    fn clone(&self) -> (r: Self)
        ensures
            r == *self,
    {
        match self {
            BoundaryExpr::Const(v) => BoundaryExpr::Const(*v),
            BoundaryExpr::PubInput(name, idx) => BoundaryExpr::PubInput(name.clone(), *idx),
        }
    }
}

/// A transition constraint section: its equations in source order.
#[derive(Debug)]
pub struct TransitionConstraints {
    pub transition_constraints: Vec<TransitionConstraint>,
}

/// An equation enforced between every pair of consecutive rows; it is read as
/// `lhs - rhs = 0`.
#[derive(Debug)]
pub struct TransitionConstraint {
    pub lhs: TransitionExpr,
    pub rhs: TransitionExpr,
}

/// An algebraic expression over trace columns, periodic columns, public
/// inputs, random values and constants.
#[derive(Debug)]
pub enum TransitionExpr {
    Const(u64),
    /// A current-row reference to a declared column, by name.
    Var(Identifier),
    /// A next-row reference to a declared trace column, by name.
    Next(Identifier),
    /// One of the random values supplied by the verifier, by index.
    Rand(usize),
    /// One element of a declared public input, by name and element index.
    PubInput(Identifier, usize),
    Add(Box<TransitionExpr>, Box<TransitionExpr>),
    Sub(Box<TransitionExpr>, Box<TransitionExpr>),
    Mul(Box<TransitionExpr>, Box<TransitionExpr>),
    /// A base raised to a constant non-negative exponent.
    Exp(Box<TransitionExpr>, u64),
}

} // verus!
