use air_ir::ast::{
    Boundary, BoundaryConstraint, BoundaryConstraints, BoundaryExpr, Identifier, RowOffset, Source,
    SourceSection, TraceCols, TransitionConstraint, TransitionConstraints, TransitionExpr,
};
use air_ir::AirIR;

fn ident(name: &str) -> Identifier {
    Identifier(name.to_string())
}

fn main_trace(names: &[&str]) -> SourceSection {
    SourceSection::TraceCols(TraceCols {
        main_cols: names.iter().map(|n| ident(n)).collect(),
        aux_cols: Vec::new(),
    })
}

fn bound(column: &str, boundary: Boundary, value: u64) -> BoundaryConstraint {
    BoundaryConstraint {
        column: ident(column),
        offset: RowOffset::Current,
        boundary,
        value: BoundaryExpr::Const(value),
    }
}

fn boundary_section(constraints: Vec<BoundaryConstraint>) -> SourceSection {
    SourceSection::BoundaryConstraints(BoundaryConstraints { boundary_constraints: constraints })
}

fn transition_section(constraints: Vec<TransitionConstraint>) -> SourceSection {
    SourceSection::TransitionConstraints(TransitionConstraints {
        transition_constraints: constraints,
    })
}

fn var(name: &str) -> TransitionExpr {
    TransitionExpr::Var(ident(name))
}

fn next(name: &str) -> TransitionExpr {
    TransitionExpr::Next(ident(name))
}

fn sum_of(l: TransitionExpr, r: TransitionExpr) -> TransitionExpr {
    TransitionExpr::Add(Box::new(l), Box::new(r))
}

fn diff_of(l: TransitionExpr, r: TransitionExpr) -> TransitionExpr {
    TransitionExpr::Sub(Box::new(l), Box::new(r))
}

fn prod_of(l: TransitionExpr, r: TransitionExpr) -> TransitionExpr {
    TransitionExpr::Mul(Box::new(l), Box::new(r))
}

fn pow_of(base: TransitionExpr, exp: u64) -> TransitionExpr {
    TransitionExpr::Exp(Box::new(base), exp)
}

/// `enf clk' = clk + 1`
fn clk_increments() -> TransitionConstraint {
    TransitionConstraint {
        lhs: next("clk"),
        rhs: sum_of(var("clk"), TransitionExpr::Const(1)),
    }
}

#[test]
fn boundary_constraints() {
    let source = Source(vec![
        main_trace(&["clk"]),
        transition_section(vec![clk_increments()]),
        boundary_section(vec![
            bound("clk", Boundary::First, 0),
            bound("clk", Boundary::Last, 1),
        ]),
    ]);

    let result = AirIR::from_source(&source);
    assert!(result.is_ok());
}

#[test]
fn err_bc_column_undeclared() {
    let source = Source(vec![boundary_section(vec![
        bound("clk", Boundary::First, 0),
        bound("clk", Boundary::Last, 1),
    ])]);

    let result = AirIR::from_source(&source);
    assert!(result.is_err());
}

#[test]
fn err_bc_empty_or_omitted() {
    // An empty boundary-constraint section contributes nothing, so the
    // completeness check fails.
    let source = Source(vec![
        main_trace(&["clk"]),
        boundary_section(Vec::new()),
        transition_section(vec![clk_increments()]),
    ]);

    assert!(AirIR::from_source(&source).is_err());

    // The same when the section is omitted altogether.
    let source = Source(vec![
        main_trace(&["clk"]),
        transition_section(vec![clk_increments()]),
    ]);

    let result = AirIR::from_source(&source);
    assert!(result.is_err());
}

#[test]
fn err_bc_duplicate_first() {
    let source = Source(vec![
        main_trace(&["clk"]),
        boundary_section(vec![
            bound("clk", Boundary::First, 0),
            bound("clk", Boundary::First, 1),
        ]),
    ]);

    let result = AirIR::from_source(&source);

    assert!(result.is_err());
}

#[test]
fn err_bc_duplicate_last() {
    let source = Source(vec![
        main_trace(&["clk"]),
        boundary_section(vec![
            bound("clk", Boundary::Last, 0),
            bound("clk", Boundary::Last, 1),
        ]),
    ]);

    assert!(AirIR::from_source(&source).is_err());
}

#[test]
fn transition_constraints() {
    let source = Source(vec![
        main_trace(&["clk"]),
        boundary_section(vec![bound("clk", Boundary::First, 0)]),
        transition_section(vec![clk_increments()]),
    ]);

    let result = AirIR::from_source(&source);
    assert!(result.is_ok());
}

#[test]
fn transition_constraints_using_parens() {
    // `enf clk' = (clk + 1)`: grouping parentheses leave the tree unchanged.
    let source = Source(vec![
        main_trace(&["clk"]),
        boundary_section(vec![bound("clk", Boundary::First, 0)]),
        transition_section(vec![TransitionConstraint {
            lhs: next("clk"),
            rhs: sum_of(var("clk"), TransitionExpr::Const(1)),
        }]),
    ]);

    let result = AirIR::from_source(&source);
    assert!(result.is_ok());
}

#[test]
fn err_tc_empty_or_omitted() {
    // An empty transition-constraint section contributes nothing, so the
    // completeness check fails.
    let source = Source(vec![
        main_trace(&["clk"]),
        transition_section(Vec::new()),
        boundary_section(vec![bound("clk", Boundary::First, 0)]),
    ]);

    assert!(AirIR::from_source(&source).is_err());

    // The same when the section is omitted altogether.
    let source = Source(vec![
        main_trace(&["clk"]),
        boundary_section(vec![bound("clk", Boundary::First, 0)]),
    ]);

    let result = AirIR::from_source(&source);
    assert!(result.is_err());
}

#[test]
fn err_tc_column_undeclared() {
    let source = Source(vec![transition_section(vec![clk_increments()])]);

    let result = AirIR::from_source(&source);
    assert!(result.is_err());
}

#[test]
fn op_mul() {
    // `enf clk' * clk = 1`
    let source = Source(vec![
        main_trace(&["clk"]),
        boundary_section(vec![bound("clk", Boundary::First, 0)]),
        transition_section(vec![TransitionConstraint {
            lhs: prod_of(next("clk"), var("clk")),
            rhs: TransitionExpr::Const(1),
        }]),
    ]);

    let result = AirIR::from_source(&source);
    assert!(result.is_ok());
}

#[test]
fn op_exp() {
    // `enf clk'^2 - clk = 1`
    let source = Source(vec![
        main_trace(&["clk"]),
        boundary_section(vec![bound("clk", Boundary::First, 0)]),
        transition_section(vec![TransitionConstraint {
            lhs: diff_of(pow_of(next("clk"), 2), var("clk")),
            rhs: TransitionExpr::Const(1),
        }]),
    ]);

    let result = AirIR::from_source(&source);
    assert!(result.is_ok());
}
