use air_ir::ast::{
    Boundary, BoundaryConstraint, BoundaryConstraints, BoundaryExpr, Identifier, PeriodicColumn,
    PublicInput, RowOffset, Source, SourceSection, TraceCols, TransitionConstraint,
    TransitionConstraints, TransitionExpr,
};
use air_ir::error::{SectionKind, SemanticError};
use air_ir::transition_constraints::{AlgebraicGraph, Operation};
use air_ir::AirIR;

fn mk_ident(name: &str) -> Identifier {
    Identifier(name.to_string())
}

fn mk_trace(main: &[&str], aux: &[&str]) -> SourceSection {
    SourceSection::TraceCols(TraceCols {
        main_cols: main.iter().map(|n| mk_ident(n)).collect(),
        aux_cols: aux.iter().map(|n| mk_ident(n)).collect(),
    })
}

fn mk_bound(column: &str, boundary: Boundary, value: u64) -> BoundaryConstraint {
    BoundaryConstraint {
        column: mk_ident(column),
        offset: RowOffset::Current,
        boundary,
        value: BoundaryExpr::Const(value),
    }
}

fn mk_boundary_section(constraints: Vec<BoundaryConstraint>) -> SourceSection {
    SourceSection::BoundaryConstraints(BoundaryConstraints { boundary_constraints: constraints })
}

fn mk_transition_section(constraints: Vec<TransitionConstraint>) -> SourceSection {
    SourceSection::TransitionConstraints(TransitionConstraints {
        transition_constraints: constraints,
    })
}

fn mk_periodic_section(columns: &[(&str, &[u64])]) -> SourceSection {
    SourceSection::PeriodicColumns(
        columns
            .iter()
            .map(|(name, values)| PeriodicColumn { name: mk_ident(name), values: values.to_vec() })
            .collect(),
    )
}

fn mk_pub_inputs_section(inputs: &[(&str, usize)]) -> SourceSection {
    SourceSection::PublicInputs(
        inputs
            .iter()
            .map(|(name, size)| PublicInput { name: mk_ident(name), size: *size })
            .collect(),
    )
}

fn mk_var(name: &str) -> TransitionExpr {
    TransitionExpr::Var(mk_ident(name))
}

fn mk_next(name: &str) -> TransitionExpr {
    TransitionExpr::Next(mk_ident(name))
}

fn mk_sum(l: TransitionExpr, r: TransitionExpr) -> TransitionExpr {
    TransitionExpr::Add(Box::new(l), Box::new(r))
}

fn mk_diff(l: TransitionExpr, r: TransitionExpr) -> TransitionExpr {
    TransitionExpr::Sub(Box::new(l), Box::new(r))
}

fn mk_prod(l: TransitionExpr, r: TransitionExpr) -> TransitionExpr {
    TransitionExpr::Mul(Box::new(l), Box::new(r))
}

fn mk_pow(base: TransitionExpr, exp: u64) -> TransitionExpr {
    TransitionExpr::Exp(Box::new(base), exp)
}

fn mk_eq(lhs: TransitionExpr, rhs: TransitionExpr) -> TransitionConstraint {
    TransitionConstraint { lhs, rhs }
}

/// A minimal valid source around the given transition constraints.
fn clk_source(constraints: Vec<TransitionConstraint>) -> Source {
    Source(vec![
        mk_trace(&["clk"], &[]),
        mk_boundary_section(vec![mk_bound("clk", Boundary::First, 0)]),
        mk_transition_section(constraints),
    ])
}

#[test]
fn dedup_same_operation_same_handle() {
    let mut graph = AlgebraicGraph::new();
    let a = graph.insert(Operation::Constant(7));
    let b = graph.insert(Operation::Constant(7));
    assert_eq!(a, b);
    assert_eq!(graph.num_nodes(), 1);
    let c = graph.insert(Operation::Constant(8));
    assert_ne!(a, c);
    assert_eq!(graph.num_nodes(), 2);
    let d = graph.insert(Operation::Add(a, c));
    let e = graph.insert(Operation::Add(a, c));
    assert_eq!(d, e);
    assert_eq!(graph.num_nodes(), 3);
}

#[test]
fn dedup_bounds_graph_growth() {
    // `clk' = clk + 1` once.
    let once = AirIR::from_source(&clk_source(vec![mk_eq(
        mk_next("clk"),
        mk_sum(mk_var("clk"), TransitionExpr::Const(1)),
    )]))
    .unwrap();
    // The syntactically identical constraint three times over.
    let thrice = AirIR::from_source(&clk_source(vec![
        mk_eq(mk_next("clk"), mk_sum(mk_var("clk"), TransitionExpr::Const(1))),
        mk_eq(mk_next("clk"), mk_sum(mk_var("clk"), TransitionExpr::Const(1))),
        mk_eq(mk_next("clk"), mk_sum(mk_var("clk"), TransitionExpr::Const(1))),
    ]))
    .unwrap();

    assert_eq!(once.main_transition_constraints().len(), 1);
    assert_eq!(thrice.main_transition_constraints().len(), 3);
    // Sharing: the graph holds no more nodes than for the single insertion.
    assert_eq!(
        once.transition_graph().num_nodes(),
        thrice.transition_graph().num_nodes()
    );
    // All three roots are the same shared node.
    let roots = thrice.main_transition_constraints();
    assert_eq!(roots[0], roots[1]);
    assert_eq!(roots[1], roots[2]);
}

#[test]
fn degree_of_product_adds() {
    // (clk' * clk) - 1: degree 1 + 1 = 2.
    let ir = AirIR::from_source(&clk_source(vec![mk_eq(
        mk_prod(mk_next("clk"), mk_var("clk")),
        TransitionExpr::Const(1),
    )]))
    .unwrap();
    let degrees = ir.main_degrees();
    assert_eq!(degrees.len(), 1);
    assert_eq!(degrees[0].base(), 2);
    assert!(degrees[0].cycles().is_empty());
}

#[test]
fn degree_of_sum_takes_max() {
    // clk' - (clk * clk + 1): degree max(1, 2) = 2.
    let ir = AirIR::from_source(&clk_source(vec![mk_eq(
        mk_next("clk"),
        mk_sum(mk_prod(mk_var("clk"), mk_var("clk")), TransitionExpr::Const(1)),
    )]))
    .unwrap();
    assert_eq!(ir.main_degrees()[0].base(), 2);
}

#[test]
fn degree_of_power_multiplies() {
    // clk^3 - 1: degree 1 * 3 = 3.
    let ir = AirIR::from_source(&clk_source(vec![mk_eq(
        mk_pow(mk_var("clk"), 3),
        TransitionExpr::Const(1),
    )]))
    .unwrap();
    assert_eq!(ir.main_degrees()[0].base(), 3);
}

#[test]
fn periodic_column_contributes_cycle_minus_one() {
    // A constraint touching only a periodic column of cycle length 4:
    // base degree 0, cycle contributions {3}.
    let source = Source(vec![
        mk_trace(&["clk"], &[]),
        mk_periodic_section(&[("k", &[1, 0, 0, 0])]),
        mk_boundary_section(vec![mk_bound("clk", Boundary::First, 0)]),
        mk_transition_section(vec![mk_eq(mk_var("k"), TransitionExpr::Const(0))]),
    ]);
    let ir = AirIR::from_source(&source).unwrap();
    assert_eq!(ir.periodic_cycle_lens(), vec![4]);
    let degrees = ir.main_degrees();
    assert_eq!(degrees[0].base(), 0);
    assert_eq!(degrees[0].cycles(), &vec![3]);
}

#[test]
fn periodic_contributions_combine_per_operator() {
    let source = |constraint: TransitionConstraint| {
        Source(vec![
            mk_trace(&["clk"], &[]),
            mk_periodic_section(&[("k", &[1, 0, 0, 0])]),
            mk_boundary_section(vec![mk_bound("clk", Boundary::First, 0)]),
            mk_transition_section(vec![constraint]),
        ])
    };

    // k + k: union by the larger multiplicity keeps one copy of 3.
    let ir = AirIR::from_source(&source(mk_eq(
        mk_sum(mk_var("k"), mk_var("k")),
        TransitionExpr::Const(0),
    )))
    .unwrap();
    assert_eq!(ir.main_degrees()[0].cycles(), &vec![3]);

    // k * k: multiplicities add.
    let ir = AirIR::from_source(&source(mk_eq(
        mk_prod(mk_var("k"), mk_var("k")),
        TransitionExpr::Const(0),
    )))
    .unwrap();
    assert_eq!(ir.main_degrees()[0].cycles(), &vec![3, 3]);

    // k^3: multiplicities scale by the exponent.
    let ir = AirIR::from_source(&source(mk_eq(
        mk_pow(mk_var("k"), 3),
        TransitionExpr::Const(0),
    )))
    .unwrap();
    assert_eq!(ir.main_degrees()[0].cycles(), &vec![3, 3, 3]);
}

#[test]
fn duplicate_declaration_fails_across_kinds() {
    // Main column, then the same name as a public input.
    let source = Source(vec![
        mk_trace(&["clk"], &[]),
        mk_pub_inputs_section(&[("clk", 4)]),
        mk_boundary_section(vec![mk_bound("clk", Boundary::First, 0)]),
        mk_transition_section(vec![mk_eq(mk_next("clk"), mk_var("clk"))]),
    ]);
    assert_eq!(AirIR::from_source(&source).unwrap_err(), SemanticError::DuplicateIdentifier("clk".to_string()));

    // Main column, then the same name as an auxiliary column.
    let source = Source(vec![mk_trace(&["clk"], &["clk"])]);
    assert_eq!(AirIR::from_source(&source).unwrap_err(), SemanticError::DuplicateIdentifier("clk".to_string()));

    // Main column, then the same name as a periodic column.
    let source = Source(vec![
        mk_trace(&["clk"], &[]),
        mk_periodic_section(&[("clk", &[1, 0])]),
    ]);
    assert_eq!(AirIR::from_source(&source).unwrap_err(), SemanticError::DuplicateIdentifier("clk".to_string()));

    // Twice within one list.
    let source = Source(vec![mk_trace(&["clk", "clk"], &[])]);
    assert_eq!(AirIR::from_source(&source).unwrap_err(), SemanticError::DuplicateIdentifier("clk".to_string()));
}

#[test]
fn section_order_does_not_matter() {
    let build = |sections: Vec<SourceSection>| AirIR::from_source(&Source(sections)).unwrap();

    let a = build(vec![
        SourceSection::AirDef(mk_ident("CheckAir")),
        mk_trace(&["clk"], &["p"]),
        mk_pub_inputs_section(&[("stack_inputs", 16)]),
        mk_periodic_section(&[("k", &[1, 0])]),
        mk_boundary_section(vec![
            mk_bound("clk", Boundary::First, 0),
            mk_bound("p", Boundary::Last, 1),
        ]),
        mk_transition_section(vec![
            mk_eq(mk_next("clk"), mk_sum(mk_var("clk"), TransitionExpr::Const(1))),
            mk_eq(mk_next("p"), mk_prod(mk_var("p"), mk_var("k"))),
        ]),
    ]);
    let b = build(vec![
        mk_transition_section(vec![
            mk_eq(mk_next("clk"), mk_sum(mk_var("clk"), TransitionExpr::Const(1))),
            mk_eq(mk_next("p"), mk_prod(mk_var("p"), mk_var("k"))),
        ]),
        mk_periodic_section(&[("k", &[1, 0])]),
        mk_boundary_section(vec![
            mk_bound("clk", Boundary::First, 0),
            mk_bound("p", Boundary::Last, 1),
        ]),
        mk_pub_inputs_section(&[("stack_inputs", 16)]),
        mk_trace(&["clk"], &["p"]),
        SourceSection::AirDef(mk_ident("CheckAir")),
    ]);

    assert_eq!(a.air_name(), b.air_name());
    assert_eq!(a.public_inputs(), b.public_inputs());
    assert_eq!(a.periodic_columns(), b.periodic_columns());
    assert_eq!(a.periodic_cycle_lens(), b.periodic_cycle_lens());
    assert_eq!(a.num_main_assertions(), b.num_main_assertions());
    assert_eq!(a.num_aux_assertions(), b.num_aux_assertions());
    assert_eq!(
        a.main_first_boundary_constraints(),
        b.main_first_boundary_constraints()
    );
    assert_eq!(
        a.aux_last_boundary_constraints(),
        b.aux_last_boundary_constraints()
    );
    assert_eq!(
        a.main_transition_constraints(),
        b.main_transition_constraints()
    );
    assert_eq!(a.aux_transition_constraints(), b.aux_transition_constraints());
    assert_eq!(a.main_degrees(), b.main_degrees());
    assert_eq!(a.aux_degrees(), b.aux_degrees());
    assert_eq!(
        a.transition_graph().num_nodes(),
        b.transition_graph().num_nodes()
    );
}

#[test]
fn missing_sections_always_fail() {
    // No boundary section.
    let source = Source(vec![
        mk_trace(&["clk"], &[]),
        mk_transition_section(vec![mk_eq(mk_next("clk"), mk_var("clk"))]),
    ]);
    assert_eq!(AirIR::from_source(&source).unwrap_err(), SemanticError::MissingSection(SectionKind::BoundaryConstraints));

    // No transition section.
    let source = Source(vec![
        mk_trace(&["clk"], &[]),
        mk_boundary_section(vec![mk_bound("clk", Boundary::First, 0)]),
    ]);
    assert_eq!(AirIR::from_source(&source).unwrap_err(), SemanticError::MissingSection(SectionKind::TransitionConstraints));
}

#[test]
fn clk_scenario_builds_with_two_assertions_and_degree_one() {
    let source = Source(vec![
        mk_trace(&["clk"], &[]),
        mk_boundary_section(vec![
            mk_bound("clk", Boundary::First, 0),
            mk_bound("clk", Boundary::Last, 1),
        ]),
        mk_transition_section(vec![mk_eq(
            mk_next("clk"),
            mk_sum(mk_var("clk"), TransitionExpr::Const(1)),
        )]),
    ]);
    let ir = AirIR::from_source(&source).unwrap();
    assert_eq!(ir.num_main_assertions(), 2);
    let degrees = ir.main_degrees();
    assert_eq!(degrees.len(), 1);
    assert_eq!(degrees[0].base(), 1);
}

#[test]
fn duplicate_first_assertion_is_reported() {
    let source = Source(vec![
        mk_trace(&["clk"], &[]),
        mk_boundary_section(vec![
            mk_bound("clk", Boundary::First, 0),
            mk_bound("clk", Boundary::First, 0),
        ]),
        mk_transition_section(vec![mk_eq(
            mk_next("clk"),
            mk_sum(mk_var("clk"), TransitionExpr::Const(1)),
        )]),
    ]);
    assert_eq!(AirIR::from_source(&source).unwrap_err(), SemanticError::DuplicateBoundaryAssertion(0, Boundary::First));
}

#[test]
fn undeclared_column_is_reported() {
    let source = Source(vec![mk_transition_section(vec![mk_eq(
        mk_next("clk"),
        mk_sum(mk_var("clk"), TransitionExpr::Const(1)),
    )])]);
    assert_eq!(AirIR::from_source(&source).unwrap_err(), SemanticError::UndeclaredIdentifier("clk".to_string()));
}

#[test]
fn exponent_dominates_subtraction_degree() {
    // clk'^2 - clk = 1: degree max(2, 1) = 2.
    let ir = AirIR::from_source(&clk_source(vec![mk_eq(
        mk_diff(mk_pow(mk_next("clk"), 2), mk_var("clk")),
        TransitionExpr::Const(1),
    )]))
    .unwrap();
    assert_eq!(ir.main_degrees()[0].base(), 2);
}

#[test]
fn invalid_cycle_lengths_are_rejected() {
    for bad in [0usize, 1, 3, 6] {
        let values = vec![1u64; bad];
        let source = Source(vec![
            mk_trace(&["clk"], &[]),
            mk_periodic_section(&[("k", &values)]),
        ]);
        assert_eq!(AirIR::from_source(&source).unwrap_err(), SemanticError::InvalidPeriodicColumnCycle("k".to_string(), bad), "cycle length {} must be rejected",
            bad);
    }
    // Powers of two of at least the minimum length pass.
    let source = Source(vec![
        mk_trace(&["clk"], &[]),
        mk_periodic_section(&[("k2", &[1, 0]), ("k8", &[1, 0, 0, 0, 0, 0, 0, 0])]),
        mk_boundary_section(vec![mk_bound("clk", Boundary::First, 0)]),
        mk_transition_section(vec![mk_eq(mk_next("clk"), mk_var("clk"))]),
    ]);
    let ir = AirIR::from_source(&source).unwrap();
    assert_eq!(ir.periodic_cycle_lens(), vec![2, 8]);
}

#[test]
fn next_row_in_boundary_is_rejected() {
    let source = Source(vec![
        mk_trace(&["clk"], &[]),
        mk_boundary_section(vec![BoundaryConstraint {
            column: mk_ident("clk"),
            offset: RowOffset::Next,
            boundary: Boundary::First,
            value: BoundaryExpr::Const(0),
        }]),
        mk_transition_section(vec![mk_eq(mk_next("clk"), mk_var("clk"))]),
    ]);
    assert_eq!(AirIR::from_source(&source).unwrap_err(), SemanticError::InvalidNextRowUsage("clk".to_string()));
}

#[test]
fn auxiliary_references_classify_constraints() {
    let source = Source(vec![
        mk_trace(&["clk"], &["p"]),
        mk_boundary_section(vec![
            mk_bound("clk", Boundary::First, 0),
            mk_bound("p", Boundary::First, 1),
        ]),
        mk_transition_section(vec![
            mk_eq(mk_next("clk"), mk_var("clk")),
            mk_eq(mk_next("p"), mk_prod(mk_var("p"), mk_var("clk"))),
        ]),
    ]);
    let ir = AirIR::from_source(&source).unwrap();
    assert_eq!(ir.num_main_assertions(), 1);
    assert_eq!(ir.num_aux_assertions(), 1);
    assert_eq!(ir.main_transition_constraints().len(), 1);
    assert_eq!(ir.aux_transition_constraints().len(), 1);
    assert_eq!(ir.main_degrees().len(), 1);
    let aux_degrees = ir.aux_degrees();
    assert_eq!(aux_degrees.len(), 1);
    assert_eq!(aux_degrees[0].base(), 2);
}

#[test]
fn air_name_defaults_and_overrides() {
    let ir = AirIR::from_source(&clk_source(vec![mk_eq(mk_next("clk"), mk_var("clk"))]))
        .unwrap();
    assert_eq!(ir.air_name(), "CustomAir");

    let mut sections = vec![SourceSection::AirDef(mk_ident("CounterAir"))];
    sections.extend(clk_source(vec![mk_eq(mk_next("clk"), mk_var("clk"))]).0);
    let ir = AirIR::from_source(&Source(sections)).unwrap();
    assert_eq!(ir.air_name(), "CounterAir");
}

#[test]
fn public_inputs_flow_into_the_ir() {
    let source = Source(vec![
        mk_trace(&["clk"], &[]),
        mk_pub_inputs_section(&[("stack_inputs", 16), ("stack_outputs", 16)]),
        SourceSection::BoundaryConstraints(BoundaryConstraints {
            boundary_constraints: vec![BoundaryConstraint {
                column: mk_ident("clk"),
                offset: RowOffset::Current,
                boundary: Boundary::First,
                value: BoundaryExpr::PubInput(mk_ident("stack_inputs"), 0),
            }],
        }),
        mk_transition_section(vec![mk_eq(
            mk_next("clk"),
            TransitionExpr::PubInput(mk_ident("stack_inputs"), 1),
        )]),
    ]);
    let ir = AirIR::from_source(&source).unwrap();
    assert_eq!(
        ir.public_inputs(),
        &vec![
            ("stack_inputs".to_string(), 16usize),
            ("stack_outputs".to_string(), 16usize)
        ]
    );
    assert_eq!(
        ir.main_first_boundary_constraints(),
        &vec![(0usize, BoundaryExpr::PubInput(mk_ident("stack_inputs"), 0))]
    );
    // A public input element has base degree 0; the next-row column gives 1.
    assert_eq!(ir.main_degrees()[0].base(), 1);
}

#[test]
fn random_values_have_degree_zero() {
    let ir = AirIR::from_source(&clk_source(vec![mk_eq(
        mk_next("clk"),
        mk_prod(TransitionExpr::Rand(0), mk_var("clk")),
    )]))
    .unwrap();
    assert_eq!(ir.main_degrees()[0].base(), 1);
}

#[test]
fn non_column_names_cannot_stand_in_constraints() {
    // A boundary assertion on a periodic column's name: not a trace column.
    let source = Source(vec![
        mk_trace(&["clk"], &[]),
        mk_periodic_section(&[("k", &[1, 0])]),
        mk_boundary_section(vec![mk_bound("k", Boundary::First, 0)]),
        mk_transition_section(vec![mk_eq(mk_next("clk"), mk_var("clk"))]),
    ]);
    assert_eq!(
        AirIR::from_source(&source).unwrap_err(),
        SemanticError::UndeclaredIdentifier("k".to_string())
    );

    // A bare reference to a public input in a transition constraint: a
    // public input must be referenced with an element index.
    let source = Source(vec![
        mk_trace(&["clk"], &[]),
        mk_pub_inputs_section(&[("inputs", 4)]),
        mk_boundary_section(vec![mk_bound("clk", Boundary::First, 0)]),
        mk_transition_section(vec![mk_eq(mk_next("clk"), mk_var("inputs"))]),
    ]);
    assert_eq!(
        AirIR::from_source(&source).unwrap_err(),
        SemanticError::UndeclaredIdentifier("inputs".to_string())
    );
}

#[test]
fn next_row_of_non_trace_is_rejected() {
    // `k'` where `k` is periodic: nothing has a next row but a trace column.
    let source = Source(vec![
        mk_trace(&["clk"], &[]),
        mk_periodic_section(&[("k", &[1, 0])]),
        mk_boundary_section(vec![mk_bound("clk", Boundary::First, 0)]),
        mk_transition_section(vec![mk_eq(mk_next("k"), mk_var("clk"))]),
    ]);
    assert_eq!(
        AirIR::from_source(&source).unwrap_err(),
        SemanticError::InvalidNextRowUsage("k".to_string())
    );
}
