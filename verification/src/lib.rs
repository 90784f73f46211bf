//! Semantic middle-end for an AIR constraint language: turns a parsed source
//! into a validated intermediate representation with a shared algebraic
//! expression graph, per-constraint degree analysis, and boundary-constraint
//! bookkeeping.
//!
//! Construction runs in two passes over the source sections: pass 1 collects
//! every declaration into a symbol table enforcing global name uniqueness;
//! pass 2 resolves each boundary and transition constraint against it. The
//! relative order of sections never affects the outcome, only the order of
//! declarations within a category does. Construction stops at the first
//! semantic error; once it succeeds, the returned IR is read-only.

use vstd::prelude::*;

pub mod ast;
pub mod boundary_constraints;
pub mod error;
pub mod symbol_table;
pub mod transition_constraints;

pub use ast::{BoundaryExpr, Identifier, PublicInput};
pub use transition_constraints::{NodeIndex, TransitionConstraintDegree};
use boundary_constraints::BoundaryConstraints;
use error::{build_fault_matches, BuildFault, SectionKind, SemanticError};
use symbol_table::{
    aux_col_entries, decls_admissible, first_colliding, first_periodic_fault,
    lemma_admissible_no_fault, lemma_first_periodic_fault_skip, lookup_in, main_col_entries,
    names_of, periodic_col_entries, periodic_names, pub_input_entries, pub_input_names,
    valid_cycle_len, IdentifierType, SymbolTable,
};
use boundary_constraints::{bucket_contains, insert_pos};
use transition_constraints::{
    base_degree_of, build_constraint, capped, cycles_of, first_fault, uses_aux, AlgebraicGraph,
    Operation, ResolveFault, TransitionConstraints,
};
use vstd::string::StringExecFns;

verus! {

/// Declared public inputs: `(name, size)` in declaration order.
pub type PublicInputs = Vec<(String, usize)>;

/// Declared periodic columns: one cycle of values each, in declaration
/// order.
pub type PeriodicColumns = Vec<Vec<u64>>;

/// The name the source gives the AIR: the last name-definition section
/// wins, and without one the default applies.
pub open spec fn air_name_of(sections: Seq<ast::SourceSection>) -> Seq<char>
    decreases sections.len(),
{
    if sections.len() == 0 {
        "CustomAir"@
    } else {
        match sections.last() {
            ast::SourceSection::AirDef(id) => id@,
            _ => air_name_of(sections.drop_last()),
        }
    }
}

/// The public inputs one section declares.
pub open spec fn pubs_sec(section: ast::SourceSection) -> Seq<(Seq<char>, usize)> {
    match section {
        ast::SourceSection::PublicInputs(inputs) => inputs@.map(
            |i: int, d: ast::PublicInput| (d.name@, d.size),
        ),
        _ => Seq::empty(),
    }
}

/// The periodic column value lists one section declares.
pub open spec fn periodic_sec(section: ast::SourceSection) -> Seq<Seq<u64>> {
    match section {
        ast::SourceSection::PeriodicColumns(columns) => columns@.map(
            |i: int, d: ast::PeriodicColumn| d.values@,
        ),
        _ => Seq::empty(),
    }
}

/// All public inputs the source declares, in source order.
pub open spec fn pubs_of(sections: Seq<ast::SourceSection>) -> Seq<(Seq<char>, usize)>
    decreases sections.len(),
{
    if sections.len() == 0 {
        Seq::empty()
    } else {
        pubs_of(sections.drop_last()) + pubs_sec(sections.last())
    }
}

/// All periodic column value lists the source declares, in source order.
pub open spec fn periodic_of(sections: Seq<ast::SourceSection>) -> Seq<Seq<u64>>
    decreases sections.len(),
{
    if sections.len() == 0 {
        Seq::empty()
    } else {
        periodic_of(sections.drop_last()) + periodic_sec(sections.last())
    }
}

/// Whether a section is an AIR name definition.
pub open spec fn is_air_def(s: ast::SourceSection) -> bool {
    s matches ast::SourceSection::AirDef(_)
}

/// Whether a section declares public inputs.
pub open spec fn is_pub_inputs(s: ast::SourceSection) -> bool {
    s matches ast::SourceSection::PublicInputs(_)
}

/// Whether a section declares periodic columns.
pub open spec fn is_periodic(s: ast::SourceSection) -> bool {
    s matches ast::SourceSection::PeriodicColumns(_)
}

/// Section order independence, one step at a time: swapping two adjacent
/// sections changes none of the declaration outputs of a build, as long as
/// the two are not of the same declaring kind. Any reordering of sections
/// that keeps each kind's internal order is a chain of such swaps, so the
/// name, the public inputs and the periodic columns of a built IR do not
/// depend on where its sections stand relative to each other.
pub proof fn lemma_adjacent_section_swap(
    a: Seq<ast::SourceSection>,
    b: Seq<ast::SourceSection>,
    i: int,
)
    requires
        0 <= i,
        i + 1 < a.len(),
        b == a.update(i, a[i + 1]).update(i + 1, a[i]),
    ensures
        !(is_air_def(a[i]) && is_air_def(a[i + 1])) ==> air_name_of(b) == air_name_of(a),
        !(is_pub_inputs(a[i]) && is_pub_inputs(a[i + 1])) ==> pubs_of(b) == pubs_of(a),
        !(is_periodic(a[i]) && is_periodic(a[i + 1])) ==> periodic_of(b) == periodic_of(a),
    decreases a.len(),
{
    assert(b.len() == a.len());
    if i + 1 == a.len() - 1 {
        let dd = a.drop_last().drop_last();
        assert(b.last() == a[i]);
        assert(b.drop_last().last() == a[i + 1]);
        assert(a.last() == a[i + 1]);
        assert(a.drop_last().last() == a[i]);
        assert(b.drop_last().drop_last() =~= dd);
        assert(a.drop_last().drop_last() =~= dd);
        assert(air_name_of(a) == (match a[i + 1] {
            ast::SourceSection::AirDef(id) => id@,
            _ => air_name_of(a.drop_last()),
        }));
        assert(air_name_of(a.drop_last()) == (match a[i] {
            ast::SourceSection::AirDef(id) => id@,
            _ => air_name_of(dd),
        }));
        assert(air_name_of(b) == (match a[i] {
            ast::SourceSection::AirDef(id) => id@,
            _ => air_name_of(b.drop_last()),
        }));
        assert(air_name_of(b.drop_last()) == (match a[i + 1] {
            ast::SourceSection::AirDef(id) => id@,
            _ => air_name_of(dd),
        }));
        assert(pubs_of(a) == pubs_of(a.drop_last()) + pubs_sec(a[i + 1]));
        assert(pubs_of(a.drop_last()) == pubs_of(dd) + pubs_sec(a[i]));
        assert(pubs_of(b) == pubs_of(b.drop_last()) + pubs_sec(a[i]));
        assert(pubs_of(b.drop_last()) == pubs_of(dd) + pubs_sec(a[i + 1]));
        if !(is_pub_inputs(a[i]) && is_pub_inputs(a[i + 1])) {
            if !is_pub_inputs(a[i]) {
                assert(pubs_sec(a[i]) =~= Seq::<(Seq<char>, usize)>::empty());
            } else {
                assert(pubs_sec(a[i + 1]) =~= Seq::<(Seq<char>, usize)>::empty());
            }
            assert(pubs_of(b) =~= pubs_of(a));
        }
        assert(periodic_of(a) == periodic_of(a.drop_last()) + periodic_sec(a[i + 1]));
        assert(periodic_of(a.drop_last()) == periodic_of(dd) + periodic_sec(a[i]));
        assert(periodic_of(b) == periodic_of(b.drop_last()) + periodic_sec(a[i]));
        assert(periodic_of(b.drop_last()) == periodic_of(dd) + periodic_sec(a[i + 1]));
        if !(is_periodic(a[i]) && is_periodic(a[i + 1])) {
            if !is_periodic(a[i]) {
                assert(periodic_sec(a[i]) =~= Seq::<Seq<u64>>::empty());
            } else {
                assert(periodic_sec(a[i + 1]) =~= Seq::<Seq<u64>>::empty());
            }
            assert(periodic_of(b) =~= periodic_of(a));
        }
    } else {
        assert(b.last() == a.last());
        assert(b.drop_last() =~= a.drop_last().update(i, a.drop_last()[i + 1]).update(
            i + 1,
            a.drop_last()[i],
        ));
        lemma_adjacent_section_swap(a.drop_last(), b.drop_last(), i);
    }
}

/// The declaration state a source's sections build up, section by section:
/// the symbol table's entries with their assigned indices, the category
/// counters, and the collected public-input and periodic-column lists.
pub struct DeclState {
    pub entries: Seq<(Seq<char>, IdentifierType)>,
    pub num_main: int,
    pub num_aux: int,
    pub pubs: Seq<(Seq<char>, usize)>,
    pub periodic: Seq<Seq<u64>>,
}

/// The declaration state after processing `sections` in order, ignoring
/// faults: what pass 1 holds when every declaration is admissible.
pub open spec fn decl_state_of(sections: Seq<ast::SourceSection>) -> DeclState
    decreases sections.len(),
{
    if sections.len() == 0 {
        DeclState {
            entries: Seq::empty(),
            num_main: 0,
            num_aux: 0,
            pubs: Seq::empty(),
            periodic: Seq::empty(),
        }
    } else {
        let st = decl_state_of(sections.drop_last());
        match sections.last() {
            ast::SourceSection::TraceCols(tc) => DeclState {
                entries: st.entries + main_col_entries(names_of(tc.main_cols@), st.num_main)
                    + aux_col_entries(names_of(tc.aux_cols@), st.num_aux),
                num_main: st.num_main + tc.main_cols@.len(),
                num_aux: st.num_aux + tc.aux_cols@.len(),
                pubs: st.pubs,
                periodic: st.periodic,
            },
            ast::SourceSection::PublicInputs(inputs) => DeclState {
                entries: st.entries + pub_input_entries(inputs@, st.pubs.len() as int),
                num_main: st.num_main,
                num_aux: st.num_aux,
                pubs: st.pubs + inputs@.map(|i: int, d: ast::PublicInput| (d.name@, d.size)),
                periodic: st.periodic,
            },
            ast::SourceSection::PeriodicColumns(columns) => DeclState {
                entries: st.entries + periodic_col_entries(columns@, st.periodic.len() as int),
                num_main: st.num_main,
                num_aux: st.num_aux,
                pubs: st.pubs,
                periodic: st.periodic + columns@.map(|i: int, d: ast::PeriodicColumn| d.values@),
            },
            _ => st,
        }
    }
}

/// Whether every declaration of the source is admissible: no name collides
/// with an earlier declaration of any kind, and every periodic column
/// declares a valid cycle. Exactly the sources whose pass 1 succeeds.
pub open spec fn decls_ok(sections: Seq<ast::SourceSection>) -> bool
    decreases sections.len(),
{
    if sections.len() == 0 {
        true
    } else {
        let st = decl_state_of(sections.drop_last());
        decls_ok(sections.drop_last()) && match sections.last() {
            ast::SourceSection::TraceCols(tc) => decls_admissible(
                st.entries,
                names_of(tc.main_cols@),
            ) && decls_admissible(
                st.entries + main_col_entries(names_of(tc.main_cols@), st.num_main),
                names_of(tc.aux_cols@),
            ),
            ast::SourceSection::PublicInputs(inputs) => decls_admissible(
                st.entries,
                pub_input_names(inputs@),
            ),
            ast::SourceSection::PeriodicColumns(columns) => decls_admissible(
                st.entries,
                periodic_names(columns@),
            ) && forall|k: int|
                0 <= k < columns@.len() ==> valid_cycle_len(
                    (#[trigger] columns@[k]).values@.len() as int,
                ),
            _ => true,
        }
    }
}

/// Admissibility of a whole source implies admissibility of each of its
/// prefixes.
pub proof fn lemma_decls_ok_prefix(sections: Seq<ast::SourceSection>, j: int)
    requires
        0 <= j <= sections.len(),
        decls_ok(sections),
    ensures
        decls_ok(sections.take(j)),
    decreases sections.len(),
{
    if j == sections.len() {
        assert(sections.take(j) =~= sections);
    } else {
        assert(sections.take(j) =~= sections.drop_last().take(j));
        lemma_decls_ok_prefix(sections.drop_last(), j);
    }
}

/// An error raised at section `i`, with every earlier section clean, is the
/// first fault of the whole source.
proof fn lemma_err_is_first_fault(
    sections: Seq<ast::SourceSection>,
    i: int,
    f: Option<BuildFault>,
)
    requires
        0 <= i < sections.len(),
        pass1_fault(sections.take(i)) is None,
        f == section_decl_fault(decl_state_of(sections.take(i)), sections[i]),
        f is Some,
    ensures
        pass1_fault(sections) == f,
        build_outcome(sections) matches Err(g) && Some(g) == f,
{
    assert(sections.take(i + 1).drop_last() =~= sections.take(i));
    assert(sections.take(i + 1).last() == sections[i]);
    assert(pass1_fault(sections.take(i + 1)) == f);
    lemma_pass1_fault_extend(sections, i + 1);
}

/// A prefix that is not admissible refutes the whole source.
proof fn lemma_not_decls_ok(sections: Seq<ast::SourceSection>, i: int)
    requires
        0 <= i < sections.len(),
        !decls_ok(sections.take(i + 1)),
    ensures
        !decls_ok(sections),
{
    if decls_ok(sections) {
        lemma_decls_ok_prefix(sections, i + 1);
    }
}

/// The first declaration fault one section raises against the state built
/// so far: in a trace-column section the main columns are declared before
/// the auxiliary ones.
pub open spec fn section_decl_fault(st: DeclState, section: ast::SourceSection) -> Option<
    BuildFault,
> {
    match section {
        ast::SourceSection::TraceCols(tc) => {
            let mn = names_of(tc.main_cols@);
            if first_colliding(st.entries, mn) < mn.len() {
                Some(BuildFault::Duplicate(mn[first_colliding(st.entries, mn)]))
            } else {
                let m2 = st.entries + main_col_entries(mn, st.num_main);
                let an = names_of(tc.aux_cols@);
                if first_colliding(m2, an) < an.len() {
                    Some(BuildFault::Duplicate(an[first_colliding(m2, an)]))
                } else {
                    None
                }
            }
        },
        ast::SourceSection::PublicInputs(inputs) => {
            let ns = pub_input_names(inputs@);
            if first_colliding(st.entries, ns) < ns.len() {
                Some(BuildFault::Duplicate(ns[first_colliding(st.entries, ns)]))
            } else {
                None
            }
        },
        ast::SourceSection::PeriodicColumns(columns) => first_periodic_fault(st.entries, columns@),
        _ => None,
    }
}

/// The first declaration fault of the whole source, in processing order.
pub open spec fn pass1_fault(sections: Seq<ast::SourceSection>) -> Option<BuildFault>
    decreases sections.len(),
{
    if sections.len() == 0 {
        None
    } else {
        let earlier = pass1_fault(sections.drop_last());
        if earlier is Some {
            earlier
        } else {
            section_decl_fault(decl_state_of(sections.drop_last()), sections.last())
        }
    }
}

proof fn lemma_pass1_fault_extend(sections: Seq<ast::SourceSection>, j: int)
    requires
        0 <= j <= sections.len(),
        pass1_fault(sections.take(j)) is Some,
    ensures
        pass1_fault(sections) == pass1_fault(sections.take(j)),
    decreases sections.len(),
{
    if j == sections.len() {
        assert(sections.take(j) =~= sections);
    } else {
        assert(sections.take(j) =~= sections.drop_last().take(j));
        lemma_pass1_fault_extend(sections.drop_last(), j);
    }
}

/// The constraint state pass 2 threads through the source: the four
/// boundary buckets, the graph, the two root lists, and the first fault if
/// one was hit.
pub struct BuildState {
    pub main_first: Seq<(usize, ast::BoundaryExpr)>,
    pub main_last: Seq<(usize, ast::BoundaryExpr)>,
    pub aux_first: Seq<(usize, ast::BoundaryExpr)>,
    pub aux_last: Seq<(usize, ast::BoundaryExpr)>,
    pub nodes: Seq<Operation>,
    pub main: Seq<NodeIndex>,
    pub aux: Seq<NodeIndex>,
    pub fault: Option<BuildFault>,
}

/// The state before any constraint is processed.
pub open spec fn empty_build_state() -> BuildState {
    BuildState {
        main_first: Seq::empty(),
        main_last: Seq::empty(),
        aux_first: Seq::empty(),
        aux_last: Seq::empty(),
        nodes: Seq::empty(),
        main: Seq::empty(),
        aux: Seq::empty(),
        fault: None,
    }
}

/// One boundary constraint applied to the state: resolution, next-row
/// check, duplicate check, then a sorted insert into its bucket.
pub open spec fn bc_step(
    m: Seq<(Seq<char>, IdentifierType)>,
    st: BuildState,
    c: ast::BoundaryConstraint,
) -> BuildState {
    if st.fault is Some {
        st
    } else {
        match lookup_in(m, c.column@) {
            Some(IdentifierType::MainTraceColumn(col)) => if c.offset == ast::RowOffset::Next {
                BuildState { fault: Some(BuildFault::NextRow(c.column@)), ..st }
            } else {
                match c.boundary {
                    ast::Boundary::First => if bucket_contains(st.main_first, col) {
                        BuildState {
                            fault: Some(BuildFault::DuplicateBoundary(col, ast::Boundary::First)),
                            ..st
                        }
                    } else {
                        BuildState {
                            main_first: st.main_first.insert(
                                insert_pos(st.main_first, col),
                                (col, c.value),
                            ),
                            ..st
                        }
                    },
                    ast::Boundary::Last => if bucket_contains(st.main_last, col) {
                        BuildState {
                            fault: Some(BuildFault::DuplicateBoundary(col, ast::Boundary::Last)),
                            ..st
                        }
                    } else {
                        BuildState {
                            main_last: st.main_last.insert(
                                insert_pos(st.main_last, col),
                                (col, c.value),
                            ),
                            ..st
                        }
                    },
                }
            },
            Some(IdentifierType::AuxTraceColumn(col)) => if c.offset == ast::RowOffset::Next {
                BuildState { fault: Some(BuildFault::NextRow(c.column@)), ..st }
            } else {
                match c.boundary {
                    ast::Boundary::First => if bucket_contains(st.aux_first, col) {
                        BuildState {
                            fault: Some(BuildFault::DuplicateBoundary(col, ast::Boundary::First)),
                            ..st
                        }
                    } else {
                        BuildState {
                            aux_first: st.aux_first.insert(
                                insert_pos(st.aux_first, col),
                                (col, c.value),
                            ),
                            ..st
                        }
                    },
                    ast::Boundary::Last => if bucket_contains(st.aux_last, col) {
                        BuildState {
                            fault: Some(BuildFault::DuplicateBoundary(col, ast::Boundary::Last)),
                            ..st
                        }
                    } else {
                        BuildState {
                            aux_last: st.aux_last.insert(
                                insert_pos(st.aux_last, col),
                                (col, c.value),
                            ),
                            ..st
                        }
                    },
                }
            },
            _ => BuildState { fault: Some(BuildFault::Undeclared(c.column@)), ..st },
        }
    }
}

/// The fault a failed expression resolution surfaces.
pub open spec fn fault_of_resolve(f: ResolveFault) -> BuildFault {
    match f {
        ResolveFault::Undeclared(n) => BuildFault::Undeclared(n),
        ResolveFault::NextRow(n) => BuildFault::NextRow(n),
    }
}

/// One transition constraint applied to the state: both sides resolved
/// left to right, then `lhs - rhs` built in the shared graph and the root
/// appended to the auxiliary or main list.
pub open spec fn tc_step(
    m: Seq<(Seq<char>, IdentifierType)>,
    st: BuildState,
    c: ast::TransitionConstraint,
) -> BuildState {
    if st.fault is Some {
        st
    } else {
        match first_fault(m, c.lhs) {
            Some(f) => BuildState { fault: Some(fault_of_resolve(f)), ..st },
            None => match first_fault(m, c.rhs) {
                Some(f) => BuildState { fault: Some(fault_of_resolve(f)), ..st },
                None => {
                    let (s3, rt) = build_constraint(m, st.nodes, c);
                    let root = NodeIndex(rt as usize);
                    if uses_aux(m, c.lhs) || uses_aux(m, c.rhs) {
                        BuildState { nodes: s3, aux: st.aux.push(root), ..st }
                    } else {
                        BuildState { nodes: s3, main: st.main.push(root), ..st }
                    }
                },
            },
        }
    }
}

/// A boundary-constraint list applied from position `j` on.
pub open spec fn bc_fold(
    m: Seq<(Seq<char>, IdentifierType)>,
    st: BuildState,
    list: Seq<ast::BoundaryConstraint>,
    j: int,
) -> BuildState
    decreases list.len() - j,
{
    if !(0 <= j < list.len()) {
        st
    } else {
        bc_fold(m, bc_step(m, st, list[j]), list, j + 1)
    }
}

/// A transition-constraint list applied from position `j` on.
pub open spec fn tc_fold(
    m: Seq<(Seq<char>, IdentifierType)>,
    st: BuildState,
    list: Seq<ast::TransitionConstraint>,
    j: int,
) -> BuildState
    decreases list.len() - j,
{
    if !(0 <= j < list.len()) {
        st
    } else {
        tc_fold(m, tc_step(m, st, list[j]), list, j + 1)
    }
}

/// One source section applied to the constraint state.
pub open spec fn pass2_step(
    m: Seq<(Seq<char>, IdentifierType)>,
    st: BuildState,
    section: ast::SourceSection,
) -> BuildState {
    match section {
        ast::SourceSection::BoundaryConstraints(bcs) => bc_fold(m, st, bcs.boundary_constraints@, 0),
        ast::SourceSection::TransitionConstraints(tcs) => tc_fold(
            m,
            st,
            tcs.transition_constraints@,
            0,
        ),
        _ => st,
    }
}

/// The constraint state after pass 2 over the whole source, with entries
/// `m` from pass 1.
pub open spec fn pass2_of(
    m: Seq<(Seq<char>, IdentifierType)>,
    sections: Seq<ast::SourceSection>,
) -> BuildState
    decreases sections.len(),
{
    if sections.len() == 0 {
        empty_build_state()
    } else {
        pass2_step(m, pass2_of(m, sections.drop_last()), sections.last())
    }
}

proof fn lemma_bc_fold_sticky(
    m: Seq<(Seq<char>, IdentifierType)>,
    st: BuildState,
    list: Seq<ast::BoundaryConstraint>,
    j: int,
)
    requires
        st.fault is Some,
    ensures
        bc_fold(m, st, list, j) == st,
    decreases list.len() - j,
{
    if 0 <= j < list.len() {
        lemma_bc_fold_sticky(m, st, list, j + 1);
    }
}

proof fn lemma_tc_fold_sticky(
    m: Seq<(Seq<char>, IdentifierType)>,
    st: BuildState,
    list: Seq<ast::TransitionConstraint>,
    j: int,
)
    requires
        st.fault is Some,
    ensures
        tc_fold(m, st, list, j) == st,
    decreases list.len() - j,
{
    if 0 <= j < list.len() {
        lemma_tc_fold_sticky(m, st, list, j + 1);
    }
}

proof fn lemma_pass2_sticky(
    m: Seq<(Seq<char>, IdentifierType)>,
    sections: Seq<ast::SourceSection>,
    j: int,
)
    requires
        0 <= j <= sections.len(),
        pass2_of(m, sections.take(j)).fault is Some,
    ensures
        pass2_of(m, sections) == pass2_of(m, sections.take(j)),
    decreases sections.len(),
{
    if j == sections.len() {
        assert(sections.take(j) =~= sections);
    } else {
        assert(sections.take(j) =~= sections.drop_last().take(j));
        lemma_pass2_sticky(m, sections.drop_last(), j);
        let st = pass2_of(m, sections.drop_last());
        match sections.last() {
            ast::SourceSection::BoundaryConstraints(bcs) => {
                lemma_bc_fold_sticky(m, st, bcs.boundary_constraints@, 0);
            },
            ast::SourceSection::TransitionConstraints(tcs) => {
                lemma_tc_fold_sticky(m, st, tcs.transition_constraints@, 0);
            },
            _ => {},
        }
    }
}

/// What building the source yields: the final constraint state, or the
/// first fault in processing order — declarations first, then constraints
/// section by section, then the completeness gate, boundary side first.
pub open spec fn build_outcome(sections: Seq<ast::SourceSection>) -> Result<
    BuildState,
    BuildFault,
> {
    match pass1_fault(sections) {
        Some(f) => Err(f),
        None => {
            let m = decl_state_of(sections).entries;
            let st = pass2_of(m, sections);
            match st.fault {
                Some(f) => Err(f),
                None => if st.main_first.len() + st.main_last.len() + st.aux_first.len()
                    + st.aux_last.len() == 0 {
                    Err(BuildFault::Missing(SectionKind::BoundaryConstraints))
                } else if st.main.len() + st.aux.len() == 0 {
                    Err(BuildFault::Missing(SectionKind::TransitionConstraints))
                } else {
                    Ok(st)
                },
            }
        },
    }
}

/// The pass-2 state that a boundary store, a transition store and no fault
/// assemble.
pub open spec fn assembled(bc: BoundaryConstraints, tc: TransitionConstraints) -> BuildState {
    BuildState {
        main_first: bc.main_first_model(),
        main_last: bc.main_last_model(),
        aux_first: bc.aux_first_model(),
        aux_last: bc.aux_last_model(),
        nodes: tc.graph_nodes(),
        main: tc.main_model(),
        aux: tc.aux_model(),
        fault: None,
    }
}

/// The validated intermediate representation of an AIR. Exclusively owns
/// its graph, constraint stores and declaration lists; after construction
/// the public surface is read-only.
#[derive(Debug)]
pub struct AirIR {
    air_name: String,
    public_inputs: PublicInputs,
    periodic_columns: PeriodicColumns,
    boundary_constraints: BoundaryConstraints,
    transition_constraints: TransitionConstraints,
}

impl AirIR {
    /// The AIR's name.
    pub closed spec fn air_name_model(&self) -> Seq<char> {
        self.air_name@
    }

    /// The declared public inputs as `(name, size)` pairs.
    pub closed spec fn public_inputs_model(&self) -> Seq<(Seq<char>, usize)> {
        self.public_inputs@.map(|i: int, e: (String, usize)| (e.0@, e.1))
    }

    /// The declared periodic columns' value lists.
    pub closed spec fn periodic_model(&self) -> Seq<Seq<u64>> {
        self.periodic_columns@.map(|i: int, v: Vec<u64>| v@)
    }

    /// Cycle lengths of the periodic columns, in declaration order.
    pub open spec fn periodic_lens_model(&self) -> Seq<usize> {
        Seq::new(self.periodic_model().len(), |i: int| self.periodic_model()[i].len() as usize)
    }

    /// The boundary constraint store.
    pub closed spec fn boundary(&self) -> BoundaryConstraints {
        self.boundary_constraints
    }

    /// The transition constraint store with its shared graph.
    pub closed spec fn transition(&self) -> TransitionConstraints {
        self.transition_constraints
    }

    /// Every IR in existence is internally consistent: the stores are
    /// well-formed and every periodic reference of the graph points at a
    /// declared periodic column.
    #[verifier::type_invariant]
    spec fn wf(&self) -> bool {
        &&& self.boundary_constraints.wf()
        &&& self.transition_constraints.wf()
        &&& self.transition_constraints.periodic_ok(self.periodic_lens_model())
    }

    /// Consumes a parsed source and builds the matching IR, or reports the
    /// first semantic error. Pass 1 collects declarations; pass 2 resolves
    /// constraints; a built IR always holds at least one boundary assertion
    /// and at least one transition constraint.
    ///
    /// The result is exactly what [`build_outcome`] prescribes: on success
    /// the boundary buckets, the shared graph and the two root lists equal
    /// the state the source folds to, and on failure the error is the first
    /// fault in processing order, payload included.
    pub fn from_source(source: &ast::Source) -> (r: Result<Self, SemanticError>)
        ensures
            match r {
                Ok(ir) => {
                    &&& build_outcome(source.0@) matches Ok(st)
                        && ir.boundary().main_first_model() == st.main_first
                        && ir.boundary().main_last_model() == st.main_last
                        && ir.boundary().aux_first_model() == st.aux_first
                        && ir.boundary().aux_last_model() == st.aux_last
                        && ir.transition().graph_nodes() == st.nodes
                        && ir.transition().main_model() == st.main
                        && ir.transition().aux_model() == st.aux
                    &&& decls_ok(source.0@)
                    &&& ir.air_name_model() == air_name_of(source.0@)
                    &&& ir.public_inputs_model() == pubs_of(source.0@)
                    &&& ir.periodic_model() == periodic_of(source.0@)
                    &&& ir.boundary().main_first_model().len()
                        + ir.boundary().main_last_model().len()
                        + ir.boundary().aux_first_model().len()
                        + ir.boundary().aux_last_model().len() > 0
                    &&& ir.transition().main_model().len() + ir.transition().aux_model().len() > 0
                },
                Err(e) => build_outcome(source.0@) matches Err(f) && build_fault_matches(e, f),
            },
            !decls_ok(source.0@) <==> (r matches Err(SemanticError::DuplicateIdentifier(_))
                || r matches Err(SemanticError::InvalidPeriodicColumnCycle(_, _))),
    {
        let sections = &source.0;
        // Default name, replaced by an AIR definition section if one occurs.
        let mut air_name = String::from_str("CustomAir");

        // Pass 1: declarations, into one symbol table enforcing uniqueness.
        let mut symbol_table = SymbolTable::new();
        proof {
            assert(sections@.take(0) =~= Seq::<ast::SourceSection>::empty());
            assert(symbol_table.public_inputs_model() =~= pubs_of(sections@.take(0)));
            assert(symbol_table.periodic_model() =~= periodic_of(sections@.take(0)));
            reveal_strlit("CustomAir");
        }
        let mut i: usize = 0;
        while i < sections.len()
            invariant
                sections@ == source.0@,
                i <= sections@.len(),
                symbol_table.wf(),
                air_name@ == air_name_of(sections@.take(i as int)),
                symbol_table.public_inputs_model() == pubs_of(sections@.take(i as int)),
                symbol_table.periodic_model() == periodic_of(sections@.take(i as int)),
                symbol_table.entries_model() == decl_state_of(sections@.take(i as int)).entries,
                symbol_table.num_main() as int == decl_state_of(sections@.take(i as int)).num_main,
                symbol_table.num_aux() as int == decl_state_of(sections@.take(i as int)).num_aux,
                symbol_table.public_inputs_model() == decl_state_of(
                    sections@.take(i as int),
                ).pubs,
                symbol_table.periodic_model() == decl_state_of(sections@.take(i as int)).periodic,
                decls_ok(sections@.take(i as int)),
                pass1_fault(sections@.take(i as int)) is None,
            decreases sections@.len() - i,
        {
            let ghost st = decl_state_of(sections@.take(i as int));
            proof {
                assert(sections@.take(i as int + 1).drop_last() =~= sections@.take(i as int));
                assert(sections@.take(i as int + 1).last() == sections@[i as int]);
            }
            match &sections[i] {
                ast::SourceSection::AirDef(id) => {
                    air_name = id.0.clone();
                },
                ast::SourceSection::TraceCols(columns) => {
                    match symbol_table.insert_main_trace_columns(&columns.main_cols) {
                        Ok(_) => {},
                        Err(e) => {
                            proof {
                                assert(!decls_admissible(st.entries, names_of(columns.main_cols@)));
                                assert(!decls_ok(sections@.take(i as int + 1)));
                                lemma_not_decls_ok(sections@, i as int);
                                lemma_err_is_first_fault(
                                    sections@,
                                    i as int,
                                    section_decl_fault(st, sections@[i as int]),
                                );
                            }
                            return Err(e);
                        },
                    }
                    match symbol_table.insert_aux_trace_columns(&columns.aux_cols) {
                        Ok(_) => {},
                        Err(e) => {
                            proof {
                                lemma_admissible_no_fault(
                                    st.entries,
                                    names_of(columns.main_cols@),
                                );
                                assert(!decls_admissible(
                                    st.entries + main_col_entries(
                                        names_of(columns.main_cols@),
                                        st.num_main,
                                    ),
                                    names_of(columns.aux_cols@),
                                ));
                                assert(!decls_ok(sections@.take(i as int + 1)));
                                lemma_not_decls_ok(sections@, i as int);
                                lemma_err_is_first_fault(
                                    sections@,
                                    i as int,
                                    section_decl_fault(st, sections@[i as int]),
                                );
                            }
                            return Err(e);
                        },
                    }
                    proof {
                        lemma_admissible_no_fault(st.entries, names_of(columns.main_cols@));
                        lemma_admissible_no_fault(
                            st.entries + main_col_entries(names_of(columns.main_cols@), st.num_main),
                            names_of(columns.aux_cols@),
                        );
                    }
                },
                ast::SourceSection::PublicInputs(inputs) => {
                    match symbol_table.insert_public_inputs(inputs) {
                        Ok(_) => {},
                        Err(e) => {
                            proof {
                                lemma_not_decls_ok(sections@, i as int);
                                lemma_err_is_first_fault(
                                    sections@,
                                    i as int,
                                    section_decl_fault(st, sections@[i as int]),
                                );
                            }
                            return Err(e);
                        },
                    }
                    proof {
                        lemma_admissible_no_fault(st.entries, pub_input_names(inputs@));
                    }
                },
                ast::SourceSection::PeriodicColumns(columns) => {
                    match symbol_table.insert_periodic_columns(columns) {
                        Ok(_) => {},
                        Err(e) => {
                            proof {
                                lemma_not_decls_ok(sections@, i as int);
                                symbol_table::lemma_first_periodic_fault_kind(
                                    st.entries,
                                    columns@,
                                    0,
                                );
                                lemma_err_is_first_fault(
                                    sections@,
                                    i as int,
                                    section_decl_fault(st, sections@[i as int]),
                                );
                            }
                            return Err(e);
                        },
                    }
                    proof {
                        lemma_admissible_no_fault(st.entries, periodic_names(columns@));
                        lemma_first_periodic_fault_skip(st.entries, columns@, columns@.len() as int);
                    }
                },
                ast::SourceSection::BoundaryConstraints(_) => {},
                ast::SourceSection::TransitionConstraints(_) => {},
            }
            i = i + 1;
        }

        proof {
            assert(sections@.take(sections@.len() as int) =~= sections@);
        }
        let ghost m = decl_state_of(sections@).entries;

        // Pass 2: constraints, resolved against the completed table.
        let mut boundary_constraints = BoundaryConstraints::new();
        let mut transition_constraints = TransitionConstraints::new();
        proof {
            assert(assembled(boundary_constraints, transition_constraints) == pass2_of(
                m,
                sections@.take(0),
            )) by {
                assert(sections@.take(0) =~= Seq::<ast::SourceSection>::empty());
                assert(boundary_constraints.main_first_model() =~= empty_build_state().main_first);
                assert(boundary_constraints.main_last_model() =~= empty_build_state().main_last);
                assert(boundary_constraints.aux_first_model() =~= empty_build_state().aux_first);
                assert(boundary_constraints.aux_last_model() =~= empty_build_state().aux_last);
                assert(transition_constraints.graph_nodes() =~= empty_build_state().nodes);
                assert(transition_constraints.main_model() =~= empty_build_state().main);
                assert(transition_constraints.aux_model() =~= empty_build_state().aux);
            }
        }
        let mut i: usize = 0;
        while i < sections.len()
            invariant
                sections@ == source.0@,
                i <= sections@.len(),
                symbol_table.wf(),
                boundary_constraints.wf(),
                transition_constraints.wf(),
                transition_constraints.periodic_ok(symbol_table.periodic_lens_model()),
                decls_ok(sections@),
                pass1_fault(sections@) is None,
                m == decl_state_of(sections@).entries,
                symbol_table.entries_model() == m,
                assembled(boundary_constraints, transition_constraints) == pass2_of(
                    m,
                    sections@.take(i as int),
                ),
            decreases sections@.len() - i,
        {
            let ghost sec_start = pass2_of(m, sections@.take(i as int));
            proof {
                assert(sections@.take(i as int + 1).drop_last() =~= sections@.take(i as int));
                assert(sections@.take(i as int + 1).last() == sections@[i as int]);
            }
            match &sections[i] {
                ast::SourceSection::BoundaryConstraints(constraints) => {
                    let list = &constraints.boundary_constraints;
                    let mut j: usize = 0;
                    while j < list.len()
                        invariant
                            sections@ == source.0@,
                            0 <= i < sections@.len(),
                            sections@[i as int] == ast::SourceSection::BoundaryConstraints(
                                *constraints,
                            ),
                            list == &constraints.boundary_constraints,
                            j <= list@.len(),
                            symbol_table.wf(),
                            boundary_constraints.wf(),
                            transition_constraints.wf(),
                            transition_constraints.periodic_ok(symbol_table.periodic_lens_model()),
                            decls_ok(sections@),
                            pass1_fault(sections@) is None,
                            m == decl_state_of(sections@).entries,
                            symbol_table.entries_model() == m,
                            sec_start == pass2_of(m, sections@.take(i as int)),
                            assembled(boundary_constraints, transition_constraints).fault is None,
                            bc_fold(
                                m,
                                assembled(boundary_constraints, transition_constraints),
                                list@,
                                j as int,
                            ) == bc_fold(m, sec_start, list@, 0),
                        decreases list@.len() - j,
                    {
                        let ghost cur = assembled(boundary_constraints, transition_constraints);
                        let ghost c = list@[j as int];
                        match boundary_constraints.insert(&symbol_table, &list[j]) {
                            Ok(_) => {
                                proof {
                                    assert(assembled(boundary_constraints, transition_constraints)
                                        == bc_step(m, cur, c));
                                    assert(bc_fold(m, cur, list@, j as int) == bc_fold(
                                        m,
                                        bc_step(m, cur, c),
                                        list@,
                                        j as int + 1,
                                    ));
                                }
                            },
                            Err(e) => {
                                proof {
                                    let fs = bc_step(m, cur, c);
                                    assert(fs.fault matches Some(f) && build_fault_matches(e, f));
                                    assert(bc_fold(m, cur, list@, j as int) == bc_fold(
                                        m,
                                        fs,
                                        list@,
                                        j as int + 1,
                                    ));
                                    lemma_bc_fold_sticky(m, fs, list@, j as int + 1);
                                    assert(sections@.take(i as int + 1).drop_last()
                                        =~= sections@.take(i as int));
                                    assert(sections@.take(i as int + 1).last()
                                        == sections@[i as int]);
                                    assert(pass2_of(m, sections@.take(i as int + 1)) == fs);
                                    lemma_pass2_sticky(m, sections@, i as int + 1);
                                }
                                return Err(e);
                            },
                        }
                        j = j + 1;
                    }
                    proof {
                        assert(bc_fold(
                            m,
                            assembled(boundary_constraints, transition_constraints),
                            list@,
                            list@.len() as int,
                        ) == assembled(boundary_constraints, transition_constraints));
                        assert(assembled(boundary_constraints, transition_constraints) == pass2_of(
                            m,
                            sections@.take(i as int + 1),
                        ));
                    }
                },
                ast::SourceSection::TransitionConstraints(constraints) => {
                    let list = &constraints.transition_constraints;
                    let mut j: usize = 0;
                    while j < list.len()
                        invariant
                            sections@ == source.0@,
                            0 <= i < sections@.len(),
                            sections@[i as int] == ast::SourceSection::TransitionConstraints(
                                *constraints,
                            ),
                            list == &constraints.transition_constraints,
                            j <= list@.len(),
                            symbol_table.wf(),
                            boundary_constraints.wf(),
                            transition_constraints.wf(),
                            transition_constraints.periodic_ok(symbol_table.periodic_lens_model()),
                            decls_ok(sections@),
                            pass1_fault(sections@) is None,
                            m == decl_state_of(sections@).entries,
                            symbol_table.entries_model() == m,
                            sec_start == pass2_of(m, sections@.take(i as int)),
                            assembled(boundary_constraints, transition_constraints).fault is None,
                            tc_fold(
                                m,
                                assembled(boundary_constraints, transition_constraints),
                                list@,
                                j as int,
                            ) == tc_fold(m, sec_start, list@, 0),
                        decreases list@.len() - j,
                    {
                        let ghost cur = assembled(boundary_constraints, transition_constraints);
                        let ghost c = list@[j as int];
                        match transition_constraints.insert(&symbol_table, &list[j]) {
                            Ok(_) => {
                                proof {
                                    assert(assembled(boundary_constraints, transition_constraints)
                                        == tc_step(m, cur, c));
                                    assert(tc_fold(m, cur, list@, j as int) == tc_fold(
                                        m,
                                        tc_step(m, cur, c),
                                        list@,
                                        j as int + 1,
                                    ));
                                }
                            },
                            Err(e) => {
                                proof {
                                    let fs = tc_step(m, cur, c);
                                    assert(fs.fault matches Some(f) && build_fault_matches(e, f));
                                    assert(tc_fold(m, cur, list@, j as int) == tc_fold(
                                        m,
                                        fs,
                                        list@,
                                        j as int + 1,
                                    ));
                                    lemma_tc_fold_sticky(m, fs, list@, j as int + 1);
                                    assert(sections@.take(i as int + 1).drop_last()
                                        =~= sections@.take(i as int));
                                    assert(sections@.take(i as int + 1).last()
                                        == sections@[i as int]);
                                    assert(pass2_of(m, sections@.take(i as int + 1)) == fs);
                                    lemma_pass2_sticky(m, sections@, i as int + 1);
                                }
                                return Err(e);
                            },
                        }
                        j = j + 1;
                    }
                    proof {
                        assert(tc_fold(
                            m,
                            assembled(boundary_constraints, transition_constraints),
                            list@,
                            list@.len() as int,
                        ) == assembled(boundary_constraints, transition_constraints));
                        assert(assembled(boundary_constraints, transition_constraints) == pass2_of(
                            m,
                            sections@.take(i as int + 1),
                        ));
                    }
                },
                _ => {},
            }
            i = i + 1;
        }
        proof {
            assert(sections@.take(sections@.len() as int) =~= sections@);
            assert(assembled(boundary_constraints, transition_constraints) == pass2_of(
                m,
                sections@,
            ));
        }

        let ghost table_lens = symbol_table.periodic_lens_model();
        let (public_inputs, periodic_columns) = symbol_table.into_declarations();

        // Post-build validation: both constraint kinds must be present.
        match validate_boundary_constraints(&boundary_constraints) {
            Ok(_) => {},
            Err(e) => {
                return Err(e);
            },
        }
        match validate_transition_constraints(&transition_constraints) {
            Ok(_) => {},
            Err(e) => {
                return Err(e);
            },
        }

        let ir = AirIR {
            air_name,
            public_inputs,
            periodic_columns,
            boundary_constraints,
            transition_constraints,
        };
        proof {
            assert(ir.periodic_lens_model() =~= table_lens);
        }
        Ok(ir)
    }

    // --- PUBLIC ACCESSORS -----------------------------------------------------------------------

    /// The AIR's name.
    pub fn air_name(&self) -> (r: &str)
        ensures
            r@ == self.air_name_model(),
    {
        self.air_name.as_str()
    }

    /// Cycle lengths of the periodic columns, in declaration order.
    pub fn periodic_cycle_lens(&self) -> (r: Vec<usize>)
        ensures
            r@ == self.periodic_lens_model(),
    {
        let mut out: Vec<usize> = Vec::new();
        let mut i: usize = 0;
        while i < self.periodic_columns.len()
            invariant
                i <= self.periodic_model().len(),
                out@.len() == i,
                forall|t: int| 0 <= t < i ==> out@[t] == self.periodic_lens_model()[t],
            decreases self.periodic_model().len() - i,
        {
            out.push(self.periodic_columns[i].len());
            i = i + 1;
        }
        proof {
            assert(out@ =~= self.periodic_lens_model());
        }
        out
    }

    /// The declared public inputs.
    pub fn public_inputs(&self) -> (r: &PublicInputs)
        ensures
            r@.map(|i: int, e: (String, usize)| (e.0@, e.1)) == self.public_inputs_model(),
    {
        &self.public_inputs
    }

    /// The declared periodic columns' values.
    pub fn periodic_columns(&self) -> (r: &PeriodicColumns)
        ensures
            r@.map(|i: int, v: Vec<u64>| v@) == self.periodic_model(),
    {
        &self.periodic_columns
    }

    // --- PUBLIC ACCESSORS FOR BOUNDARY CONSTRAINTS ----------------------------------------------

    /// How many boundary assertions the main segment holds.
    pub fn num_main_assertions(&self) -> (r: usize)
        ensures
            r == capped(
                (self.boundary().main_first_model().len()
                    + self.boundary().main_last_model().len()) as int,
            ),
    {
        self.boundary_constraints.main_len()
    }

    /// First-row assertions on main columns, in column-index order.
    pub fn main_first_boundary_constraints(&self) -> (r: &Vec<(usize, BoundaryExpr)>)
        ensures
            r@ == self.boundary().main_first_model(),
    {
        self.boundary_constraints.main_first()
    }

    /// Last-row assertions on main columns, in column-index order.
    pub fn main_last_boundary_constraints(&self) -> (r: &Vec<(usize, BoundaryExpr)>)
        ensures
            r@ == self.boundary().main_last_model(),
    {
        self.boundary_constraints.main_last()
    }

    /// How many boundary assertions the auxiliary segment holds.
    pub fn num_aux_assertions(&self) -> (r: usize)
        ensures
            r == capped(
                (self.boundary().aux_first_model().len()
                    + self.boundary().aux_last_model().len()) as int,
            ),
    {
        self.boundary_constraints.aux_len()
    }

    /// First-row assertions on auxiliary columns, in column-index order.
    pub fn aux_first_boundary_constraints(&self) -> (r: &Vec<(usize, BoundaryExpr)>)
        ensures
            r@ == self.boundary().aux_first_model(),
    {
        self.boundary_constraints.aux_first()
    }

    /// Last-row assertions on auxiliary columns, in column-index order.
    pub fn aux_last_boundary_constraints(&self) -> (r: &Vec<(usize, BoundaryExpr)>)
        ensures
            r@ == self.boundary().aux_last_model(),
    {
        self.boundary_constraints.aux_last()
    }

    // --- PUBLIC ACCESSORS FOR TRANSITION CONSTRAINTS --------------------------------------------

    /// Degree records of the main-segment transition constraints, in
    /// insertion order.
    pub fn main_degrees(&self) -> (r: Vec<TransitionConstraintDegree>)
        ensures
            r@.len() == self.transition().main_model().len(),
            forall|i: int|
                0 <= i < r@.len() ==> (#[trigger] r@[i]).base_model() == capped(
                    base_degree_of(
                        self.transition().graph_nodes(),
                        self.transition().main_model()[i].0 as int,
                    ) as int,
                ) && r@[i].cycles_model() == cycles_of(
                    self.transition().graph_nodes(),
                    self.periodic_lens_model(),
                    self.transition().main_model()[i].0 as int,
                ),
    {
        proof {
            use_type_invariant(&*self);
        }
        let lens = self.periodic_cycle_lens();
        self.transition_constraints.main_degrees(&lens)
    }

    /// Root handles of the main-segment transition constraints. Every
    /// handle points into the shared graph.
    pub fn main_transition_constraints(&self) -> (r: &[NodeIndex])
        ensures
            r@ == self.transition().main_model(),
            forall|i: int|
                0 <= i < r@.len() ==> (#[trigger] r@[i]).0 < self.transition().graph_nodes().len(),
    {
        proof {
            use_type_invariant(&*self);
        }
        self.transition_constraints.main_constraints()
    }

    /// Degree records of the auxiliary-segment transition constraints, in
    /// insertion order.
    pub fn aux_degrees(&self) -> (r: Vec<TransitionConstraintDegree>)
        ensures
            r@.len() == self.transition().aux_model().len(),
            forall|i: int|
                0 <= i < r@.len() ==> (#[trigger] r@[i]).base_model() == capped(
                    base_degree_of(
                        self.transition().graph_nodes(),
                        self.transition().aux_model()[i].0 as int,
                    ) as int,
                ) && r@[i].cycles_model() == cycles_of(
                    self.transition().graph_nodes(),
                    self.periodic_lens_model(),
                    self.transition().aux_model()[i].0 as int,
                ),
    {
        proof {
            use_type_invariant(&*self);
        }
        let lens = self.periodic_cycle_lens();
        self.transition_constraints.aux_degrees(&lens)
    }

    /// Root handles of the auxiliary-segment transition constraints. Every
    /// handle points into the shared graph.
    pub fn aux_transition_constraints(&self) -> (r: &[NodeIndex])
        ensures
            r@ == self.transition().aux_model(),
            forall|i: int|
                0 <= i < r@.len() ==> (#[trigger] r@[i]).0 < self.transition().graph_nodes().len(),
    {
        proof {
            use_type_invariant(&*self);
        }
        self.transition_constraints.aux_constraints()
    }

    /// Read access to the shared expression graph, so a consumer can walk
    /// shared subexpressions exactly once during emission.
    pub fn transition_graph(&self) -> (r: &AlgebraicGraph)
        ensures
            r.nodes_model() == self.transition().graph_nodes(),
            r.wf(),
    {
        proof {
            use_type_invariant(&*self);
        }
        self.transition_constraints.graph()
    }
}

// === HELPERS ====================================================================================

/// Fails with a "missing section" error exactly when no boundary assertion
/// was collected in any of the four buckets.
pub fn validate_boundary_constraints(boundary_constraints: &BoundaryConstraints) -> (r: Result<
    (),
    SemanticError,
>)
    ensures
        r is Ok <==> boundary_constraints.main_first_model().len()
            + boundary_constraints.main_last_model().len()
            + boundary_constraints.aux_first_model().len()
            + boundary_constraints.aux_last_model().len() > 0,
        r is Err ==> r matches Err(
            SemanticError::MissingSection(SectionKind::BoundaryConstraints),
        ),
{
    if boundary_constraints.main_first().len() == 0 && boundary_constraints.main_last().len() == 0
        && boundary_constraints.aux_first().len() == 0 && boundary_constraints.aux_last().len()
        == 0 {
        return Err(SemanticError::MissingSection(SectionKind::BoundaryConstraints));
    }
    Ok(())
}

/// Fails with a "missing section" error exactly when no transition
/// constraint was collected for either segment.
pub fn validate_transition_constraints(transition_constraints: &TransitionConstraints) -> (r:
    Result<(), SemanticError>)
    ensures
        r is Ok <==> transition_constraints.main_model().len()
            + transition_constraints.aux_model().len() > 0,
        r is Err ==> r matches Err(
            SemanticError::MissingSection(SectionKind::TransitionConstraints),
        ),
{
    if transition_constraints.main_constraints().len() == 0
        && transition_constraints.aux_constraints().len() == 0 {
        return Err(SemanticError::MissingSection(SectionKind::TransitionConstraints));
    }
    Ok(())
}

} // verus!
