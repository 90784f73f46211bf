//! The boundary constraint store: per-column first/last assertions for the
//! main and auxiliary trace segments. Each bucket is keyed by column index
//! with at most one assertion per key, kept in column-index order; the
//! right-hand expressions are independent trees, not graph-shared.

use vstd::prelude::*;
use crate::ast;
use crate::ast::{Boundary, BoundaryExpr, RowOffset};
use crate::error::SemanticError;
use crate::symbol_table::{IdentifierType, SymbolTable};
use crate::transition_constraints::capped;

verus! {

/// Keys strictly increase: at most one assertion per column, in order.
pub open spec fn bucket_sorted(s: Seq<(usize, BoundaryExpr)>) -> bool {
    forall|i: int, j: int| 0 <= i < j < s.len() ==> (#[trigger] s[i]).0 < (#[trigger] s[j]).0
}

/// Whether column `c` already has an assertion in the bucket.
pub open spec fn bucket_contains(s: Seq<(usize, BoundaryExpr)>, c: usize) -> bool {
    exists|i: int| 0 <= i < s.len() && (#[trigger] s[i]).0 == c
}

/// How many keys of `s[i..]` are below `c`.
pub open spec fn count_less_from(s: Seq<(usize, BoundaryExpr)>, c: usize, i: int) -> int
    decreases s.len() - i,
{
    if i < 0 || i >= s.len() {
        0
    } else {
        (if s[i].0 < c {
            1int
        } else {
            0int
        }) + count_less_from(s, c, i + 1)
    }
}

/// Where an assertion for column `c` belongs in a sorted bucket.
pub open spec fn insert_pos(s: Seq<(usize, BoundaryExpr)>, c: usize) -> int {
    count_less_from(s, c, 0)
}

proof fn lemma_count_none_less(s: Seq<(usize, BoundaryExpr)>, c: usize, i: int)
    requires
        0 <= i <= s.len(),
        forall|j: int| i <= j < s.len() ==> (#[trigger] s[j]).0 >= c,
    ensures
        count_less_from(s, c, i) == 0,
    decreases s.len() - i,
{
    if i < s.len() {
        lemma_count_none_less(s, c, i + 1);
    }
}

proof fn lemma_count_prefix_less(s: Seq<(usize, BoundaryExpr)>, c: usize, j: int, i: int)
    requires
        0 <= j <= i <= s.len(),
        forall|t: int| j <= t < i ==> (#[trigger] s[t]).0 < c,
    ensures
        count_less_from(s, c, j) == i - j + count_less_from(s, c, i),
    decreases i - j,
{
    if j < i {
        lemma_count_prefix_less(s, c, j + 1, i);
    }
}

/// Inserts `(col, value)` into a sorted bucket, keeping it sorted; fails
/// exactly when the column already has an assertion there.
fn insert_sorted(
    bucket: &mut Vec<(usize, BoundaryExpr)>,
    col: usize,
    value: &BoundaryExpr,
    boundary: Boundary,
) -> (r: Result<(), SemanticError>)
    requires
        bucket_sorted(old(bucket)@),
    ensures
        bucket_sorted(final (bucket)@),
        match r {
            Ok(_) => {
                &&& !bucket_contains(old(bucket)@, col)
                &&& final (bucket)@ == old(bucket)@.insert(insert_pos(old(bucket)@, col), (col, *value))
            },
            Err(e) => {
                &&& bucket_contains(old(bucket)@, col)
                &&& final (bucket)@ == old(bucket)@
                &&& e matches SemanticError::DuplicateBoundaryAssertion(c, b) && c == col && b
                    == boundary
            },
        },
{
    let ghost s = bucket@;
    let mut i: usize = 0;
    while i < bucket.len() && bucket[i].0 < col
        invariant
            s == bucket@,
            i <= s.len(),
            forall|j: int| 0 <= j < i ==> (#[trigger] s[j]).0 < col,
        decreases s.len() - i,
    {
        i = i + 1;
    }
    proof {
        if i < s.len() {
            assert forall|j: int| i <= j < s.len() implies (#[trigger] s[j]).0 >= col by {
                if j > i {
                    assert(s[i as int].0 < s[j].0);
                }
            }
            lemma_count_none_less(s, col, i as int);
        } else {
            lemma_count_none_less(s, col, i as int);
        }
        lemma_count_prefix_less(s, col, 0, i as int);
    }
    if i < bucket.len() {
        let found = bucket[i].0;
        if found == col {
            return Err(SemanticError::DuplicateBoundaryAssertion(col, boundary));
        }
    }
    proof {
        assert forall|j: int| 0 <= j < s.len() implies (#[trigger] s[j]).0 != col by {
            if j >= i {
                if j > i {
                    assert(s[i as int].0 < s[j].0);
                }
            }
        }
    }
    bucket.insert(i, (col, value.clone()));
    proof {
        let t = bucket@;
        assert forall|p: int, q: int|
            0 <= p < q < t.len() implies (#[trigger] t[p]).0 < (#[trigger] t[q]).0 by {
            if p < i && q > i {
                assert(t[p] == s[p] && t[q] == s[q - 1]);
                if q - 1 > i - 1 && q - 1 < s.len() {
                    if q - 1 == i {
                        assert(s[q - 1].0 >= col);
                    } else {
                        assert(s[i as int].0 < s[q - 1].0);
                    }
                }
            }
        }
    }
    Ok(())
}

/// The four boundary buckets of an AIR.
#[derive(Debug)]
pub struct BoundaryConstraints {
    main_first: Vec<(usize, BoundaryExpr)>,
    main_last: Vec<(usize, BoundaryExpr)>,
    aux_first: Vec<(usize, BoundaryExpr)>,
    aux_last: Vec<(usize, BoundaryExpr)>,
}

/// The four buckets of `a` hold the same assertions as those of `b`.
pub open spec fn same_buckets(a: BoundaryConstraints, b: BoundaryConstraints) -> bool {
    &&& a.main_first_model() == b.main_first_model()
    &&& a.main_last_model() == b.main_last_model()
    &&& a.aux_first_model() == b.aux_first_model()
    &&& a.aux_last_model() == b.aux_last_model()
}

impl BoundaryConstraints {
    /// First-row assertions on main columns, keyed by column index.
    pub closed spec fn main_first_model(&self) -> Seq<(usize, BoundaryExpr)> {
        self.main_first@
    }

    /// Last-row assertions on main columns.
    pub closed spec fn main_last_model(&self) -> Seq<(usize, BoundaryExpr)> {
        self.main_last@
    }

    /// First-row assertions on auxiliary columns.
    pub closed spec fn aux_first_model(&self) -> Seq<(usize, BoundaryExpr)> {
        self.aux_first@
    }

    /// Last-row assertions on auxiliary columns.
    pub closed spec fn aux_last_model(&self) -> Seq<(usize, BoundaryExpr)> {
        self.aux_last@
    }

    /// All four buckets are sorted by column index.
    pub open spec fn wf(&self) -> bool {
        &&& bucket_sorted(self.main_first_model())
        &&& bucket_sorted(self.main_last_model())
        &&& bucket_sorted(self.aux_first_model())
        &&& bucket_sorted(self.aux_last_model())
    }

    /// An empty store.
    pub fn new() -> (r: Self)
        ensures
            r.wf(),
            r.main_first_model() == Seq::<(usize, BoundaryExpr)>::empty(),
            r.main_last_model() == Seq::<(usize, BoundaryExpr)>::empty(),
            r.aux_first_model() == Seq::<(usize, BoundaryExpr)>::empty(),
            r.aux_last_model() == Seq::<(usize, BoundaryExpr)>::empty(),
    {
        BoundaryConstraints {
            main_first: Vec::new(),
            main_last: Vec::new(),
            aux_first: Vec::new(),
            aux_last: Vec::new(),
        }
    }

    /// Resolves the asserted column and files the assertion under its
    /// boundary and segment. Fails with "undeclared identifier" when the
    /// name is not declared as a trace column, with "invalid next row
    /// usage" when the left side references the next row, and with
    /// "duplicate boundary assertion" when the column already has an
    /// assertion for that boundary.
    pub fn insert(
        &mut self,
        symbol_table: &SymbolTable,
        constraint: &ast::BoundaryConstraint,
    ) -> (r: Result<(), SemanticError>)
        requires
            old(self).wf(),
        ensures
            final (self).wf(),
            match symbol_table.lookup(constraint.column@) {
                Some(IdentifierType::MainTraceColumn(c)) => if constraint.offset
                    == RowOffset::Next {
                    &&& same_buckets(*final (self), *old(self))
                    &&& r matches Err(SemanticError::InvalidNextRowUsage(n)) && n@
                        == constraint.column@
                } else {
                    match constraint.boundary {
                        Boundary::First => if bucket_contains(old(self).main_first_model(), c) {
                            &&& same_buckets(*final (self), *old(self))
                            &&& r matches Err(SemanticError::DuplicateBoundaryAssertion(cc, b))
                                && cc == c && b == Boundary::First
                        } else {
                            &&& r is Ok
                            &&& final (self).main_first_model() == old(
                                self,
                            ).main_first_model().insert(
                                insert_pos(old(self).main_first_model(), c),
                                (c, constraint.value),
                            )
                            &&& final (self).main_last_model() == old(self).main_last_model()
                            &&& final (self).aux_first_model() == old(self).aux_first_model()
                            &&& final (self).aux_last_model() == old(self).aux_last_model()
                        },
                        Boundary::Last => if bucket_contains(old(self).main_last_model(), c) {
                            &&& same_buckets(*final (self), *old(self))
                            &&& r matches Err(SemanticError::DuplicateBoundaryAssertion(cc, b))
                                && cc == c && b == Boundary::Last
                        } else {
                            &&& r is Ok
                            &&& final (self).main_last_model() == old(
                                self,
                            ).main_last_model().insert(
                                insert_pos(old(self).main_last_model(), c),
                                (c, constraint.value),
                            )
                            &&& final (self).main_first_model() == old(self).main_first_model()
                            &&& final (self).aux_first_model() == old(self).aux_first_model()
                            &&& final (self).aux_last_model() == old(self).aux_last_model()
                        },
                    }
                },
                Some(IdentifierType::AuxTraceColumn(c)) => if constraint.offset == RowOffset::Next {
                    &&& same_buckets(*final (self), *old(self))
                    &&& r matches Err(SemanticError::InvalidNextRowUsage(n)) && n@
                        == constraint.column@
                } else {
                    match constraint.boundary {
                        Boundary::First => if bucket_contains(old(self).aux_first_model(), c) {
                            &&& same_buckets(*final (self), *old(self))
                            &&& r matches Err(SemanticError::DuplicateBoundaryAssertion(cc, b))
                                && cc == c && b == Boundary::First
                        } else {
                            &&& r is Ok
                            &&& final (self).aux_first_model() == old(self).aux_first_model().insert(
                                insert_pos(old(self).aux_first_model(), c),
                                (c, constraint.value),
                            )
                            &&& final (self).main_first_model() == old(self).main_first_model()
                            &&& final (self).main_last_model() == old(self).main_last_model()
                            &&& final (self).aux_last_model() == old(self).aux_last_model()
                        },
                        Boundary::Last => if bucket_contains(old(self).aux_last_model(), c) {
                            &&& same_buckets(*final (self), *old(self))
                            &&& r matches Err(SemanticError::DuplicateBoundaryAssertion(cc, b))
                                && cc == c && b == Boundary::Last
                        } else {
                            &&& r is Ok
                            &&& final (self).aux_last_model() == old(self).aux_last_model().insert(
                                insert_pos(old(self).aux_last_model(), c),
                                (c, constraint.value),
                            )
                            &&& final (self).main_first_model() == old(self).main_first_model()
                            &&& final (self).main_last_model() == old(self).main_last_model()
                            &&& final (self).aux_first_model() == old(self).aux_first_model()
                        },
                    }
                },
                Some(IdentifierType::PublicInput(_, _)) => {
                    &&& same_buckets(*final (self), *old(self))
                    &&& r matches Err(SemanticError::UndeclaredIdentifier(n)) && n@
                        == constraint.column@
                },
                Some(IdentifierType::PeriodicColumn(_, _)) => {
                    &&& same_buckets(*final (self), *old(self))
                    &&& r matches Err(SemanticError::UndeclaredIdentifier(n)) && n@
                        == constraint.column@
                },
                None => {
                    &&& same_buckets(*final (self), *old(self))
                    &&& r matches Err(SemanticError::UndeclaredIdentifier(n)) && n@
                        == constraint.column@
                },
            },
    {
        let ty = match symbol_table.resolve(&constraint.column) {
            Ok(t) => t,
            Err(e) => {
                return Err(e);
            },
        };
        match ty {
            IdentifierType::MainTraceColumn(c) => {
                if constraint.offset == RowOffset::Next {
                    return Err(SemanticError::InvalidNextRowUsage(constraint.column.0.clone()));
                }
                match constraint.boundary {
                    Boundary::First => insert_sorted(
                        &mut self.main_first,
                        c,
                        &constraint.value,
                        Boundary::First,
                    ),
                    Boundary::Last => insert_sorted(
                        &mut self.main_last,
                        c,
                        &constraint.value,
                        Boundary::Last,
                    ),
                }
            },
            IdentifierType::AuxTraceColumn(c) => {
                if constraint.offset == RowOffset::Next {
                    return Err(SemanticError::InvalidNextRowUsage(constraint.column.0.clone()));
                }
                match constraint.boundary {
                    Boundary::First => insert_sorted(
                        &mut self.aux_first,
                        c,
                        &constraint.value,
                        Boundary::First,
                    ),
                    Boundary::Last => insert_sorted(
                        &mut self.aux_last,
                        c,
                        &constraint.value,
                        Boundary::Last,
                    ),
                }
            },
            IdentifierType::PublicInput(_, _) => Err(
                SemanticError::UndeclaredIdentifier(constraint.column.0.clone()),
            ),
            IdentifierType::PeriodicColumn(_, _) => Err(
                SemanticError::UndeclaredIdentifier(constraint.column.0.clone()),
            ),
        }
    }

    /// First-row assertions on main columns, as `(column, expression)`
    /// pairs in column-index order.
    pub fn main_first(&self) -> (r: &Vec<(usize, BoundaryExpr)>)
        ensures
            r@ == self.main_first_model(),
    {
        &self.main_first
    }

    /// Last-row assertions on main columns, in column-index order.
    pub fn main_last(&self) -> (r: &Vec<(usize, BoundaryExpr)>)
        ensures
            r@ == self.main_last_model(),
    {
        &self.main_last
    }

    /// First-row assertions on auxiliary columns, in column-index order.
    pub fn aux_first(&self) -> (r: &Vec<(usize, BoundaryExpr)>)
        ensures
            r@ == self.aux_first_model(),
    {
        &self.aux_first
    }

    /// Last-row assertions on auxiliary columns, in column-index order.
    pub fn aux_last(&self) -> (r: &Vec<(usize, BoundaryExpr)>)
        ensures
            r@ == self.aux_last_model(),
    {
        &self.aux_last
    }

    /// How many assertions the main segment holds, over both boundaries.
    pub fn main_len(&self) -> (r: usize)
        ensures
            r == capped((self.main_first_model().len() + self.main_last_model().len()) as int),
    {
        self.main_first.len().saturating_add(self.main_last.len())
    }

    /// How many assertions the auxiliary segment holds, over both
    /// boundaries.
    pub fn aux_len(&self) -> (r: usize)
        ensures
            r == capped((self.aux_first_model().len() + self.aux_last_model().len()) as int),
    {
        self.aux_first.len().saturating_add(self.aux_last.len())
    }
}

} // verus!
