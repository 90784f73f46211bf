//! The shared algebraic expression graph, the transition constraint store,
//! and the polynomial degree analysis.
//!
//! The graph is an append-only, deduplicating DAG: every node's operands
//! point strictly backwards, and no two nodes are structurally identical.
//! Transition constraints are root references into the graph; their degrees
//! are computed by one memoized pass over the nodes.

use vstd::prelude::*;
use crate::ast;
use crate::ast::RowOffset;
use crate::error::SemanticError;
use crate::symbol_table::{lookup_in, IdentifierType, SymbolTable};

verus! {

/// The smallest cycle length a periodic column may declare.
pub const MIN_CYCLE_LENGTH: usize = 2;

/// An opaque handle to a node of the algebraic graph. Handles are stable:
/// once returned they keep naming the same node for the graph's lifetime.
#[derive(Clone, Copy, Debug, PartialEq, Eq, Structural)]
pub struct NodeIndex(pub usize);

/// Which trace segment a column belongs to.
#[derive(Clone, Copy, Debug, PartialEq, Eq, Structural)]
pub enum TraceSegment {
    Main,
    Aux,
}

/// One node of the algebraic graph. Leaves reference declared entities by
/// index; operands of internal nodes are handles of earlier nodes.
#[derive(Clone, Copy, Debug, PartialEq, Eq, Structural)]
pub enum Operation {
    /// A literal field element.
    Constant(u64),
    /// A trace column: segment, column index, and row offset.
    TraceColumn(TraceSegment, usize, RowOffset),
    /// A periodic column, by its slot among the declared periodic columns.
    PeriodicColumn(usize),
    /// One element of a public input: slot among the declared public inputs
    /// and element index.
    PublicInput(usize, usize),
    /// A random value supplied by the verifier, by index.
    RandomValue(usize),
    Add(NodeIndex, NodeIndex),
    Sub(NodeIndex, NodeIndex),
    Mul(NodeIndex, NodeIndex),
    /// A base node raised to a constant exponent.
    Exp(NodeIndex, u64),
}

/// Every operand handle of `op` points before position `k`.
pub open spec fn op_children_lt(op: Operation, k: int) -> bool {
    match op {
        Operation::Add(l, r) => l.0 < k && r.0 < k,
        Operation::Sub(l, r) => l.0 < k && r.0 < k,
        Operation::Mul(l, r) => l.0 < k && r.0 < k,
        Operation::Exp(b, _) => b.0 < k,
        _ => true,
    }
}

/// The nodes form a DAG: operands always point strictly backwards.
pub open spec fn wf_nodes(s: Seq<Operation>) -> bool {
    forall|i: int| 0 <= i < s.len() ==> op_children_lt(#[trigger] s[i], i)
}

/// No two nodes are structurally identical.
pub open spec fn unique_nodes(s: Seq<Operation>) -> bool {
    forall|i: int, j: int| 0 <= i < j < s.len() ==> s[i] != s[j]
}

/// Every periodic-column leaf points into `cyc`, at a valid cycle length.
pub open spec fn periodic_refs_ok(s: Seq<Operation>, cyc: Seq<usize>) -> bool {
    forall|i: int|
        0 <= i < s.len() ==> match #[trigger] s[i] {
            Operation::PeriodicColumn(p) => p < cyc.len() && MIN_CYCLE_LENGTH <= cyc[p as int],
            _ => true,
        }
}

/// `s2` begins with all of `s1`.
pub open spec fn extends(s2: Seq<Operation>, s1: Seq<Operation>) -> bool {
    s1.len() <= s2.len() && forall|i: int| 0 <= i < s1.len() ==> s1[i] == #[trigger] s2[i]
}

/// First position of `op` in `s` at or after `i`, or `s.len()` if absent.
pub open spec fn find_node_from(s: Seq<Operation>, op: Operation, i: int) -> int
    decreases s.len() - i,
{
    if i < 0 || i >= s.len() {
        s.len() as int
    } else if s[i] == op {
        i
    } else {
        find_node_from(s, op, i + 1)
    }
}

/// First position of `op` in `s`, or `s.len()` if absent.
pub open spec fn find_node(s: Seq<Operation>, op: Operation) -> int {
    find_node_from(s, op, 0)
}

proof fn lemma_find_node_from_range(s: Seq<Operation>, op: Operation, i: int)
    requires
        0 <= i <= s.len(),
    ensures
        i <= find_node_from(s, op, i) <= s.len(),
        find_node_from(s, op, i) < s.len() ==> s[find_node_from(s, op, i)] == op,
        find_node_from(s, op, i) == s.len() ==> forall|j: int| i <= j < s.len() ==> s[j] != op,
    decreases s.len() - i,
{
    if i < s.len() && s[i] != op {
        lemma_find_node_from_range(s, op, i + 1);
    }
}

/// Dedup law: in a graph without structural duplicates, an operation that
/// already has a node is found exactly at that node, so inserting it again
/// returns the existing handle and adds nothing.
pub proof fn lemma_find_node_unique(s: Seq<Operation>, op: Operation, i: int)
    requires
        unique_nodes(s),
        0 <= i < s.len(),
        s[i] == op,
    ensures
        find_node(s, op) == i,
{
    lemma_find_node_from_range(s, op, 0);
    let f = find_node(s, op);
    if f < i {
        assert(s[f] != s[i]);
    } else if f > i {
        if f < s.len() {
            assert(s[i] != s[f]);
        }
    }
}

/// The larger of two naturals.
pub open spec fn max_nat(a: nat, b: nat) -> nat {
    if a >= b {
        a
    } else {
        b
    }
}

/// `n` clamped into `usize`: the saturation every stored degree uses.
pub open spec fn capped(n: int) -> usize {
    if n > usize::MAX {
        usize::MAX
    } else if n < 0 {
        0
    } else {
        n as usize
    }
}

/// Clamping before a product saturates the same way as clamping after it.
proof fn lemma_capped_mul(d: int, k: int)
    requires
        d >= 0,
        k >= 0,
    ensures
        capped(capped(d) * k) == capped(d * k),
{
    if d > usize::MAX {
        if k == 0 {
            assert(capped(d) * k == 0 && d * k == 0) by (nonlinear_arith)
                requires
                    k == 0,
            ;
        } else {
            assert(d * k >= d && capped(d) * k >= capped(d)) by (nonlinear_arith)
                requires
                    d >= 0,
                    capped(d) >= 0,
                    k >= 1,
            ;
        }
    }
}

// --- CANONICAL MULTISETS OF CYCLE CONTRIBUTIONS -------------------------------------------------
//
// A degree record carries the periodic-column contributions of a constraint
// as a multiset of `cycle length - 1` values, kept as a sorted sequence with
// repetitions. Sum of two records unions by the larger multiplicity, product
// adds multiplicities, and exponentiation scales them.

/// Merge of the sorted remainders `a[i..]` and `b[j..]`, keeping, value by
/// value, the larger number of repetitions.
pub open spec fn merge_max_from(a: Seq<usize>, b: Seq<usize>, i: int, j: int) -> Seq<usize>
    decreases a.len() - i + b.len() - j,
{
    if !(0 <= i <= a.len()) || !(0 <= j <= b.len()) {
        Seq::empty()
    } else if i == a.len() && j == b.len() {
        Seq::empty()
    } else if j == b.len() {
        seq![a[i]] + merge_max_from(a, b, i + 1, j)
    } else if i == a.len() {
        seq![b[j]] + merge_max_from(a, b, i, j + 1)
    } else if a[i] < b[j] {
        seq![a[i]] + merge_max_from(a, b, i + 1, j)
    } else if b[j] < a[i] {
        seq![b[j]] + merge_max_from(a, b, i, j + 1)
    } else {
        seq![a[i]] + merge_max_from(a, b, i + 1, j + 1)
    }
}

/// Union by larger multiplicity of two sorted multisets.
pub open spec fn merge_max(a: Seq<usize>, b: Seq<usize>) -> Seq<usize> {
    merge_max_from(a, b, 0, 0)
}

/// Merge of the sorted remainders `a[i..]` and `b[j..]`, keeping every
/// repetition of both.
pub open spec fn merge_sum_from(a: Seq<usize>, b: Seq<usize>, i: int, j: int) -> Seq<usize>
    decreases a.len() - i + b.len() - j,
{
    if !(0 <= i <= a.len()) || !(0 <= j <= b.len()) {
        Seq::empty()
    } else if i == a.len() && j == b.len() {
        Seq::empty()
    } else if j == b.len() {
        seq![a[i]] + merge_sum_from(a, b, i + 1, j)
    } else if i == a.len() {
        seq![b[j]] + merge_sum_from(a, b, i, j + 1)
    } else if a[i] <= b[j] {
        seq![a[i]] + merge_sum_from(a, b, i + 1, j)
    } else {
        seq![b[j]] + merge_sum_from(a, b, i, j + 1)
    }
}

/// Sum (additive union) of two sorted multisets.
pub open spec fn merge_sum(a: Seq<usize>, b: Seq<usize>) -> Seq<usize> {
    merge_sum_from(a, b, 0, 0)
}

/// `v` repeated `k` times.
pub open spec fn repeat_val(v: usize, k: nat) -> Seq<usize>
    decreases k,
{
    if k == 0 {
        Seq::empty()
    } else {
        seq![v] + repeat_val(v, (k - 1) as nat)
    }
}

/// `s[i..]` with every multiplicity scaled by `k`.
pub open spec fn scale_from(s: Seq<usize>, k: nat, i: int) -> Seq<usize>
    decreases s.len() - i,
{
    if !(0 <= i < s.len()) {
        Seq::empty()
    } else {
        repeat_val(s[i], k) + scale_from(s, k, i + 1)
    }
}

/// The whole of `s` with every multiplicity scaled by `k`.
pub open spec fn scale_cycles(s: Seq<usize>, k: nat) -> Seq<usize> {
    scale_from(s, k, 0)
}

// --- DEGREE SEMANTICS OF THE GRAPH --------------------------------------------------------------

/// Base polynomial degree of node `i`: constants and references contribute
/// nothing, trace columns contribute one, sums take the larger side,
/// products add, and exponentiation multiplies by the exponent.
pub open spec fn base_degree_of(s: Seq<Operation>, i: int) -> nat
    decreases i,
{
    if 0 <= i < s.len() {
        match s[i] {
            Operation::Constant(_) => 0,
            Operation::TraceColumn(_, _, _) => 1,
            Operation::PeriodicColumn(_) => 0,
            Operation::PublicInput(_, _) => 0,
            Operation::RandomValue(_) => 0,
            Operation::Add(l, r) => if l.0 < i && r.0 < i {
                max_nat(base_degree_of(s, l.0 as int), base_degree_of(s, r.0 as int))
            } else {
                0
            },
            Operation::Sub(l, r) => if l.0 < i && r.0 < i {
                max_nat(base_degree_of(s, l.0 as int), base_degree_of(s, r.0 as int))
            } else {
                0
            },
            Operation::Mul(l, r) => if l.0 < i && r.0 < i {
                base_degree_of(s, l.0 as int) + base_degree_of(s, r.0 as int)
            } else {
                0
            },
            Operation::Exp(b, k) => if b.0 < i {
                base_degree_of(s, b.0 as int) * (k as nat)
            } else {
                0
            },
        }
    } else {
        0
    }
}

/// Cycle contributions of node `i`, with cycle lengths `cyc`: a periodic
/// column of cycle length `L` contributes one copy of `L - 1`; sums union by
/// larger multiplicity, products add, exponentiation scales.
pub open spec fn cycles_of(s: Seq<Operation>, cyc: Seq<usize>, i: int) -> Seq<usize>
    decreases i,
{
    if 0 <= i < s.len() {
        match s[i] {
            Operation::PeriodicColumn(p) => if p < cyc.len() && cyc[p as int] >= 1 {
                seq![(cyc[p as int] - 1) as usize]
            } else {
                Seq::empty()
            },
            Operation::Add(l, r) => if l.0 < i && r.0 < i {
                merge_max(cycles_of(s, cyc, l.0 as int), cycles_of(s, cyc, r.0 as int))
            } else {
                Seq::empty()
            },
            Operation::Sub(l, r) => if l.0 < i && r.0 < i {
                merge_max(cycles_of(s, cyc, l.0 as int), cycles_of(s, cyc, r.0 as int))
            } else {
                Seq::empty()
            },
            Operation::Mul(l, r) => if l.0 < i && r.0 < i {
                merge_sum(cycles_of(s, cyc, l.0 as int), cycles_of(s, cyc, r.0 as int))
            } else {
                Seq::empty()
            },
            Operation::Exp(b, k) => if b.0 < i {
                scale_cycles(cycles_of(s, cyc, b.0 as int), k as nat)
            } else {
                Seq::empty()
            },
            _ => Seq::empty(),
        }
    } else {
        Seq::empty()
    }
}

/// Appending nodes never changes the degree of an existing node.
pub proof fn lemma_degree_stable(s1: Seq<Operation>, s2: Seq<Operation>, cyc: Seq<usize>, i: int)
    requires
        wf_nodes(s1),
        extends(s2, s1),
        0 <= i < s1.len(),
    ensures
        base_degree_of(s2, i) == base_degree_of(s1, i),
        cycles_of(s2, cyc, i) == cycles_of(s1, cyc, i),
    decreases i,
{
    assert(s2[i] == s1[i]);
    match s1[i] {
        Operation::Add(l, r) => {
            if l.0 < i && r.0 < i {
                lemma_degree_stable(s1, s2, cyc, l.0 as int);
                lemma_degree_stable(s1, s2, cyc, r.0 as int);
            }
        },
        Operation::Sub(l, r) => {
            if l.0 < i && r.0 < i {
                lemma_degree_stable(s1, s2, cyc, l.0 as int);
                lemma_degree_stable(s1, s2, cyc, r.0 as int);
            }
        },
        Operation::Mul(l, r) => {
            if l.0 < i && r.0 < i {
                lemma_degree_stable(s1, s2, cyc, l.0 as int);
                lemma_degree_stable(s1, s2, cyc, r.0 as int);
            }
        },
        Operation::Exp(b, _) => {
            if b.0 < i {
                lemma_degree_stable(s1, s2, cyc, b.0 as int);
            }
        },
        _ => {},
    }
}

// --- DEGREE RECORDS -----------------------------------------------------------------------------

/// The degree summary of one transition constraint: the base degree from
/// non-periodic terms, and the contribution of every periodic column the
/// constraint touches, as a sorted multiset of `cycle length - 1` values.
#[derive(Debug, PartialEq, Eq)]
pub struct TransitionConstraintDegree {
    base: usize,
    cycles: Vec<usize>,
}

impl TransitionConstraintDegree {
    /// The stored base degree.
    pub closed spec fn base_model(&self) -> usize {
        self.base
    }

    /// The stored cycle contributions.
    pub closed spec fn cycles_model(&self) -> Seq<usize> {
        self.cycles@
    }

    /// Base degree of the constraint, saturated at `usize::MAX`.
    pub fn base(&self) -> (r: usize)
        ensures
            r == self.base_model(),
    {
        self.base
    }

    /// Cycle contributions of the constraint, sorted, with repetitions.
    pub fn cycles(&self) -> (r: &Vec<usize>)
        ensures
            r@ == self.cycles_model(),
    {
        &self.cycles
    }
}

// --- EXECUTABLE MULTISET OPERATIONS -------------------------------------------------------------

/// Union by larger multiplicity, as [`merge_max`].
fn merge_max_exec(a: &Vec<usize>, b: &Vec<usize>) -> (r: Vec<usize>)
    ensures
        r@ == merge_max(a@, b@),
{
    let mut out: Vec<usize> = Vec::new();
    let mut i: usize = 0;
    let mut j: usize = 0;
    while i < a.len() || j < b.len()
        invariant
            i <= a.len(),
            j <= b.len(),
            out@ + merge_max_from(a@, b@, i as int, j as int) == merge_max(a@, b@),
        decreases a.len() - i + b.len() - j,
    {
        let ghost (oi, oj) = (i as int, j as int);
        if j >= b.len() {
            out.push(a[i]);
            i = i + 1;
            assert(merge_max_from(a@, b@, oi, oj) == seq![a@[oi]] + merge_max_from(a@, b@, oi + 1, oj));
        } else if i >= a.len() {
            out.push(b[j]);
            j = j + 1;
            assert(merge_max_from(a@, b@, oi, oj) == seq![b@[oj]] + merge_max_from(a@, b@, oi, oj + 1));
        } else if a[i] < b[j] {
            out.push(a[i]);
            i = i + 1;
            assert(merge_max_from(a@, b@, oi, oj) == seq![a@[oi]] + merge_max_from(a@, b@, oi + 1, oj));
        } else if b[j] < a[i] {
            out.push(b[j]);
            j = j + 1;
            assert(merge_max_from(a@, b@, oi, oj) == seq![b@[oj]] + merge_max_from(a@, b@, oi, oj + 1));
        } else {
            out.push(a[i]);
            i = i + 1;
            j = j + 1;
            assert(merge_max_from(a@, b@, oi, oj) == seq![a@[oi]] + merge_max_from(a@, b@, oi + 1, oj + 1));
        }
        proof {
            assert(out@ + merge_max_from(a@, b@, i as int, j as int) =~= merge_max(a@, b@));
        }
    }
    proof {
        assert(out@ =~= merge_max(a@, b@));
    }
    out
}

/// Additive union, as [`merge_sum`].
fn merge_sum_exec(a: &Vec<usize>, b: &Vec<usize>) -> (r: Vec<usize>)
    ensures
        r@ == merge_sum(a@, b@),
{
    let mut out: Vec<usize> = Vec::new();
    let mut i: usize = 0;
    let mut j: usize = 0;
    while i < a.len() || j < b.len()
        invariant
            i <= a.len(),
            j <= b.len(),
            out@ + merge_sum_from(a@, b@, i as int, j as int) == merge_sum(a@, b@),
        decreases a.len() - i + b.len() - j,
    {
        let ghost (oi, oj) = (i as int, j as int);
        if j >= b.len() {
            out.push(a[i]);
            i = i + 1;
            assert(merge_sum_from(a@, b@, oi, oj) == seq![a@[oi]] + merge_sum_from(a@, b@, oi + 1, oj));
        } else if i >= a.len() {
            out.push(b[j]);
            j = j + 1;
            assert(merge_sum_from(a@, b@, oi, oj) == seq![b@[oj]] + merge_sum_from(a@, b@, oi, oj + 1));
        } else if a[i] <= b[j] {
            out.push(a[i]);
            i = i + 1;
            assert(merge_sum_from(a@, b@, oi, oj) == seq![a@[oi]] + merge_sum_from(a@, b@, oi + 1, oj));
        } else {
            out.push(b[j]);
            j = j + 1;
            assert(merge_sum_from(a@, b@, oi, oj) == seq![b@[oj]] + merge_sum_from(a@, b@, oi, oj + 1));
        }
        proof {
            assert(out@ + merge_sum_from(a@, b@, i as int, j as int) =~= merge_sum(a@, b@));
        }
    }
    proof {
        assert(out@ =~= merge_sum(a@, b@));
    }
    out
}

/// Multiplicity scaling, as [`scale_cycles`].
fn scale_exec(s: &Vec<usize>, k: u64) -> (r: Vec<usize>)
    ensures
        r@ == scale_cycles(s@, k as nat),
{
    let mut out: Vec<usize> = Vec::new();
    let mut i: usize = 0;
    while i < s.len()
        invariant
            i <= s.len(),
            out@ + scale_from(s@, k as nat, i as int) == scale_cycles(s@, k as nat),
        decreases s.len() - i,
    {
        let v = s[i];
        let mut c: u64 = 0;
        while c < k
            invariant
                c <= k,
                i < s.len(),
                v == s@[i as int],
                out@ + repeat_val(v, (k - c) as nat) + scale_from(s@, k as nat, i as int + 1)
                    == scale_cycles(s@, k as nat),
            decreases k - c,
        {
            let ghost oc = c;
            out.push(v);
            c = c + 1;
            proof {
                assert(repeat_val(v, (k - oc) as nat) == seq![v] + repeat_val(v, (k - oc - 1) as nat));
                assert(out@ + repeat_val(v, (k - c) as nat) + scale_from(s@, k as nat, i as int + 1)
                    =~= scale_cycles(s@, k as nat));
            }
        }
        i = i + 1;
        proof {
            assert(repeat_val(v, 0) == Seq::<usize>::empty());
            assert(out@ + scale_from(s@, k as nat, i as int) =~= scale_cycles(s@, k as nat));
        }
    }
    proof {
        assert(out@ =~= scale_cycles(s@, k as nat));
    }
    out
}

/// `a + b`, saturated at `usize::MAX`.
fn sat_add(a: usize, b: usize) -> (r: usize)
    ensures
        r == capped(a + b),
{
    a.saturating_add(b)
}

// --- THE GRAPH ----------------------------------------------------------------------------------

/// The append-only, deduplicating expression DAG shared by all transition
/// constraints. Node handles are never reused and never invalidated.
#[derive(Debug)]
pub struct AlgebraicGraph {
    nodes: Vec<Operation>,
}

impl AlgebraicGraph {
    /// The stored nodes, in insertion order.
    pub closed spec fn nodes_model(&self) -> Seq<Operation> {
        self.nodes@
    }

    /// The graph is a DAG without structural duplicates.
    pub open spec fn wf(&self) -> bool {
        wf_nodes(self.nodes_model()) && unique_nodes(self.nodes_model())
    }

    /// An empty graph.
    pub fn new() -> (r: Self)
        ensures
            r.wf(),
            r.nodes_model() == Seq::<Operation>::empty(),
    {
        AlgebraicGraph { nodes: Vec::new() }
    }

    /// How many distinct nodes the graph holds.
    pub fn num_nodes(&self) -> (r: usize)
        ensures
            r == self.nodes_model().len(),
    {
        self.nodes.len()
    }

    /// Read access to a node by handle, for consumers walking shared
    /// subexpressions.
    pub fn node(&self, index: &NodeIndex) -> (r: &Operation)
        requires
            index.0 < self.nodes_model().len(),
        ensures
            *r == self.nodes_model()[index.0 as int],
    {
        &self.nodes[index.0]
    }

    /// Deduplicating insertion: an operation structurally identical to an
    /// existing node returns the existing handle and leaves the graph
    /// unchanged; otherwise the operation is appended and its new handle
    /// returned.
    pub fn insert(&mut self, op: Operation) -> (r: NodeIndex)
        requires
            old(self).wf(),
            op_children_lt(op, old(self).nodes_model().len() as int),
        ensures
            final (self).wf(),
            extends(final (self).nodes_model(), old(self).nodes_model()),
            r.0 == find_node(old(self).nodes_model(), op),
            final (self).nodes_model() == (if find_node(old(self).nodes_model(), op) < old(
                self,
            ).nodes_model().len() {
                old(self).nodes_model()
            } else {
                old(self).nodes_model().push(op)
            }),
            r.0 < final (self).nodes_model().len(),
            final (self).nodes_model()[r.0 as int] == op,
    {
        let ghost m = self.nodes@;
        let mut i: usize = 0;
        while i < self.nodes.len()
            invariant
                *self == *old(self),
                old(self).wf(),
                m == self.nodes@,
                i <= m.len(),
                find_node(m, op) == find_node_from(m, op, i as int),
            decreases m.len() - i,
        {
            if self.nodes[i] == op {
                return NodeIndex(i);
            }
            i = i + 1;
        }
        let idx = self.nodes.len();
        self.nodes.push(op);
        proof {
            lemma_find_node_from_range(m, op, 0);
            assert(self.nodes@ =~= m.push(op));
            assert forall|k: int|
                0 <= k < self.nodes@.len() implies op_children_lt(#[trigger] self.nodes@[k], k) by {
                if k < m.len() {
                    assert(op_children_lt(m[k], k));
                }
            }
        }
        NodeIndex(idx)
    }

    /// Degree records of every node, computed in one memoized post-order
    /// pass: each node is visited once, so shared subexpressions are
    /// analysed once however many constraints reference them.
    fn degrees_all(&self, cycle_lens: &Vec<usize>) -> (r: Vec<TransitionConstraintDegree>)
        requires
            self.wf(),
            periodic_refs_ok(self.nodes_model(), cycle_lens@),
        ensures
            r@.len() == self.nodes_model().len(),
            forall|i: int|
                0 <= i < r@.len() ==> (#[trigger] r@[i]).base_model() == capped(
                    base_degree_of(self.nodes_model(), i) as int,
                ) && r@[i].cycles_model() == cycles_of(self.nodes_model(), cycle_lens@, i),
    {
        let ghost m = self.nodes@;
        let ghost cyc = cycle_lens@;
        let mut recs: Vec<TransitionConstraintDegree> = Vec::new();
        let mut i: usize = 0;
        while i < self.nodes.len()
            invariant
                m == self.nodes@,
                cyc == cycle_lens@,
                wf_nodes(m),
                periodic_refs_ok(m, cyc),
                i <= m.len(),
                recs@.len() == i,
                forall|t: int|
                    0 <= t < i ==> (#[trigger] recs@[t]).base_model() == capped(
                        base_degree_of(m, t) as int,
                    ) && recs@[t].cycles_model() == cycles_of(m, cyc, t),
            decreases m.len() - i,
        {
            let op = self.nodes[i];
            proof {
                assert(op_children_lt(m[i as int], i as int));
            }
            let rec = match op {
                Operation::Constant(_) => {
                    let d = TransitionConstraintDegree { base: 0, cycles: Vec::new() };
                    proof {
                        assert(d.base_model() == capped(base_degree_of(m, i as int) as int));
                        assert(d.cycles_model() == cycles_of(m, cyc, i as int));
                    }
                    d
                },
                Operation::TraceColumn(_, _, _) => {
                    let d = TransitionConstraintDegree { base: 1, cycles: Vec::new() };
                    proof {
                        assert(d.base_model() == capped(base_degree_of(m, i as int) as int));
                        assert(d.cycles_model() == cycles_of(m, cyc, i as int));
                    }
                    d
                },
                Operation::PublicInput(_, _) => {
                    let d = TransitionConstraintDegree { base: 0, cycles: Vec::new() };
                    proof {
                        assert(d.base_model() == capped(base_degree_of(m, i as int) as int));
                        assert(d.cycles_model() == cycles_of(m, cyc, i as int));
                    }
                    d
                },
                Operation::RandomValue(_) => {
                    let d = TransitionConstraintDegree { base: 0, cycles: Vec::new() };
                    proof {
                        assert(d.base_model() == capped(base_degree_of(m, i as int) as int));
                        assert(d.cycles_model() == cycles_of(m, cyc, i as int));
                    }
                    d
                },
                Operation::PeriodicColumn(p) => {
                    proof {
                        assert(p < cyc.len() && MIN_CYCLE_LENGTH <= cyc[p as int]);
                    }
                    let len = cycle_lens[p];
                    let mut cv: Vec<usize> = Vec::new();
                    cv.push(len - 1);
                    proof {
                        assert(cv@ =~= seq![(cyc[p as int] - 1) as usize]);
                    }
                    let d = TransitionConstraintDegree { base: 0, cycles: cv };
                    proof {
                        assert(d.base_model() == capped(base_degree_of(m, i as int) as int));
                        assert(d.cycles_model() == cycles_of(m, cyc, i as int));
                    }
                    d
                },
                Operation::Add(l, r) => {
                    let bl = recs[l.0].base;
                    let br = recs[r.0].base;
                    let cycles = merge_max_exec(&recs[l.0].cycles, &recs[r.0].cycles);
                    let d = TransitionConstraintDegree {
                        base: if bl >= br { bl } else { br },
                        cycles,
                    };
                    proof {
                        assert(base_degree_of(m, i as int) == max_nat(
                            base_degree_of(m, l.0 as int),
                            base_degree_of(m, r.0 as int),
                        ));
                        assert(cycles_of(m, cyc, i as int) == merge_max(
                            cycles_of(m, cyc, l.0 as int),
                            cycles_of(m, cyc, r.0 as int),
                        ));
                        assert(d.base_model() == capped(base_degree_of(m, i as int) as int));
                    }
                    d
                },
                Operation::Sub(l, r) => {
                    let bl = recs[l.0].base;
                    let br = recs[r.0].base;
                    let cycles = merge_max_exec(&recs[l.0].cycles, &recs[r.0].cycles);
                    let d = TransitionConstraintDegree {
                        base: if bl >= br { bl } else { br },
                        cycles,
                    };
                    proof {
                        assert(base_degree_of(m, i as int) == max_nat(
                            base_degree_of(m, l.0 as int),
                            base_degree_of(m, r.0 as int),
                        ));
                        assert(cycles_of(m, cyc, i as int) == merge_max(
                            cycles_of(m, cyc, l.0 as int),
                            cycles_of(m, cyc, r.0 as int),
                        ));
                        assert(d.base_model() == capped(base_degree_of(m, i as int) as int));
                    }
                    d
                },
                Operation::Mul(l, r) => {
                    let base = sat_add(recs[l.0].base, recs[r.0].base);
                    let cycles = merge_sum_exec(&recs[l.0].cycles, &recs[r.0].cycles);
                    let d = TransitionConstraintDegree { base, cycles };
                    proof {
                        assert(base_degree_of(m, i as int) == base_degree_of(m, l.0 as int)
                            + base_degree_of(m, r.0 as int));
                        assert(d.base_model() == capped(base_degree_of(m, i as int) as int));
                        assert(cycles_of(m, cyc, i as int) == merge_sum(
                            cycles_of(m, cyc, l.0 as int),
                            cycles_of(m, cyc, r.0 as int),
                        ));
                    }
                    d
                },
                Operation::Exp(b, k) => {
                    let base = sat_mul(recs[b.0].base, k);
                    let cycles = scale_exec(&recs[b.0].cycles, k);
                    proof {
                        assert(base_degree_of(m, i as int) == base_degree_of(m, b.0 as int) * (
                        k as nat));
                        assert(cycles_of(m, cyc, i as int) == scale_cycles(
                            cycles_of(m, cyc, b.0 as int),
                            k as nat,
                        ));
                        lemma_capped_mul(base_degree_of(m, b.0 as int) as int, k as int);
                    }
                    let d = TransitionConstraintDegree { base, cycles };
                    proof {
                        assert(d.base_model() == capped(base_degree_of(m, i as int) as int));
                        assert(d.cycles_model() == cycles_of(m, cyc, i as int));
                    }
                    d
                },
            };
            recs.push(rec);
            i = i + 1;
        }
        recs
    }
}

/// `a * k`, saturated at `usize::MAX`.
fn sat_mul(a: usize, k: u64) -> (r: usize)
    ensures
        r == capped(a * k),
{
    if a == 0 {
        0
    } else if k > usize::MAX as u64 {
        proof {
            assert(a * k >= 1 * k) by (nonlinear_arith)
                requires
                    a >= 1,
                    k >= 0,
            ;
        }
        usize::MAX
    } else {
        match a.checked_mul(k as usize) {
            Some(v) => v,
            None => usize::MAX,
        }
    }
}

// --- RESOLUTION OF CONSTRAINT EXPRESSIONS -------------------------------------------------------

/// The first semantic fault a constraint expression runs into, resolving
/// names left to right: a reference to a name that is not usable in that
/// position, or a next-row reference to something that has no next row.
pub enum ResolveFault {
    Undeclared(Seq<char>),
    NextRow(Seq<char>),
}

/// `e` reports fault `f`.
pub open spec fn fault_matches(e: SemanticError, f: ResolveFault) -> bool {
    match f {
        ResolveFault::Undeclared(n) => e matches SemanticError::UndeclaredIdentifier(s) && s@ == n,
        ResolveFault::NextRow(n) => e matches SemanticError::InvalidNextRowUsage(s) && s@ == n,
    }
}

/// First fault of `e` under table `t`, or `None` when every reference
/// resolves: bare names must be trace or periodic columns, next-row
/// references trace columns, indexed names public inputs.
pub open spec fn first_fault(m: Seq<(Seq<char>, IdentifierType)>, e: ast::TransitionExpr) -> Option<ResolveFault>
    decreases e,
{
    match e {
        ast::TransitionExpr::Const(_) => None,
        ast::TransitionExpr::Var(id) => match lookup_in(m, id@) {
            Some(IdentifierType::MainTraceColumn(_)) => None,
            Some(IdentifierType::AuxTraceColumn(_)) => None,
            Some(IdentifierType::PeriodicColumn(_, _)) => None,
            Some(IdentifierType::PublicInput(_, _)) => Some(ResolveFault::Undeclared(id@)),
            None => Some(ResolveFault::Undeclared(id@)),
        },
        ast::TransitionExpr::Next(id) => match lookup_in(m, id@) {
            Some(IdentifierType::MainTraceColumn(_)) => None,
            Some(IdentifierType::AuxTraceColumn(_)) => None,
            Some(IdentifierType::PeriodicColumn(_, _)) => Some(ResolveFault::NextRow(id@)),
            Some(IdentifierType::PublicInput(_, _)) => Some(ResolveFault::NextRow(id@)),
            None => Some(ResolveFault::Undeclared(id@)),
        },
        ast::TransitionExpr::Rand(_) => None,
        ast::TransitionExpr::PubInput(id, _) => match lookup_in(m, id@) {
            Some(IdentifierType::PublicInput(_, _)) => None,
            Some(IdentifierType::MainTraceColumn(_)) => Some(ResolveFault::Undeclared(id@)),
            Some(IdentifierType::AuxTraceColumn(_)) => Some(ResolveFault::Undeclared(id@)),
            Some(IdentifierType::PeriodicColumn(_, _)) => Some(ResolveFault::Undeclared(id@)),
            None => Some(ResolveFault::Undeclared(id@)),
        },
        ast::TransitionExpr::Add(l, r) => if first_fault(m, *l) is Some {
            first_fault(m, *l)
        } else {
            first_fault(m, *r)
        },
        ast::TransitionExpr::Sub(l, r) => if first_fault(m, *l) is Some {
            first_fault(m, *l)
        } else {
            first_fault(m, *r)
        },
        ast::TransitionExpr::Mul(l, r) => if first_fault(m, *l) is Some {
            first_fault(m, *l)
        } else {
            first_fault(m, *r)
        },
        ast::TransitionExpr::Exp(b, _) => first_fault(m, *b),
    }
}

/// Whether `e` references any auxiliary trace column; such a constraint is
/// classified as auxiliary.
pub open spec fn uses_aux(m: Seq<(Seq<char>, IdentifierType)>, e: ast::TransitionExpr) -> bool
    decreases e,
{
    match e {
        ast::TransitionExpr::Var(id) => lookup_in(m, id@) matches Some(
            IdentifierType::AuxTraceColumn(_),
        ),
        ast::TransitionExpr::Next(id) => lookup_in(m, id@) matches Some(
            IdentifierType::AuxTraceColumn(_),
        ),
        ast::TransitionExpr::Add(l, r) => uses_aux(m, *l) || uses_aux(m, *r),
        ast::TransitionExpr::Sub(l, r) => uses_aux(m, *l) || uses_aux(m, *r),
        ast::TransitionExpr::Mul(l, r) => uses_aux(m, *l) || uses_aux(m, *r),
        ast::TransitionExpr::Exp(b, _) => uses_aux(m, *b),
        _ => false,
    }
}

/// Base degree of `e` under table `t`: the degree its graph node has once
/// every reference is resolved.
pub open spec fn ast_base(m: Seq<(Seq<char>, IdentifierType)>, e: ast::TransitionExpr) -> nat
    decreases e,
{
    match e {
        ast::TransitionExpr::Var(id) => match lookup_in(m, id@) {
            Some(IdentifierType::MainTraceColumn(_)) => 1,
            Some(IdentifierType::AuxTraceColumn(_)) => 1,
            _ => 0,
        },
        ast::TransitionExpr::Next(id) => match lookup_in(m, id@) {
            Some(IdentifierType::MainTraceColumn(_)) => 1,
            Some(IdentifierType::AuxTraceColumn(_)) => 1,
            _ => 0,
        },
        ast::TransitionExpr::Add(l, r) => max_nat(ast_base(m, *l), ast_base(m, *r)),
        ast::TransitionExpr::Sub(l, r) => max_nat(ast_base(m, *l), ast_base(m, *r)),
        ast::TransitionExpr::Mul(l, r) => ast_base(m, *l) + ast_base(m, *r),
        ast::TransitionExpr::Exp(b, k) => ast_base(m, *b) * (k as nat),
        _ => 0,
    }
}

/// Cycle contributions of `e` under table `t`.
pub open spec fn ast_cycles(m: Seq<(Seq<char>, IdentifierType)>, e: ast::TransitionExpr) -> Seq<usize>
    decreases e,
{
    match e {
        ast::TransitionExpr::Var(id) => match lookup_in(m, id@) {
            Some(IdentifierType::PeriodicColumn(_, len)) => if len >= 1 {
                seq![(len - 1) as usize]
            } else {
                Seq::empty()
            },
            _ => Seq::empty(),
        },
        ast::TransitionExpr::Add(l, r) => merge_max(ast_cycles(m, *l), ast_cycles(m, *r)),
        ast::TransitionExpr::Sub(l, r) => merge_max(ast_cycles(m, *l), ast_cycles(m, *r)),
        ast::TransitionExpr::Mul(l, r) => merge_sum(ast_cycles(m, *l), ast_cycles(m, *r)),
        ast::TransitionExpr::Exp(b, k) => scale_cycles(ast_cycles(m, *b), k as nat),
        _ => Seq::empty(),
    }
}

/// Deduplicating insertion, at the specification level: the resulting node
/// list and the handle position of `op`.
pub open spec fn insert_op_spec(s: Seq<Operation>, op: Operation) -> (Seq<Operation>, int) {
    let f = find_node(s, op);
    if f < s.len() {
        (s, f)
    } else {
        (s.push(op), s.len() as int)
    }
}

/// The functional model of expression insertion: the node list and root
/// position that resolving `e` against entries `m` produces, inserting
/// bottom-up with sharing. Meaningful when `e` resolves without fault;
/// total regardless.
pub open spec fn build_expr(
    m: Seq<(Seq<char>, IdentifierType)>,
    s: Seq<Operation>,
    e: ast::TransitionExpr,
) -> (Seq<Operation>, int)
    decreases e,
{
    match e {
        ast::TransitionExpr::Const(v) => insert_op_spec(s, Operation::Constant(v)),
        ast::TransitionExpr::Var(id) => match lookup_in(m, id@) {
            Some(IdentifierType::MainTraceColumn(c)) => insert_op_spec(
                s,
                Operation::TraceColumn(TraceSegment::Main, c, RowOffset::Current),
            ),
            Some(IdentifierType::AuxTraceColumn(c)) => insert_op_spec(
                s,
                Operation::TraceColumn(TraceSegment::Aux, c, RowOffset::Current),
            ),
            Some(IdentifierType::PeriodicColumn(slot, _)) => insert_op_spec(
                s,
                Operation::PeriodicColumn(slot),
            ),
            _ => (s, 0),
        },
        ast::TransitionExpr::Next(id) => match lookup_in(m, id@) {
            Some(IdentifierType::MainTraceColumn(c)) => insert_op_spec(
                s,
                Operation::TraceColumn(TraceSegment::Main, c, RowOffset::Next),
            ),
            Some(IdentifierType::AuxTraceColumn(c)) => insert_op_spec(
                s,
                Operation::TraceColumn(TraceSegment::Aux, c, RowOffset::Next),
            ),
            _ => (s, 0),
        },
        ast::TransitionExpr::Rand(i) => insert_op_spec(s, Operation::RandomValue(i)),
        ast::TransitionExpr::PubInput(id, elem) => match lookup_in(m, id@) {
            Some(IdentifierType::PublicInput(slot, _)) => insert_op_spec(
                s,
                Operation::PublicInput(slot, elem),
            ),
            _ => (s, 0),
        },
        ast::TransitionExpr::Add(l, r) => {
            let (s1, li) = build_expr(m, s, *l);
            let (s2, ri) = build_expr(m, s1, *r);
            insert_op_spec(s2, Operation::Add(NodeIndex(li as usize), NodeIndex(ri as usize)))
        },
        ast::TransitionExpr::Sub(l, r) => {
            let (s1, li) = build_expr(m, s, *l);
            let (s2, ri) = build_expr(m, s1, *r);
            insert_op_spec(s2, Operation::Sub(NodeIndex(li as usize), NodeIndex(ri as usize)))
        },
        ast::TransitionExpr::Mul(l, r) => {
            let (s1, li) = build_expr(m, s, *l);
            let (s2, ri) = build_expr(m, s1, *r);
            insert_op_spec(s2, Operation::Mul(NodeIndex(li as usize), NodeIndex(ri as usize)))
        },
        ast::TransitionExpr::Exp(b, k) => {
            let (s1, bi) = build_expr(m, s, *b);
            insert_op_spec(s1, Operation::Exp(NodeIndex(bi as usize), k))
        },
    }
}

/// The functional model of one transition-constraint insertion: the node
/// list after building `lhs - rhs`, and its root position.
pub open spec fn build_constraint(
    m: Seq<(Seq<char>, IdentifierType)>,
    s: Seq<Operation>,
    c: ast::TransitionConstraint,
) -> (Seq<Operation>, int) {
    let (s1, li) = build_expr(m, s, c.lhs);
    let (s2, ri) = build_expr(m, s1, c.rhs);
    insert_op_spec(s2, Operation::Sub(NodeIndex(li as usize), NodeIndex(ri as usize)))
}

/// Appending a node that is not a dangling periodic reference keeps the
/// periodic references of a node list valid.
proof fn lemma_periodic_ok_push(s: Seq<Operation>, op: Operation, cyc: Seq<usize>)
    requires
        periodic_refs_ok(s, cyc),
        match op {
            Operation::PeriodicColumn(p) => p < cyc.len() && MIN_CYCLE_LENGTH <= cyc[p as int],
            _ => true,
        },
    ensures
        periodic_refs_ok(s.push(op), cyc),
{
    assert forall|i: int| 0 <= i < s.push(op).len() implies match #[trigger] s.push(op)[i] {
        Operation::PeriodicColumn(p) => p < cyc.len() && MIN_CYCLE_LENGTH <= cyc[p as int],
        _ => true,
    } by {
        if i < s.len() {
            assert(s.push(op)[i] == s[i]);
        } else {
            assert(s.push(op)[i] == op);
        }
    }
}

/// Resolves `expr` against the symbol table and inserts its nodes into the
/// graph bottom-up, sharing every node that already exists. On success the
/// root handle comes back with a flag telling whether any auxiliary column
/// is referenced; the root's degree is exactly the expression's degree.
fn insert_expr(
    graph: &mut AlgebraicGraph,
    symbol_table: &SymbolTable,
    expr: &ast::TransitionExpr,
) -> (r: Result<(NodeIndex, bool), SemanticError>)
    requires
        old(graph).wf(),
        symbol_table.wf(),
        periodic_refs_ok(old(graph).nodes_model(), symbol_table.periodic_lens_model()),
    ensures
        final (graph).wf(),
        extends(final (graph).nodes_model(), old(graph).nodes_model()),
        periodic_refs_ok(final (graph).nodes_model(), symbol_table.periodic_lens_model()),
        match r {
            Ok(p) => {
                &&& first_fault(symbol_table.entries_model(), *expr) is None
                &&& final (graph).nodes_model() == build_expr(
                    symbol_table.entries_model(),
                    old(graph).nodes_model(),
                    *expr,
                ).0
                &&& p.0.0 as int == build_expr(
                    symbol_table.entries_model(),
                    old(graph).nodes_model(),
                    *expr,
                ).1
                &&& p.0.0 < final (graph).nodes_model().len()
                &&& p.1 == uses_aux(symbol_table.entries_model(), *expr)
                &&& base_degree_of(final (graph).nodes_model(), p.0.0 as int) == ast_base(
                    symbol_table.entries_model(),
                    *expr,
                )
                &&& cycles_of(
                    final (graph).nodes_model(),
                    symbol_table.periodic_lens_model(),
                    p.0.0 as int,
                ) == ast_cycles(symbol_table.entries_model(), *expr)
            },
            Err(e) => first_fault(symbol_table.entries_model(), *expr) matches Some(f) && fault_matches(e, f),
        },
    decreases *expr,
{
    let ghost cyc = symbol_table.periodic_lens_model();
    match expr {
        ast::TransitionExpr::Const(v) => {
            proof {
                lemma_periodic_ok_push(graph.nodes_model(), Operation::Constant(*v), cyc);
            }
            let idx = graph.insert(Operation::Constant(*v));
            Ok((idx, false))
        },
        ast::TransitionExpr::Var(id) => match symbol_table.resolve(id) {
            Err(e) => Err(e),
            Ok(IdentifierType::MainTraceColumn(c)) => {
                let op = Operation::TraceColumn(TraceSegment::Main, c, RowOffset::Current);
                proof {
                    lemma_periodic_ok_push(graph.nodes_model(), op, cyc);
                }
                let idx = graph.insert(op);
                Ok((idx, false))
            },
            Ok(IdentifierType::AuxTraceColumn(c)) => {
                let op = Operation::TraceColumn(TraceSegment::Aux, c, RowOffset::Current);
                proof {
                    lemma_periodic_ok_push(graph.nodes_model(), op, cyc);
                }
                let idx = graph.insert(op);
                Ok((idx, true))
            },
            Ok(IdentifierType::PeriodicColumn(slot, len)) => {
                proof {
                    symbol_table.lemma_lookup_entry_ok(id@);
                    assert(cyc[slot as int] == len);
                    lemma_periodic_ok_push(graph.nodes_model(), Operation::PeriodicColumn(slot), cyc);
                }
                let idx = graph.insert(Operation::PeriodicColumn(slot));
                Ok((idx, false))
            },
            Ok(IdentifierType::PublicInput(_, _)) => Err(
                SemanticError::UndeclaredIdentifier(id.0.clone()),
            ),
        },
        ast::TransitionExpr::Next(id) => match symbol_table.resolve(id) {
            Err(e) => Err(e),
            Ok(IdentifierType::MainTraceColumn(c)) => {
                let op = Operation::TraceColumn(TraceSegment::Main, c, RowOffset::Next);
                proof {
                    lemma_periodic_ok_push(graph.nodes_model(), op, cyc);
                }
                let idx = graph.insert(op);
                Ok((idx, false))
            },
            Ok(IdentifierType::AuxTraceColumn(c)) => {
                let op = Operation::TraceColumn(TraceSegment::Aux, c, RowOffset::Next);
                proof {
                    lemma_periodic_ok_push(graph.nodes_model(), op, cyc);
                }
                let idx = graph.insert(op);
                Ok((idx, true))
            },
            Ok(IdentifierType::PeriodicColumn(_, _)) => Err(
                SemanticError::InvalidNextRowUsage(id.0.clone()),
            ),
            Ok(IdentifierType::PublicInput(_, _)) => Err(
                SemanticError::InvalidNextRowUsage(id.0.clone()),
            ),
        },
        ast::TransitionExpr::Rand(i) => {
            proof {
                lemma_periodic_ok_push(graph.nodes_model(), Operation::RandomValue(*i), cyc);
            }
            let idx = graph.insert(Operation::RandomValue(*i));
            Ok((idx, false))
        },
        ast::TransitionExpr::PubInput(id, elem) => match symbol_table.resolve(id) {
            Err(e) => Err(e),
            Ok(IdentifierType::PublicInput(slot, _)) => {
                let op = Operation::PublicInput(slot, *elem);
                proof {
                    lemma_periodic_ok_push(graph.nodes_model(), op, cyc);
                }
                let idx = graph.insert(op);
                Ok((idx, false))
            },
            Ok(IdentifierType::MainTraceColumn(_)) => Err(
                SemanticError::UndeclaredIdentifier(id.0.clone()),
            ),
            Ok(IdentifierType::AuxTraceColumn(_)) => Err(
                SemanticError::UndeclaredIdentifier(id.0.clone()),
            ),
            Ok(IdentifierType::PeriodicColumn(_, _)) => Err(
                SemanticError::UndeclaredIdentifier(id.0.clone()),
            ),
        },
        ast::TransitionExpr::Add(l, r) => {
            let (li, la) = match insert_expr(graph, symbol_table, &**l) {
                Ok(v) => v,
                Err(e) => {
                    return Err(e);
                },
            };
            let ghost g1 = graph.nodes_model();
            let (ri, ra) = match insert_expr(graph, symbol_table, &**r) {
                Ok(v) => v,
                Err(e) => {
                    return Err(e);
                },
            };
            let ghost g2 = graph.nodes_model();
            proof {
                lemma_degree_stable(g1, g2, cyc, li.0 as int);
                lemma_periodic_ok_push(g2, Operation::Add(li, ri), cyc);
            }
            let idx = graph.insert(Operation::Add(li, ri));
            proof {
                lemma_degree_stable(g2, graph.nodes_model(), cyc, li.0 as int);
                lemma_degree_stable(g2, graph.nodes_model(), cyc, ri.0 as int);
                assert(op_children_lt(graph.nodes_model()[idx.0 as int], idx.0 as int));
            }
            Ok((idx, la || ra))
        },
        ast::TransitionExpr::Sub(l, r) => {
            let (li, la) = match insert_expr(graph, symbol_table, &**l) {
                Ok(v) => v,
                Err(e) => {
                    return Err(e);
                },
            };
            let ghost g1 = graph.nodes_model();
            let (ri, ra) = match insert_expr(graph, symbol_table, &**r) {
                Ok(v) => v,
                Err(e) => {
                    return Err(e);
                },
            };
            let ghost g2 = graph.nodes_model();
            proof {
                lemma_degree_stable(g1, g2, cyc, li.0 as int);
                lemma_periodic_ok_push(g2, Operation::Sub(li, ri), cyc);
            }
            let idx = graph.insert(Operation::Sub(li, ri));
            proof {
                lemma_degree_stable(g2, graph.nodes_model(), cyc, li.0 as int);
                lemma_degree_stable(g2, graph.nodes_model(), cyc, ri.0 as int);
                assert(op_children_lt(graph.nodes_model()[idx.0 as int], idx.0 as int));
            }
            Ok((idx, la || ra))
        },
        ast::TransitionExpr::Mul(l, r) => {
            let (li, la) = match insert_expr(graph, symbol_table, &**l) {
                Ok(v) => v,
                Err(e) => {
                    return Err(e);
                },
            };
            let ghost g1 = graph.nodes_model();
            let (ri, ra) = match insert_expr(graph, symbol_table, &**r) {
                Ok(v) => v,
                Err(e) => {
                    return Err(e);
                },
            };
            let ghost g2 = graph.nodes_model();
            proof {
                lemma_degree_stable(g1, g2, cyc, li.0 as int);
                lemma_periodic_ok_push(g2, Operation::Mul(li, ri), cyc);
            }
            let idx = graph.insert(Operation::Mul(li, ri));
            proof {
                lemma_degree_stable(g2, graph.nodes_model(), cyc, li.0 as int);
                lemma_degree_stable(g2, graph.nodes_model(), cyc, ri.0 as int);
                assert(op_children_lt(graph.nodes_model()[idx.0 as int], idx.0 as int));
            }
            Ok((idx, la || ra))
        },
        ast::TransitionExpr::Exp(b, k) => {
            let (bi, ba) = match insert_expr(graph, symbol_table, &**b) {
                Ok(v) => v,
                Err(e) => {
                    return Err(e);
                },
            };
            let ghost g1 = graph.nodes_model();
            proof {
                lemma_periodic_ok_push(g1, Operation::Exp(bi, *k), cyc);
            }
            let idx = graph.insert(Operation::Exp(bi, *k));
            proof {
                lemma_degree_stable(g1, graph.nodes_model(), cyc, bi.0 as int);
                assert(op_children_lt(graph.nodes_model()[idx.0 as int], idx.0 as int));
            }
            Ok((idx, ba))
        },
    }
}
// --- THE TRANSITION CONSTRAINT STORE ------------------------------------------------------------

/// Copies a degree record's cycle contributions.
fn clone_cycles(v: &Vec<usize>) -> (r: Vec<usize>)
    ensures
        r@ == v@,
{
    let cloned = v.clone();
    proof {
        assert(cloned@ =~= v@);
    }
    cloned
}

impl Clone for TransitionConstraintDegree {
    fn clone(&self) -> (r: Self)
        ensures
            r.base_model() == self.base_model(),
            r.cycles_model() == self.cycles_model(),
    {
        TransitionConstraintDegree { base: self.base, cycles: clone_cycles(&self.cycles) }
    }
}

/// Growing the graph keeps every stored root handle in range.
proof fn lemma_roots_stay_in_range(before: TransitionConstraints, after: TransitionConstraints)
    requires
        before.wf(),
        after.main_model() == before.main_model(),
        after.aux_model() == before.aux_model(),
        extends(after.graph_nodes(), before.graph_nodes()),
    ensures
        forall|i: int|
            0 <= i < after.main_model().len() ==> (#[trigger] after.main_model()[i]).0
                < after.graph_nodes().len(),
        forall|i: int|
            0 <= i < after.aux_model().len() ==> (#[trigger] after.aux_model()[i]).0
                < after.graph_nodes().len(),
{
    assert forall|i: int|
        0 <= i < after.main_model().len() implies (#[trigger] after.main_model()[i]).0
        < after.graph_nodes().len() by {
        assert((#[trigger] before.main_model()[i]).0 < before.graph_nodes().len());
    }
    assert forall|i: int|
        0 <= i < after.aux_model().len() implies (#[trigger] after.aux_model()[i]).0
        < after.graph_nodes().len() by {
        assert((#[trigger] before.aux_model()[i]).0 < before.graph_nodes().len());
    }
}

/// The transition constraints: the shared graph and, per trace segment, the
/// ordered list of root handles, each read as "this expression equals zero
/// between every pair of consecutive rows".
#[derive(Debug)]
pub struct TransitionConstraints {
    graph: AlgebraicGraph,
    main_constraints: Vec<NodeIndex>,
    aux_constraints: Vec<NodeIndex>,
}

impl TransitionConstraints {
    /// The graph's nodes.
    pub closed spec fn graph_nodes(&self) -> Seq<Operation> {
        self.graph.nodes_model()
    }

    /// Root handles of the main-segment constraints, in insertion order.
    pub closed spec fn main_model(&self) -> Seq<NodeIndex> {
        self.main_constraints@
    }

    /// Root handles of the auxiliary-segment constraints, in insertion order.
    pub closed spec fn aux_model(&self) -> Seq<NodeIndex> {
        self.aux_constraints@
    }

    /// The graph is well-formed and every root handle points into it.
    pub open spec fn wf(&self) -> bool {
        &&& wf_nodes(self.graph_nodes())
        &&& unique_nodes(self.graph_nodes())
        &&& forall|i: int|
            0 <= i < self.main_model().len() ==> (#[trigger] self.main_model()[i]).0
                < self.graph_nodes().len()
        &&& forall|i: int|
            0 <= i < self.aux_model().len() ==> (#[trigger] self.aux_model()[i]).0
                < self.graph_nodes().len()
    }

    /// Every periodic reference of the graph points into `cyc`.
    pub open spec fn periodic_ok(&self, cyc: Seq<usize>) -> bool {
        periodic_refs_ok(self.graph_nodes(), cyc)
    }

    /// An empty store with an empty graph.
    pub fn new() -> (r: Self)
        ensures
            r.wf(),
            r.graph_nodes() == Seq::<Operation>::empty(),
            r.main_model() == Seq::<NodeIndex>::empty(),
            r.aux_model() == Seq::<NodeIndex>::empty(),
    {
        TransitionConstraints {
            graph: AlgebraicGraph::new(),
            main_constraints: Vec::new(),
            aux_constraints: Vec::new(),
        }
    }

    /// Resolves the equation `lhs = rhs` against the symbol table, inserts
    /// `lhs - rhs` into the shared graph bottom-up, and appends the root to
    /// the auxiliary list when any auxiliary column is referenced, else to
    /// the main list. Fails with the first resolution fault, left side
    /// first.
    pub fn insert(
        &mut self,
        symbol_table: &SymbolTable,
        constraint: &ast::TransitionConstraint,
    ) -> (r: Result<(), SemanticError>)
        requires
            old(self).wf(),
            symbol_table.wf(),
            old(self).periodic_ok(symbol_table.periodic_lens_model()),
        ensures
            final (self).wf(),
            final (self).periodic_ok(symbol_table.periodic_lens_model()),
            extends(final (self).graph_nodes(), old(self).graph_nodes()),
            match r {
                Ok(_) => {
                    &&& first_fault(symbol_table.entries_model(), constraint.lhs) is None
                    &&& first_fault(symbol_table.entries_model(), constraint.rhs) is None
                    &&& ({
                        let aux = uses_aux(symbol_table.entries_model(), constraint.lhs) || uses_aux(
                            symbol_table.entries_model(),
                            constraint.rhs,
                        );
                        let root = if aux {
                            final (self).aux_model().last()
                        } else {
                            final (self).main_model().last()
                        };
                        &&& (if aux {
                            final (self).aux_model() == old(self).aux_model().push(root)
                                && final (self).main_model() == old(self).main_model()
                        } else {
                            final (self).main_model() == old(self).main_model().push(root)
                                && final (self).aux_model() == old(self).aux_model()
                        })
                        &&& root.0 < final (self).graph_nodes().len()
                        &&& final (self).graph_nodes() == build_constraint(
                            symbol_table.entries_model(),
                            old(self).graph_nodes(),
                            *constraint,
                        ).0
                        &&& root.0 as int == build_constraint(
                            symbol_table.entries_model(),
                            old(self).graph_nodes(),
                            *constraint,
                        ).1
                        &&& base_degree_of(final (self).graph_nodes(), root.0 as int) == max_nat(
                            ast_base(symbol_table.entries_model(), constraint.lhs),
                            ast_base(symbol_table.entries_model(), constraint.rhs),
                        )
                        &&& cycles_of(
                            final (self).graph_nodes(),
                            symbol_table.periodic_lens_model(),
                            root.0 as int,
                        ) == merge_max(
                            ast_cycles(symbol_table.entries_model(), constraint.lhs),
                            ast_cycles(symbol_table.entries_model(), constraint.rhs),
                        )
                    })
                },
                Err(e) => {
                    &&& (first_fault(symbol_table.entries_model(), constraint.lhs) is Some || first_fault(
                        symbol_table.entries_model(),
                        constraint.rhs,
                    ) is Some)
                    &&& final (self).main_model() == old(self).main_model()
                    &&& final (self).aux_model() == old(self).aux_model()
                    &&& match first_fault(symbol_table.entries_model(), constraint.lhs) {
                        Some(f) => fault_matches(e, f),
                        None => match first_fault(symbol_table.entries_model(), constraint.rhs) {
                            Some(f) => fault_matches(e, f),
                            None => false,
                        },
                    }
                },
            },
    {
        let ghost cyc = symbol_table.periodic_lens_model();
        let (li, la) = match insert_expr(&mut self.graph, symbol_table, &constraint.lhs) {
            Ok(v) => v,
            Err(e) => {
                proof {
                    lemma_roots_stay_in_range(*old(self), *self);
                }
                return Err(e);
            },
        };
        let ghost g1 = self.graph.nodes_model();
        let (ri, ra) = match insert_expr(&mut self.graph, symbol_table, &constraint.rhs) {
            Ok(v) => v,
            Err(e) => {
                proof {
                    lemma_roots_stay_in_range(*old(self), *self);
                }
                return Err(e);
            },
        };
        let ghost g2 = self.graph.nodes_model();
        proof {
            lemma_degree_stable(g1, g2, cyc, li.0 as int);
            lemma_periodic_ok_push(g2, Operation::Sub(li, ri), cyc);
        }
        let root = self.graph.insert(Operation::Sub(li, ri));
        proof {
            lemma_degree_stable(g2, self.graph.nodes_model(), cyc, li.0 as int);
            lemma_degree_stable(g2, self.graph.nodes_model(), cyc, ri.0 as int);
            assert(op_children_lt(self.graph.nodes_model()[root.0 as int], root.0 as int));
        }
        proof {
            lemma_roots_stay_in_range(*old(self), *self);
        }
        let ghost mid = *self;
        if la || ra {
            self.aux_constraints.push(root);
            proof {
                assert(self.aux_model().last() == root);
                assert(self.aux_model() =~= old(self).aux_model().push(root));
                assert forall|t: int|
                    0 <= t < self.aux_model().len() implies (#[trigger] self.aux_model()[t]).0
                    < self.graph_nodes().len() by {
                    if t < mid.aux_model().len() {
                        assert((#[trigger] mid.aux_model()[t]).0 < mid.graph_nodes().len());
                    }
                }
            }
        } else {
            self.main_constraints.push(root);
            proof {
                assert(self.main_model().last() == root);
                assert(self.main_model() =~= old(self).main_model().push(root));
                assert forall|t: int|
                    0 <= t < self.main_model().len() implies (#[trigger] self.main_model()[t]).0
                    < self.graph_nodes().len() by {
                    if t < mid.main_model().len() {
                        assert((#[trigger] mid.main_model()[t]).0 < mid.graph_nodes().len());
                    }
                }
            }
        }
        Ok(())
    }

    /// Degree records of the main-segment constraints, in insertion order.
    pub fn main_degrees(&self, cycle_lens: &Vec<usize>) -> (r: Vec<TransitionConstraintDegree>)
        requires
            self.wf(),
            self.periodic_ok(cycle_lens@),
        ensures
            r@.len() == self.main_model().len(),
            forall|i: int|
                0 <= i < r@.len() ==> (#[trigger] r@[i]).base_model() == capped(
                    base_degree_of(self.graph_nodes(), self.main_model()[i].0 as int) as int,
                ) && r@[i].cycles_model() == cycles_of(
                    self.graph_nodes(),
                    cycle_lens@,
                    self.main_model()[i].0 as int,
                ),
    {
        let all = self.graph.degrees_all(cycle_lens);
        let mut out: Vec<TransitionConstraintDegree> = Vec::new();
        let mut i: usize = 0;
        while i < self.main_constraints.len()
            invariant
                self.wf(),
                self.periodic_ok(cycle_lens@),
                i <= self.main_model().len(),
                out@.len() == i,
                all@.len() == self.graph_nodes().len(),
                forall|t: int|
                    0 <= t < all@.len() ==> (#[trigger] all@[t]).base_model() == capped(
                        base_degree_of(self.graph_nodes(), t) as int,
                    ) && all@[t].cycles_model() == cycles_of(self.graph_nodes(), cycle_lens@, t),
                forall|t: int|
                    0 <= t < i ==> (#[trigger] out@[t]).base_model() == capped(
                        base_degree_of(self.graph_nodes(), self.main_model()[t].0 as int) as int,
                    ) && out@[t].cycles_model() == cycles_of(
                        self.graph_nodes(),
                        cycle_lens@,
                        self.main_model()[t].0 as int,
                    ),
            decreases self.main_model().len() - i,
        {
            let root = self.main_constraints[i];
            out.push(all[root.0].clone());
            i = i + 1;
        }
        out
    }

    /// Degree records of the auxiliary-segment constraints, in insertion
    /// order.
    pub fn aux_degrees(&self, cycle_lens: &Vec<usize>) -> (r: Vec<TransitionConstraintDegree>)
        requires
            self.wf(),
            self.periodic_ok(cycle_lens@),
        ensures
            r@.len() == self.aux_model().len(),
            forall|i: int|
                0 <= i < r@.len() ==> (#[trigger] r@[i]).base_model() == capped(
                    base_degree_of(self.graph_nodes(), self.aux_model()[i].0 as int) as int,
                ) && r@[i].cycles_model() == cycles_of(
                    self.graph_nodes(),
                    cycle_lens@,
                    self.aux_model()[i].0 as int,
                ),
    {
        let all = self.graph.degrees_all(cycle_lens);
        let mut out: Vec<TransitionConstraintDegree> = Vec::new();
        let mut i: usize = 0;
        while i < self.aux_constraints.len()
            invariant
                self.wf(),
                self.periodic_ok(cycle_lens@),
                i <= self.aux_model().len(),
                out@.len() == i,
                all@.len() == self.graph_nodes().len(),
                forall|t: int|
                    0 <= t < all@.len() ==> (#[trigger] all@[t]).base_model() == capped(
                        base_degree_of(self.graph_nodes(), t) as int,
                    ) && all@[t].cycles_model() == cycles_of(self.graph_nodes(), cycle_lens@, t),
                forall|t: int|
                    0 <= t < i ==> (#[trigger] out@[t]).base_model() == capped(
                        base_degree_of(self.graph_nodes(), self.aux_model()[t].0 as int) as int,
                    ) && out@[t].cycles_model() == cycles_of(
                        self.graph_nodes(),
                        cycle_lens@,
                        self.aux_model()[t].0 as int,
                    ),
            decreases self.aux_model().len() - i,
        {
            let root = self.aux_constraints[i];
            out.push(all[root.0].clone());
            i = i + 1;
        }
        out
    }

    /// Root handles of the main-segment constraints.
    pub fn main_constraints(&self) -> (r: &[NodeIndex])
        ensures
            r@ == self.main_model(),
    {
        self.main_constraints.as_slice()
    }

    /// Root handles of the auxiliary-segment constraints.
    pub fn aux_constraints(&self) -> (r: &[NodeIndex])
        ensures
            r@ == self.aux_model(),
    {
        self.aux_constraints.as_slice()
    }

    /// Read access to the shared graph.
    pub fn graph(&self) -> (r: &AlgebraicGraph)
        ensures
            r.nodes_model() == self.graph_nodes(),
    {
        &self.graph
    }
}

// --- DEGREE LAWS --------------------------------------------------------------------------------

/// Degree additivity. In a well-formed graph, a product's base degree is
/// the sum of its operands' base degrees, a sum's or difference's is the
/// larger of the two, and raising to the constant `k` multiplies the base
/// degree by `k`.
pub proof fn lemma_degree_additivity(s: Seq<Operation>, i: int)
    requires
        wf_nodes(s),
        0 <= i < s.len(),
    ensures
        s[i] matches Operation::Mul(l, r) ==> base_degree_of(s, i) == base_degree_of(s, l.0 as int)
            + base_degree_of(s, r.0 as int),
        s[i] matches Operation::Add(l, r) ==> base_degree_of(s, i) == max_nat(
            base_degree_of(s, l.0 as int),
            base_degree_of(s, r.0 as int),
        ),
        s[i] matches Operation::Sub(l, r) ==> base_degree_of(s, i) == max_nat(
            base_degree_of(s, l.0 as int),
            base_degree_of(s, r.0 as int),
        ),
        s[i] matches Operation::Exp(b, k) ==> base_degree_of(s, i) == base_degree_of(s, b.0 as int)
            * (k as nat),
{
    assert(op_children_lt(s[i], i));
}

/// Periodic contribution. A node referencing periodic column `p` of cycle
/// length `L` has base degree zero, and its cycle contributions are the
/// one-element multiset holding `L - 1`.
pub proof fn lemma_periodic_contribution(s: Seq<Operation>, cyc: Seq<usize>, i: int, p: usize)
    requires
        0 <= i < s.len(),
        s[i] == Operation::PeriodicColumn(p),
        p < cyc.len(),
        cyc[p as int] >= 1,
    ensures
        base_degree_of(s, i) == 0,
        cycles_of(s, cyc, i) == seq![(cyc[p as int] - 1) as usize],
{
}
} // verus!
