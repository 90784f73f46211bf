//! The symbol table of pass 1: maps every declared name to a typed, indexed
//! slot, enforces global name uniqueness across all declaration kinds, and
//! resolves identifier references during constraint construction.

use vstd::prelude::*;
use crate::ast::{Identifier, PeriodicColumn, PublicInput};
use crate::error::{BuildFault, SemanticError};
use crate::transition_constraints::MIN_CYCLE_LENGTH;

verus! {

/// What a declared name stands for, with the indices a reference needs.
#[derive(Clone, Copy, Debug, PartialEq, Eq, Structural)]
pub enum IdentifierType {
    /// A main trace column and its index among the main columns.
    MainTraceColumn(usize),
    /// An auxiliary trace column and its index among the auxiliary columns.
    AuxTraceColumn(usize),
    /// A public input: its slot in the declared list and its declared size.
    PublicInput(usize, usize),
    /// A periodic column: its slot in the declared list and its cycle length.
    PeriodicColumn(usize, usize),
}

/// First match of `name` in `m` at or after position `i`.
pub open spec fn lookup_from(
    m: Seq<(Seq<char>, IdentifierType)>,
    name: Seq<char>,
    i: int,
) -> Option<IdentifierType>
    decreases m.len() - i,
{
    if i < 0 || i >= m.len() {
        None
    } else if m[i].0 == name {
        Some(m[i].1)
    } else {
        lookup_from(m, name, i + 1)
    }
}

/// First match of `name` in the whole of `m`.
pub open spec fn lookup_in(
    m: Seq<(Seq<char>, IdentifierType)>,
    name: Seq<char>,
) -> Option<IdentifierType> {
    lookup_from(m, name, 0)
}

pub proof fn lemma_lookup_from_some_iff(
    m: Seq<(Seq<char>, IdentifierType)>,
    name: Seq<char>,
    i: int,
)
    requires
        0 <= i <= m.len(),
    ensures
        lookup_from(m, name, i) is Some <==> exists|j: int| i <= j < m.len() && m[j].0 == name,
    decreases m.len() - i,
{
    if i < m.len() {
        lemma_lookup_from_some_iff(m, name, i + 1);
        if m[i].0 == name {
            assert(i <= i < m.len() && m[i].0 == name);
        }
    }
}

/// Looking a name up in a concatenation searches the left part first.
pub proof fn lemma_lookup_append(
    a: Seq<(Seq<char>, IdentifierType)>,
    b: Seq<(Seq<char>, IdentifierType)>,
    name: Seq<char>,
)
    ensures
        lookup_in(a + b, name) == (if lookup_in(a, name) is Some {
            lookup_in(a, name)
        } else {
            lookup_in(b, name)
        }),
{
    lemma_lookup_from_append(a, b, name, 0);
}

proof fn lemma_lookup_from_append(
    a: Seq<(Seq<char>, IdentifierType)>,
    b: Seq<(Seq<char>, IdentifierType)>,
    name: Seq<char>,
    i: int,
)
    requires
        0 <= i <= a.len(),
    ensures
        lookup_from(a + b, name, i) == (if lookup_from(a, name, i) is Some {
            lookup_from(a, name, i)
        } else {
            lookup_in(b, name)
        }),
    decreases a.len() - i,
{
    if i < a.len() {
        assert((a + b)[i] == a[i]);
        lemma_lookup_from_append(a, b, name, i + 1);
    } else {
        lemma_lookup_from_tail(a, b, name, 0);
    }
}

proof fn lemma_lookup_from_tail(
    a: Seq<(Seq<char>, IdentifierType)>,
    b: Seq<(Seq<char>, IdentifierType)>,
    name: Seq<char>,
    j: int,
)
    requires
        0 <= j <= b.len(),
    ensures
        lookup_from(a + b, name, a.len() + j) == lookup_from(b, name, j),
    decreases b.len() - j,
{
    if j < b.len() {
        assert((a + b)[a.len() + j] == b[j]);
        lemma_lookup_from_tail(a, b, name, j + 1);
    }
}

pub proof fn lemma_lookup_from_found(
    m: Seq<(Seq<char>, IdentifierType)>,
    name: Seq<char>,
    i: int,
)
    requires
        0 <= i <= m.len(),
    ensures
        match lookup_from(m, name, i) {
            Some(t) => exists|j: int| i <= j < m.len() && m[j] == (name, t),
            None => true,
        },
    decreases m.len() - i,
{
    if i < m.len() {
        if m[i].0 == name {
            assert(m[i] == (name, m[i].1));
        } else {
            lemma_lookup_from_found(m, name, i + 1);
        }
    }
}

/// Whether `n` is a power of two.
pub open spec fn is_power_of_two(n: int) -> bool
    decreases n,
{
    if n <= 0 {
        false
    } else if n == 1 {
        true
    } else {
        n % 2 == 0 && is_power_of_two(n / 2)
    }
}

/// A periodic column may declare `len` values exactly when `len` is a power
/// of two no smaller than the minimum cycle length.
pub open spec fn valid_cycle_len(len: int) -> bool {
    len >= MIN_CYCLE_LENGTH && is_power_of_two(len)
}

/// Names of a declaration list, in order.
pub open spec fn names_of(cols: Seq<Identifier>) -> Seq<Seq<char>> {
    cols.map(|i: int, c: Identifier| c@)
}

/// Names of a public-input declaration list, in order.
pub open spec fn pub_input_names(decls: Seq<PublicInput>) -> Seq<Seq<char>> {
    decls.map(|i: int, d: PublicInput| d.name@)
}

/// Names of a periodic-column declaration list, in order.
pub open spec fn periodic_names(decls: Seq<PeriodicColumn>) -> Seq<Seq<char>> {
    decls.map(|i: int, d: PeriodicColumn| d.name@)
}

/// Table entries that a list of public-input declarations adds, the first
/// one taking slot `start`.
pub open spec fn pub_input_entries(decls: Seq<PublicInput>, start: int) -> Seq<
    (Seq<char>, IdentifierType),
> {
    Seq::new(
        decls.len(),
        |i: int| (decls[i].name@, IdentifierType::PublicInput((start + i) as usize, decls[i].size)),
    )
}

/// Table entries that a list of periodic-column declarations adds, the first
/// one taking slot `start`.
pub open spec fn periodic_col_entries(decls: Seq<PeriodicColumn>, start: int) -> Seq<
    (Seq<char>, IdentifierType),
> {
    Seq::new(
        decls.len(),
        |i: int|
            (
                decls[i].name@,
                IdentifierType::PeriodicColumn((start + i) as usize, decls[i].values@.len() as usize),
            ),
    )
}

/// Decides [`valid_cycle_len`] by repeated halving.
pub fn cycle_length_valid(len: usize) -> (r: bool)
    ensures
        r == valid_cycle_len(len as int),
{
    if len < MIN_CYCLE_LENGTH {
        return false;
    }
    let mut m = len;
    while m > 1
        invariant
            1 <= m <= len,
            is_power_of_two(len as int) <==> is_power_of_two(m as int),
        decreases m,
    {
        if m % 2 == 1 {
            return false;
        }
        m = m / 2;
    }
    true
}

/// Copies a periodic column's values into the table.
fn clone_values(values: &Vec<u64>) -> (r: Vec<u64>)
    ensures
        r@ == values@,
{
    let cloned = values.clone();
    proof {
        assert(cloned@ =~= values@);
    }
    cloned
}

/// Declaration `i` of `names` collides: its name is already bound in `m`,
/// or an earlier declaration of the same list uses it.
pub open spec fn decl_fault_at(
    m: Seq<(Seq<char>, IdentifierType)>,
    names: Seq<Seq<char>>,
    i: int,
) -> bool {
    lookup_in(m, names[i]) is Some || exists|j: int| 0 <= j < i && names[j] == names[i]
}

/// First colliding position of `names` at or after `i`, or `names.len()`.
pub open spec fn first_colliding_from(
    m: Seq<(Seq<char>, IdentifierType)>,
    names: Seq<Seq<char>>,
    i: int,
) -> int
    decreases names.len() - i,
{
    if !(0 <= i < names.len()) {
        names.len() as int
    } else if decl_fault_at(m, names, i) {
        i
    } else {
        first_colliding_from(m, names, i + 1)
    }
}

/// First colliding position of `names` against table entries `m`.
pub open spec fn first_colliding(
    m: Seq<(Seq<char>, IdentifierType)>,
    names: Seq<Seq<char>>,
) -> int {
    first_colliding_from(m, names, 0)
}

pub proof fn lemma_first_colliding_skip(
    m: Seq<(Seq<char>, IdentifierType)>,
    names: Seq<Seq<char>>,
    i: int,
)
    requires
        0 <= i <= names.len(),
        forall|j: int| 0 <= j < i ==> !decl_fault_at(m, names, j),
    ensures
        first_colliding(m, names) == first_colliding_from(m, names, i),
    decreases i,
{
    if i > 0 {
        lemma_first_colliding_skip(m, names, i - 1);
        assert(first_colliding_from(m, names, i - 1) == first_colliding_from(m, names, i));
    }
}

/// An admissible list collides nowhere.
pub proof fn lemma_admissible_no_fault(
    m: Seq<(Seq<char>, IdentifierType)>,
    names: Seq<Seq<char>>,
)
    requires
        decls_admissible(m, names),
    ensures
        forall|j: int| 0 <= j < names.len() ==> !decl_fault_at(m, names, j),
        first_colliding(m, names) == names.len(),
{
    assert forall|j: int| 0 <= j < names.len() implies !decl_fault_at(m, names, j) by {
        assert(lookup_in(m, names[j]) is None);
    }
    lemma_first_colliding_skip(m, names, names.len() as int);
}

/// First fault among a periodic-column declaration list against `m`: for
/// each column a collision is reported before an invalid cycle, in order.
pub open spec fn first_periodic_fault_from(
    m: Seq<(Seq<char>, IdentifierType)>,
    decls: Seq<PeriodicColumn>,
    i: int,
) -> Option<BuildFault>
    decreases decls.len() - i,
{
    if !(0 <= i < decls.len()) {
        None
    } else if decl_fault_at(m, periodic_names(decls), i) {
        Some(BuildFault::Duplicate(decls[i].name@))
    } else if !valid_cycle_len(decls[i].values@.len() as int) {
        Some(BuildFault::InvalidCycle(decls[i].name@, decls[i].values@.len() as usize))
    } else {
        first_periodic_fault_from(m, decls, i + 1)
    }
}

/// First fault of a whole periodic-column declaration list.
pub open spec fn first_periodic_fault(
    m: Seq<(Seq<char>, IdentifierType)>,
    decls: Seq<PeriodicColumn>,
) -> Option<BuildFault> {
    first_periodic_fault_from(m, decls, 0)
}

pub proof fn lemma_first_periodic_fault_skip(
    m: Seq<(Seq<char>, IdentifierType)>,
    decls: Seq<PeriodicColumn>,
    i: int,
)
    requires
        0 <= i <= decls.len(),
        forall|j: int|
            0 <= j < i ==> !decl_fault_at(m, periodic_names(decls), j) && valid_cycle_len(
                (#[trigger] decls[j]).values@.len() as int,
            ),
    ensures
        first_periodic_fault(m, decls) == first_periodic_fault_from(m, decls, i),
    decreases i,
{
    if i > 0 {
        lemma_first_periodic_fault_skip(m, decls, i - 1);
        assert(first_periodic_fault_from(m, decls, i - 1) == first_periodic_fault_from(
            m,
            decls,
            i,
        ));
    }
}

/// An admissible prefix collides nowhere.
pub proof fn lemma_admissible_prefix_no_fault(
    m: Seq<(Seq<char>, IdentifierType)>,
    names: Seq<Seq<char>>,
    i: int,
)
    requires
        0 <= i <= names.len(),
        decls_admissible(m, names.take(i)),
    ensures
        forall|j: int| 0 <= j < i ==> !decl_fault_at(m, names, j),
{
    assert forall|j: int| 0 <= j < i implies !decl_fault_at(m, names, j) by {
        assert(names.take(i)[j] == names[j]);
        assert(lookup_in(m, names.take(i)[j]) is None);
        assert forall|j2: int| 0 <= j2 < j implies names[j2] != names[j] by {
            assert(names.take(i)[j2] == names[j2]);
        }
    }
}

/// A name found while its prefix was admissible is the first collision.
proof fn lemma_first_fault_found(
    m: Seq<(Seq<char>, IdentifierType)>,
    added: Seq<(Seq<char>, IdentifierType)>,
    names: Seq<Seq<char>>,
    i: int,
)
    requires
        0 <= i < names.len(),
        added.len() == i,
        forall|j: int| 0 <= j < added.len() ==> (#[trigger] added[j]).0 == names[j],
        decls_admissible(m, names.take(i)),
        lookup_in(m + added, names[i]) is Some,
    ensures
        forall|j: int| 0 <= j < i ==> !decl_fault_at(m, names, j),
        decl_fault_at(m, names, i),
        first_colliding(m, names) == i,
{
    lemma_admissible_prefix_no_fault(m, names, i);
    lemma_lookup_append(m, added, names[i]);
    if lookup_in(m, names[i]) is Some {
    } else {
        lemma_lookup_from_some_iff(added, names[i], 0);
        let j = choose|j: int| 0 <= j < added.len() && added[j].0 == names[i];
        assert(names[j] == names[i]);
    }
    lemma_first_colliding_skip(m, names, i);
}

/// A name absent from the grown table does not collide at its position.
proof fn lemma_no_fault_here(
    m: Seq<(Seq<char>, IdentifierType)>,
    added: Seq<(Seq<char>, IdentifierType)>,
    names: Seq<Seq<char>>,
    i: int,
)
    requires
        0 <= i < names.len(),
        added.len() == i,
        forall|j: int| 0 <= j < added.len() ==> (#[trigger] added[j]).0 == names[j],
        lookup_in(m + added, names[i]) is None,
    ensures
        !decl_fault_at(m, names, i),
{
    lemma_lookup_append(m, added, names[i]);
    lemma_lookup_from_some_iff(added, names[i], 0);
    assert forall|j: int| 0 <= j < i implies names[j] != names[i] by {
        assert(added[j].0 == names[j]);
    }
}

/// A periodic declaration list only ever reports a duplicate name or an
/// invalid cycle.
pub proof fn lemma_first_periodic_fault_kind(
    m: Seq<(Seq<char>, IdentifierType)>,
    decls: Seq<PeriodicColumn>,
    i: int,
)
    ensures
        match first_periodic_fault_from(m, decls, i) {
            Some(f) => f is Duplicate || f is InvalidCycle,
            None => true,
        },
    decreases decls.len() - i,
{
    if 0 <= i < decls.len() {
        lemma_first_periodic_fault_kind(m, decls, i + 1);
    }
}

/// The declarations `names` may all enter a table whose entries are `m`:
/// none is already bound, and no two of them collide with each other.
pub open spec fn decls_admissible(
    m: Seq<(Seq<char>, IdentifierType)>,
    names: Seq<Seq<char>>,
) -> bool {
    &&& forall|i: int| 0 <= i < names.len() ==> lookup_in(m, #[trigger] names[i]) is None
    &&& forall|i: int, j: int| 0 <= i < j < names.len() ==> names[i] != names[j]
}

/// Table entries that a list of main-column declarations adds, the first one
/// taking index `start`.
pub open spec fn main_col_entries(names: Seq<Seq<char>>, start: int) -> Seq<
    (Seq<char>, IdentifierType),
> {
    Seq::new(names.len(), |i: int| (names[i], IdentifierType::MainTraceColumn((start + i) as usize)))
}

/// Table entries that a list of auxiliary-column declarations adds.
pub open spec fn aux_col_entries(names: Seq<Seq<char>>, start: int) -> Seq<
    (Seq<char>, IdentifierType),
> {
    Seq::new(names.len(), |i: int| (names[i], IdentifierType::AuxTraceColumn((start + i) as usize)))
}

/// The symbol table built by pass 1 and consulted by pass 2. Owned by the
/// builder alone and discarded once its declarations are copied into the IR.
#[derive(Debug)]
pub struct SymbolTable {
    /// Every declared name with its meaning, in declaration order.
    entries: Vec<(String, IdentifierType)>,
    num_main_cols: usize,
    num_aux_cols: usize,
    /// Declared public inputs, in declaration order.
    public_inputs: Vec<(String, usize)>,
    /// Declared periodic column values, in declaration order.
    periodic_columns: Vec<Vec<u64>>,
}

impl SymbolTable {
    /// The entries as mathematical values: each name as a character sequence.
    pub closed spec fn entries_model(&self) -> Seq<(Seq<char>, IdentifierType)> {
        self.entries@.map(|i: int, e: (String, IdentifierType)| (e.0@, e.1))
    }

    /// The declared public inputs as `(name, size)` pairs.
    pub closed spec fn public_inputs_model(&self) -> Seq<(Seq<char>, usize)> {
        self.public_inputs@.map(|i: int, e: (String, usize)| (e.0@, e.1))
    }

    /// The declared periodic columns' value lists.
    pub closed spec fn periodic_model(&self) -> Seq<Seq<u64>> {
        self.periodic_columns@.map(|i: int, v: Vec<u64>| v@)
    }

    /// Cycle lengths of the declared periodic columns, in order.
    pub open spec fn periodic_lens_model(&self) -> Seq<usize> {
        Seq::new(self.periodic_model().len(), |i: int| self.periodic_model()[i].len() as usize)
    }

    /// How many main trace columns are declared so far.
    pub closed spec fn num_main(&self) -> usize {
        self.num_main_cols
    }

    /// How many auxiliary trace columns are declared so far.
    pub closed spec fn num_aux(&self) -> usize {
        self.num_aux_cols
    }

    /// What `name` resolves to, if anything.
    pub open spec fn lookup(&self, name: Seq<char>) -> Option<IdentifierType> {
        lookup_in(self.entries_model(), name)
    }

    /// One entry is internally consistent with the table's stores.
    pub open spec fn entry_ok(&self, name: Seq<char>, t: IdentifierType) -> bool {
        match t {
            IdentifierType::MainTraceColumn(c) => c < self.num_main(),
            IdentifierType::AuxTraceColumn(c) => c < self.num_aux(),
            IdentifierType::PublicInput(slot, size) => {
                &&& slot < self.public_inputs_model().len()
                &&& self.public_inputs_model()[slot as int] == (name, size)
            },
            IdentifierType::PeriodicColumn(slot, len) => {
                &&& slot < self.periodic_model().len()
                &&& self.periodic_model()[slot as int].len() == len
                &&& valid_cycle_len(len as int)
            },
        }
    }

    /// Well-formedness: names are unique across all kinds, every entry's
    /// indices point into the table's stores, and the counters are bounded.
    pub open spec fn wf(&self) -> bool {
        &&& forall|i: int, j: int|
            0 <= i < j < self.entries_model().len() ==> self.entries_model()[i].0
                != self.entries_model()[j].0
        &&& forall|i: int|
            0 <= i < self.entries_model().len() ==> self.entry_ok(
                (#[trigger] self.entries_model()[i]).0,
                self.entries_model()[i].1,
            )
        &&& self.num_main() <= self.entries_model().len()
        &&& self.num_aux() <= self.entries_model().len()
        &&& self.public_inputs_model().len() <= self.entries_model().len()
        &&& self.periodic_model().len() <= self.entries_model().len()
    }

    /// In a well-formed table, whatever a name resolves to is internally
    /// consistent with the table's stores.
    pub proof fn lemma_lookup_entry_ok(&self, name: Seq<char>)
        requires
            self.wf(),
        ensures
            match self.lookup(name) {
                Some(t) => self.entry_ok(name, t),
                None => true,
            },
    {
        lemma_lookup_from_found(self.entries_model(), name, 0);
        if let Some(t) = self.lookup(name) {
            let j = choose|j: int|
                0 <= j < self.entries_model().len() && self.entries_model()[j] == (name, t);
            assert(self.entry_ok(
                (#[trigger] self.entries_model()[j]).0,
                self.entries_model()[j].1,
            ));
        }
    }

    /// An empty table, ready for pass 1.
    pub fn new() -> (r: Self)
        ensures
            r.wf(),
            r.entries_model() == Seq::<(Seq<char>, IdentifierType)>::empty(),
            r.public_inputs_model() == Seq::<(Seq<char>, usize)>::empty(),
            r.periodic_model() == Seq::<Seq<u64>>::empty(),
            r.num_main() == 0,
            r.num_aux() == 0,
    {
        let r = SymbolTable {
            entries: Vec::new(),
            num_main_cols: 0,
            num_aux_cols: 0,
            public_inputs: Vec::new(),
            periodic_columns: Vec::new(),
        };
        proof {
            assert(r.entries_model() =~= Seq::<(Seq<char>, IdentifierType)>::empty());
            assert(r.public_inputs_model() =~= Seq::<(Seq<char>, usize)>::empty());
            assert(r.periodic_model() =~= Seq::<Seq<u64>>::empty());
        }
        r
    }

    /// First match of `name` among the entries.
    fn lookup_exec(&self, name: &String) -> (r: Option<IdentifierType>)
        ensures
            r == lookup_in(self.entries_model(), name@),
    {
        let ghost m = self.entries_model();
        let mut i: usize = 0;
        while i < self.entries.len()
            invariant
                i <= self.entries@.len(),
                m == self.entries_model(),
                lookup_in(m, name@) == lookup_from(m, name@, i as int),
            decreases self.entries@.len() - i,
        {
            if self.entries[i].0 == *name {
                assert(m[i as int].0 == name@);
                return Some(self.entries[i].1);
            }
            assert(m[i as int].0 != name@);
            i = i + 1;
        }
        None
    }

    /// Resolves a referenced name to its binding, as pass 2 requires; fails
    /// with an "undeclared identifier" error on a name never declared.
    pub fn resolve(&self, name: &Identifier) -> (r: Result<IdentifierType, SemanticError>)
        ensures
            match r {
                Ok(t) => self.lookup(name@) == Some(t),
                Err(e) => {
                    &&& self.lookup(name@) is None
                    &&& e matches SemanticError::UndeclaredIdentifier(n) && n@ == name@
                },
            },
    {
        match self.lookup_exec(&name.0) {
            Some(t) => Ok(t),
            None => Err(SemanticError::UndeclaredIdentifier(name.0.clone())),
        }
    }

    /// Declares the main trace columns, assigning consecutive indices in
    /// order; fails with a "duplicate identifier" error exactly when a name
    /// is already bound or repeats within the list.
    #[allow(unused_variables)]
    pub fn insert_main_trace_columns(&mut self, columns: &Vec<Identifier>) -> (r: Result<
        (),
        SemanticError,
    >)
        requires
            old(self).wf(),
        ensures
            final (self).wf(),
            final (self).public_inputs_model() == old(self).public_inputs_model(),
            final (self).periodic_model() == old(self).periodic_model(),
            final (self).num_aux() == old(self).num_aux(),
            match r {
                Ok(_) => {
                    &&& decls_admissible(old(self).entries_model(), names_of(columns@))
                    &&& final (self).entries_model() == old(self).entries_model()
                        + main_col_entries(names_of(columns@), old(self).num_main() as int)
                    &&& final (self).num_main() == old(self).num_main() + columns@.len()
                },
                Err(e) => {
                    &&& !decls_admissible(old(self).entries_model(), names_of(columns@))
                    &&& first_colliding(old(self).entries_model(), names_of(columns@))
                        < names_of(columns@).len()
                    &&& e matches SemanticError::DuplicateIdentifier(n) && n@ == names_of(
                        columns@,
                    )[first_colliding(old(self).entries_model(), names_of(columns@))]
                },
            },
    {
        let ghost orig = *old(self);
        let ghost names = names_of(columns@);
        let mut i: usize = 0;
        while i < columns.len()
            invariant
                orig == *old(self),
                i <= columns@.len(),
                names == names_of(columns@),
                self.wf(),
                self.public_inputs_model() == orig.public_inputs_model(),
                self.periodic_model() == orig.periodic_model(),
                self.num_aux() == orig.num_aux(),
                orig.wf(),
                decls_admissible(orig.entries_model(), names.take(i as int)),
                self.entries_model() == orig.entries_model() + main_col_entries(
                    names.take(i as int),
                    orig.num_main() as int,
                ),
                self.num_main() == orig.num_main() + i,
            decreases columns@.len() - i,
        {
            let ghost pre = *self;
            let ghost added = main_col_entries(names.take(i as int), orig.num_main() as int);
            let col = &columns[i];
            match self.lookup_exec(&col.0) {
                Some(_) => {
                    proof {
                        lemma_found_name_breaks_admissibility(orig, added, names, i as int);
                        assert forall|j: int|
                            0 <= j < added.len() implies (#[trigger] added[j]).0 == names[j] by {
                            assert(added[j].0 == names.take(i as int)[j]);
                        }
                        lemma_first_fault_found(orig.entries_model(), added, names, i as int);
                    }
                    return Err(SemanticError::DuplicateIdentifier(col.0.clone()));
                },
                None => {},
            }
            proof {
                lemma_lookup_append(orig.entries_model(), added, names[i as int]);
                lemma_lookup_from_some_iff(added, names[i as int], 0);
                assert forall|j: int| 0 <= j < i implies #[trigger] names.take(i as int + 1)[j]
                    != names[i as int] by {
                    assert(added[j].0 == names[j]);
                }
                assert(decls_admissible(orig.entries_model(), names.take(i as int + 1)));
            }
            let idx = self.num_main_cols;
            self.entries.push((col.0.clone(), IdentifierType::MainTraceColumn(idx)));
            let n = self.entries.len();
            proof {
                assert(idx < n);
            }
            self.num_main_cols = idx + 1;
            proof {
                assert(self.entries_model() =~= pre.entries_model().push(
                    (names[i as int], IdentifierType::MainTraceColumn(idx)),
                ));
                assert(self.entries_model() =~= orig.entries_model() + main_col_entries(
                    names.take(i as int + 1),
                    orig.num_main() as int,
                ));
                assert forall|k: int|
                    0 <= k < self.entries_model().len() implies self.entry_ok(
                    (#[trigger] self.entries_model()[k]).0,
                    self.entries_model()[k].1,
                ) by {
                    if k < pre.entries_model().len() {
                        assert(pre.entry_ok(pre.entries_model()[k].0, pre.entries_model()[k].1));
                    }
                }
                assert forall|p: int, q: int|
                    0 <= p < q < self.entries_model().len() implies self.entries_model()[p].0
                    != self.entries_model()[q].0 by {
                    if q == self.entries_model().len() - 1 {
                        lemma_lookup_from_some_iff(pre.entries_model(), names[i as int], 0);
                    }
                }
            }
            i = i + 1;
        }
        proof {
            assert(names.take(columns@.len() as int) =~= names);
        }
        Ok(())
    }

    /// Declares the auxiliary trace columns, as for the main columns.
    #[allow(unused_variables)]
    pub fn insert_aux_trace_columns(&mut self, columns: &Vec<Identifier>) -> (r: Result<
        (),
        SemanticError,
    >)
        requires
            old(self).wf(),
        ensures
            final (self).wf(),
            final (self).public_inputs_model() == old(self).public_inputs_model(),
            final (self).periodic_model() == old(self).periodic_model(),
            final (self).num_main() == old(self).num_main(),
            match r {
                Ok(_) => {
                    &&& decls_admissible(old(self).entries_model(), names_of(columns@))
                    &&& final (self).entries_model() == old(self).entries_model()
                        + aux_col_entries(names_of(columns@), old(self).num_aux() as int)
                    &&& final (self).num_aux() == old(self).num_aux() + columns@.len()
                },
                Err(e) => {
                    &&& !decls_admissible(old(self).entries_model(), names_of(columns@))
                    &&& first_colliding(old(self).entries_model(), names_of(columns@))
                        < names_of(columns@).len()
                    &&& e matches SemanticError::DuplicateIdentifier(n) && n@ == names_of(
                        columns@,
                    )[first_colliding(old(self).entries_model(), names_of(columns@))]
                },
            },
    {
        let ghost orig = *old(self);
        let ghost names = names_of(columns@);
        let mut i: usize = 0;
        while i < columns.len()
            invariant
                orig == *old(self),
                i <= columns@.len(),
                names == names_of(columns@),
                self.wf(),
                self.public_inputs_model() == orig.public_inputs_model(),
                self.periodic_model() == orig.periodic_model(),
                self.num_main() == orig.num_main(),
                orig.wf(),
                decls_admissible(orig.entries_model(), names.take(i as int)),
                self.entries_model() == orig.entries_model() + aux_col_entries(
                    names.take(i as int),
                    orig.num_aux() as int,
                ),
                self.num_aux() == orig.num_aux() + i,
            decreases columns@.len() - i,
        {
            let ghost pre = *self;
            let ghost added = aux_col_entries(names.take(i as int), orig.num_aux() as int);
            let col = &columns[i];
            match self.lookup_exec(&col.0) {
                Some(_) => {
                    proof {
                        lemma_found_name_breaks_admissibility(orig, added, names, i as int);
                        assert forall|j: int|
                            0 <= j < added.len() implies (#[trigger] added[j]).0 == names[j] by {
                            assert(added[j].0 == names.take(i as int)[j]);
                        }
                        lemma_first_fault_found(orig.entries_model(), added, names, i as int);
                    }
                    return Err(SemanticError::DuplicateIdentifier(col.0.clone()));
                },
                None => {},
            }
            proof {
                lemma_lookup_append(orig.entries_model(), added, names[i as int]);
                lemma_lookup_from_some_iff(added, names[i as int], 0);
                assert forall|j: int| 0 <= j < i implies #[trigger] names.take(i as int + 1)[j]
                    != names[i as int] by {
                    assert(added[j].0 == names[j]);
                }
                assert(decls_admissible(orig.entries_model(), names.take(i as int + 1)));
            }
            let idx = self.num_aux_cols;
            self.entries.push((col.0.clone(), IdentifierType::AuxTraceColumn(idx)));
            let n = self.entries.len();
            proof {
                assert(idx < n);
            }
            self.num_aux_cols = idx + 1;
            proof {
                assert(self.entries_model() =~= pre.entries_model().push(
                    (names[i as int], IdentifierType::AuxTraceColumn(idx)),
                ));
                assert(self.entries_model() =~= orig.entries_model() + aux_col_entries(
                    names.take(i as int + 1),
                    orig.num_aux() as int,
                ));
                assert forall|k: int|
                    0 <= k < self.entries_model().len() implies self.entry_ok(
                    (#[trigger] self.entries_model()[k]).0,
                    self.entries_model()[k].1,
                ) by {
                    if k < pre.entries_model().len() {
                        assert(pre.entry_ok(pre.entries_model()[k].0, pre.entries_model()[k].1));
                    }
                }
                assert forall|p: int, q: int|
                    0 <= p < q < self.entries_model().len() implies self.entries_model()[p].0
                    != self.entries_model()[q].0 by {
                    if q == self.entries_model().len() - 1 {
                        lemma_lookup_from_some_iff(pre.entries_model(), names[i as int], 0);
                    }
                }
            }
            i = i + 1;
        }
        proof {
            assert(names.take(columns@.len() as int) =~= names);
        }
        Ok(())
    }

    /// Declares the public inputs, appending them to the declared list in
    /// order; fails with a "duplicate identifier" error exactly when a name
    /// is already bound or repeats within the list.
    #[allow(unused_variables)]
    pub fn insert_public_inputs(&mut self, inputs: &Vec<PublicInput>) -> (r: Result<
        (),
        SemanticError,
    >)
        requires
            old(self).wf(),
        ensures
            final (self).wf(),
            final (self).periodic_model() == old(self).periodic_model(),
            final (self).num_main() == old(self).num_main(),
            final (self).num_aux() == old(self).num_aux(),
            match r {
                Ok(_) => {
                    &&& decls_admissible(old(self).entries_model(), pub_input_names(inputs@))
                    &&& final (self).entries_model() == old(self).entries_model()
                        + pub_input_entries(inputs@, old(self).public_inputs_model().len() as int)
                    &&& final (self).public_inputs_model() == old(self).public_inputs_model()
                        + inputs@.map(|i: int, d: PublicInput| (d.name@, d.size))
                },
                Err(e) => {
                    &&& !decls_admissible(old(self).entries_model(), pub_input_names(inputs@))
                    &&& first_colliding(old(self).entries_model(), pub_input_names(inputs@))
                        < pub_input_names(inputs@).len()
                    &&& e matches SemanticError::DuplicateIdentifier(n) && n@ == pub_input_names(
                        inputs@,
                    )[first_colliding(old(self).entries_model(), pub_input_names(inputs@))]
                },
            },
    {
        let ghost orig = *old(self);
        let ghost names = pub_input_names(inputs@);
        let mut i: usize = 0;
        while i < inputs.len()
            invariant
                orig == *old(self),
                i <= inputs@.len(),
                names == pub_input_names(inputs@),
                self.wf(),
                self.periodic_model() == orig.periodic_model(),
                self.num_main() == orig.num_main(),
                self.num_aux() == orig.num_aux(),
                orig.wf(),
                decls_admissible(orig.entries_model(), names.take(i as int)),
                self.entries_model() == orig.entries_model() + pub_input_entries(
                    inputs@.take(i as int),
                    orig.public_inputs_model().len() as int,
                ),
                self.public_inputs_model() == orig.public_inputs_model() + inputs@.take(
                    i as int,
                ).map(|k: int, d: PublicInput| (d.name@, d.size)),
            decreases inputs@.len() - i,
        {
            let ghost pre = *self;
            let ghost added = pub_input_entries(
                inputs@.take(i as int),
                orig.public_inputs_model().len() as int,
            );
            proof {
                assert forall|j: int| 0 <= j < added.len() implies (#[trigger] added[j]).0
                    == names.take(i as int)[j] by {}
            }
            let input = &inputs[i];
            match self.lookup_exec(&input.name.0) {
                Some(_) => {
                    proof {
                        lemma_found_name_breaks_admissibility(orig, added, names, i as int);
                        assert forall|j: int|
                            0 <= j < added.len() implies (#[trigger] added[j]).0 == names[j] by {
                            assert(added[j].0 == names.take(i as int)[j]);
                        }
                        lemma_first_fault_found(orig.entries_model(), added, names, i as int);
                    }
                    return Err(SemanticError::DuplicateIdentifier(input.name.0.clone()));
                },
                None => {},
            }
            proof {
                lemma_lookup_append(orig.entries_model(), added, names[i as int]);
                lemma_lookup_from_some_iff(added, names[i as int], 0);
                assert forall|j: int| 0 <= j < i implies #[trigger] names.take(i as int + 1)[j]
                    != names[i as int] by {
                    assert(added[j].0 == names[j]);
                }
                assert(decls_admissible(orig.entries_model(), names.take(i as int + 1)));
            }
            let slot = self.public_inputs.len();
            self.entries.push(
                (input.name.0.clone(), IdentifierType::PublicInput(slot, input.size)),
            );
            self.public_inputs.push((input.name.0.clone(), input.size));
            proof {
                assert(self.entries_model() =~= pre.entries_model().push(
                    (names[i as int], IdentifierType::PublicInput(slot, inputs@[i as int].size)),
                ));
                assert(self.entries_model() =~= orig.entries_model() + pub_input_entries(
                    inputs@.take(i as int + 1),
                    orig.public_inputs_model().len() as int,
                ));
                assert(self.public_inputs_model() =~= pre.public_inputs_model().push(
                    (names[i as int], inputs@[i as int].size),
                ));
                assert(self.public_inputs_model() =~= orig.public_inputs_model() + inputs@.take(
                    i as int + 1,
                ).map(|k: int, d: PublicInput| (d.name@, d.size)));
                assert forall|k: int|
                    0 <= k < self.entries_model().len() implies self.entry_ok(
                    (#[trigger] self.entries_model()[k]).0,
                    self.entries_model()[k].1,
                ) by {
                    if k < pre.entries_model().len() {
                        assert(pre.entry_ok(pre.entries_model()[k].0, pre.entries_model()[k].1));
                    }
                }
                assert forall|p: int, q: int|
                    0 <= p < q < self.entries_model().len() implies self.entries_model()[p].0
                    != self.entries_model()[q].0 by {
                    if q == self.entries_model().len() - 1 {
                        lemma_lookup_from_some_iff(pre.entries_model(), names[i as int], 0);
                    }
                }
            }
            i = i + 1;
        }
        proof {
            assert(names.take(inputs@.len() as int) =~= names);
            assert(inputs@.take(inputs@.len() as int) =~= inputs@);
        }
        Ok(())
    }

    /// Declares the periodic columns, appending their value lists in order;
    /// fails with a "duplicate identifier" error exactly as the other
    /// declarations do, and with an "invalid cycle" error exactly when a
    /// column's value count is not a power of two of at least the minimum
    /// cycle length.
    #[allow(unused_variables)]
    pub fn insert_periodic_columns(&mut self, columns: &Vec<PeriodicColumn>) -> (r: Result<
        (),
        SemanticError,
    >)
        requires
            old(self).wf(),
        ensures
            final (self).wf(),
            final (self).public_inputs_model() == old(self).public_inputs_model(),
            final (self).num_main() == old(self).num_main(),
            final (self).num_aux() == old(self).num_aux(),
            match r {
                Ok(_) => {
                    &&& decls_admissible(old(self).entries_model(), periodic_names(columns@))
                    &&& forall|i: int|
                        0 <= i < columns@.len() ==> valid_cycle_len(
                            (#[trigger] columns@[i]).values@.len() as int,
                        )
                    &&& final (self).entries_model() == old(self).entries_model()
                        + periodic_col_entries(columns@, old(self).periodic_model().len() as int)
                    &&& final (self).periodic_model() == old(self).periodic_model() + columns@.map(
                        |i: int, d: PeriodicColumn| d.values@,
                    )
                },
                Err(e) => {
                    &&& !(decls_admissible(old(self).entries_model(), periodic_names(columns@))
                        && forall|i: int|
                        0 <= i < columns@.len() ==> valid_cycle_len(
                            (#[trigger] columns@[i]).values@.len() as int,
                        ))
                    &&& first_periodic_fault(old(self).entries_model(), columns@) matches Some(
                        f,
                    ) && crate::error::build_fault_matches(e, f)
                },
            },
    {
        let ghost orig = *old(self);
        let ghost names = periodic_names(columns@);
        let mut i: usize = 0;
        while i < columns.len()
            invariant
                orig == *old(self),
                i <= columns@.len(),
                names == periodic_names(columns@),
                self.wf(),
                self.public_inputs_model() == orig.public_inputs_model(),
                self.num_main() == orig.num_main(),
                self.num_aux() == orig.num_aux(),
                orig.wf(),
                decls_admissible(orig.entries_model(), names.take(i as int)),
                forall|k: int|
                    0 <= k < i ==> valid_cycle_len((#[trigger] columns@[k]).values@.len() as int),
                self.entries_model() == orig.entries_model() + periodic_col_entries(
                    columns@.take(i as int),
                    orig.periodic_model().len() as int,
                ),
                self.periodic_model() == orig.periodic_model() + columns@.take(i as int).map(
                    |k: int, d: PeriodicColumn| d.values@,
                ),
            decreases columns@.len() - i,
        {
            let ghost pre = *self;
            let ghost added = periodic_col_entries(
                columns@.take(i as int),
                orig.periodic_model().len() as int,
            );
            proof {
                assert forall|j: int| 0 <= j < added.len() implies (#[trigger] added[j]).0
                    == names.take(i as int)[j] by {}
            }
            let column = &columns[i];
            match self.lookup_exec(&column.name.0) {
                Some(_) => {
                    proof {
                        lemma_found_name_breaks_admissibility(orig, added, names, i as int);
                        assert(names[i as int] == columns@[i as int].name@);
                        assert forall|j: int|
                            0 <= j < added.len() implies (#[trigger] added[j]).0 == names[j] by {
                            assert(added[j].0 == names.take(i as int)[j]);
                        }
                        lemma_first_fault_found(orig.entries_model(), added, names, i as int);
                        lemma_first_periodic_fault_skip(orig.entries_model(), columns@, i as int);
                    }
                    return Err(SemanticError::DuplicateIdentifier(column.name.0.clone()));
                },
                None => {},
            }
            let len = column.values.len();
            if !cycle_length_valid(len) {
                proof {
                    assert(names[i as int] == columns@[i as int].name@);
                    assert(0 <= i < columns@.len() && !valid_cycle_len(
                        (columns@[i as int]).values@.len() as int,
                    ));
                    assert forall|j: int|
                        0 <= j < added.len() implies (#[trigger] added[j]).0 == names[j] by {
                        assert(added[j].0 == names.take(i as int)[j]);
                    }
                    lemma_no_fault_here(orig.entries_model(), added, names, i as int);
                    lemma_admissible_prefix_no_fault(orig.entries_model(), names, i as int);
                    lemma_first_periodic_fault_skip(orig.entries_model(), columns@, i as int);
                }
                return Err(SemanticError::InvalidPeriodicColumnCycle(column.name.0.clone(), len));
            }
            proof {
                lemma_lookup_append(orig.entries_model(), added, names[i as int]);
                lemma_lookup_from_some_iff(added, names[i as int], 0);
                assert forall|j: int| 0 <= j < i implies #[trigger] names.take(i as int + 1)[j]
                    != names[i as int] by {
                    assert(added[j].0 == names[j]);
                }
                assert(decls_admissible(orig.entries_model(), names.take(i as int + 1)));
            }
            let slot = self.periodic_columns.len();
            self.entries.push(
                (column.name.0.clone(), IdentifierType::PeriodicColumn(slot, len)),
            );
            let values = clone_values(&column.values);
            self.periodic_columns.push(values);
            proof {
                assert(self.entries_model() =~= pre.entries_model().push(
                    (
                        names[i as int],
                        IdentifierType::PeriodicColumn(slot, columns@[i as int].values@.len() as usize),
                    ),
                ));
                assert(self.entries_model() =~= orig.entries_model() + periodic_col_entries(
                    columns@.take(i as int + 1),
                    orig.periodic_model().len() as int,
                ));
                assert(self.periodic_model() =~= pre.periodic_model().push(
                    columns@[i as int].values@,
                ));
                assert(self.periodic_model() =~= orig.periodic_model() + columns@.take(
                    i as int + 1,
                ).map(|k: int, d: PeriodicColumn| d.values@));
                assert forall|k: int|
                    0 <= k < self.entries_model().len() implies self.entry_ok(
                    (#[trigger] self.entries_model()[k]).0,
                    self.entries_model()[k].1,
                ) by {
                    if k < pre.entries_model().len() {
                        assert(pre.entry_ok(pre.entries_model()[k].0, pre.entries_model()[k].1));
                    }
                }
                assert forall|p: int, q: int|
                    0 <= p < q < self.entries_model().len() implies self.entries_model()[p].0
                    != self.entries_model()[q].0 by {
                    if q == self.entries_model().len() - 1 {
                        lemma_lookup_from_some_iff(pre.entries_model(), names[i as int], 0);
                    }
                }
            }
            i = i + 1;
        }
        proof {
            assert(names.take(columns@.len() as int) =~= names);
            assert(columns@.take(columns@.len() as int) =~= columns@);
        }
        Ok(())
    }

    /// Hands the collected declarations to the IR: the public inputs and the
    /// periodic column values, each in declaration order. The table is
    /// consumed; nothing else survives pass 2.
    pub fn into_declarations(self) -> (r: (Vec<(String, usize)>, Vec<Vec<u64>>))
        ensures
            r.0@.map(|i: int, e: (String, usize)| (e.0@, e.1)) == self.public_inputs_model(),
            r.1@.map(|i: int, v: Vec<u64>| v@) == self.periodic_model(),
    {
        (self.public_inputs, self.periodic_columns)
    }
}

/// A name found in the grown table at step `i` refutes admissibility of the
/// whole declaration list.
proof fn lemma_found_name_breaks_admissibility(
    orig: SymbolTable,
    added: Seq<(Seq<char>, IdentifierType)>,
    names: Seq<Seq<char>>,
    i: int,
)
    requires
        0 <= i < names.len(),
        forall|j: int| 0 <= j < added.len() ==> (#[trigger] added[j]).0 == names.take(i)[j],
        added.len() == i,
        lookup_in(orig.entries_model() + added, names[i]) is Some,
    ensures
        !decls_admissible(orig.entries_model(), names),
{
    lemma_lookup_append(orig.entries_model(), added, names[i]);
    if lookup_in(orig.entries_model(), names[i]) is Some {
    } else {
        lemma_lookup_from_some_iff(added, names[i], 0);
        let j = choose|j: int| 0 <= j < added.len() && added[j].0 == names[i];
        assert(names[j] == names[i]);
    }
}

} // verus!
