//! The values a program works on.
//!
//! A cell is what a variable, an element of a sequence or a field of a
//! structure is: a place that can be referred to. A cell has an envelope,
//! and the envelope holds the value. Cells and envelopes live in a store
//! and are known by their numbers there; a value that is made of cells
//! holds the numbers of its cells.

use vstd::prelude::*;
use crate::symbols::metadata::{MetaDataTypeName, VariableDescription};
use crate::symbols::name::Name;
use self::recursion_detector::{Cycle, PassCounter};
use self::sequence::SequenceInstance;
use self::structure::{SelectorInstance, StructureInstance};

pub mod coercion;
pub mod conversion;
pub mod copy;
pub mod display;
pub mod format;
pub mod ieee;
pub mod recursion_detector;
pub mod sequence;
pub mod structure;

verus! {

/// What a name was found to stand for.
#[derive(Debug)]
pub enum GeneralSymbol {
    /// A datatype, by its name.
    Datatype(Name),
    /// A function, by its name.
    Function(Name),
    /// A selector, by its name.
    Selector(Name),
    /// A variable, by its cell.
    Variable(VariableDescription),
    /// Nothing.
    Unresolved(Name),
}

impl Clone for GeneralSymbol {
    fn clone(&self) -> (r: Self)
        ensures
            r.alike(*self),
    {
        match self {
            GeneralSymbol::Datatype(n) => GeneralSymbol::Datatype(n.clone()),
            GeneralSymbol::Function(n) => GeneralSymbol::Function(n.clone()),
            GeneralSymbol::Selector(n) => GeneralSymbol::Selector(n.clone()),
            GeneralSymbol::Variable(v) => GeneralSymbol::Variable(*v),
            GeneralSymbol::Unresolved(n) => GeneralSymbol::Unresolved(n.clone()),
        }
    }
}

impl GeneralSymbol {
    /// Whether two symbols are the same but for where they are kept.
    pub open spec fn alike(self, other: GeneralSymbol) -> bool {
        match (self, other) {
            (GeneralSymbol::Datatype(a), GeneralSymbol::Datatype(b)) => a@ == b@,
            (GeneralSymbol::Function(a), GeneralSymbol::Function(b)) => a@ == b@,
            (GeneralSymbol::Selector(a), GeneralSymbol::Selector(b)) => a@ == b@,
            (GeneralSymbol::Variable(a), GeneralSymbol::Variable(b)) => a == b,
            (GeneralSymbol::Unresolved(a), GeneralSymbol::Unresolved(b)) => a@ == b@,
            _ => false,
        }
    }
}

/// A name as it was spelled, and what it was found to stand for.
#[derive(Debug)]
pub struct SymbolicReference {
    pub referred_name: Name,
    pub resolution: GeneralSymbol,
}

impl SymbolicReference {
    pub fn as_string(&self) -> (r: String)
        ensures
            r@ == self.referred_name@,
    {
        self.referred_name.as_string()
    }

    pub fn as_symbol(&self) -> (r: &GeneralSymbol)
        ensures
            *r == self.resolution,
    {
        &self.resolution
    }
}

/// A reference to a cell, with the datatype that the cell is declared to hold.
#[derive(Debug)]
pub struct CellReference {
    pub datatype: MetaDataTypeName,
    pub cell: usize,
}

/// A value.
#[derive(Debug)]
pub enum Value {
    Empty,
    Bool(bool),
    Int(i32),
    /// A single precision number, by the bits of its IEEE-754 form.
    Real(u32),
    /// A double precision number, by the bits of its IEEE-754 form.
    Double(u64),
    Char(char),
    Structure(StructureInstance),
    Sequence(SequenceInstance),
    Selector(SelectorInstance),
    Symbol(SymbolicReference),
    ValueByReference(CellReference),
    /// A link to an envelope, by its number.
    LogicalLink(usize),
}

/// Whether two lists of names are spelled alike.
pub open spec fn names_alike(a: Seq<Name>, b: Seq<Name>) -> bool {
    a.len() == b.len() && forall|i: int| 0 <= i < a.len() ==> (#[trigger] a[i])@ == b[i]@
}

impl Value {
    /// Whether two values are the same but for where they are kept: the
    /// same kind, the same content, and made of the same cells.
    pub open spec fn alike(self, other: Value) -> bool {
        match (self, other) {
            (Value::Empty, Value::Empty) => true,
            (Value::Bool(a), Value::Bool(b)) => a == b,
            (Value::Int(a), Value::Int(b)) => a == b,
            (Value::Real(a), Value::Real(b)) => a == b,
            (Value::Double(a), Value::Double(b)) => a == b,
            (Value::Char(a), Value::Char(b)) => a == b,
            (Value::Structure(a), Value::Structure(b)) => a.alike(b),
            (Value::Sequence(a), Value::Sequence(b)) => a.alike(b),
            (Value::Selector(a), Value::Selector(b)) => a.alike(b),
            (Value::Symbol(a), Value::Symbol(b)) => a.referred_name@ == b.referred_name@
                && a.resolution.alike(b.resolution),
            (Value::ValueByReference(a), Value::ValueByReference(b)) => a.datatype@ == b.datatype@
                && a.cell == b.cell,
            (Value::LogicalLink(a), Value::LogicalLink(b)) => a == b,
            _ => false,
        }
    }

    /// The cells the value is made of.
    pub open spec fn cells(self) -> Seq<usize> {
        match self {
            Value::Structure(s) => s.cells(),
            Value::Sequence(s) => s.cells(),
            Value::Symbol(s) => match s.resolution {
                GeneralSymbol::Variable(v) => seq![v.cell],
                _ => Seq::empty(),
            },
            Value::ValueByReference(r) => seq![r.cell],
            _ => Seq::empty(),
        }
    }

    /// The envelope the value links to, if it is a link.
    pub open spec fn link(self) -> Option<usize> {
        match self {
            Value::LogicalLink(e) => Some(e),
            _ => None,
        }
    }

    /// A copy of the value that is made of the same cells.
    pub fn duplicate(&self) -> (r: Value)
        ensures
            r.alike(*self),
    {
        match self {
            Value::Empty => Value::Empty,
            Value::Bool(v) => Value::Bool(*v),
            Value::Int(v) => Value::Int(*v),
            Value::Real(v) => Value::Real(*v),
            Value::Double(v) => Value::Double(*v),
            Value::Char(v) => Value::Char(*v),
            Value::Structure(s) => Value::Structure(s.duplicate()),
            Value::Sequence(s) => Value::Sequence(s.duplicate()),
            Value::Selector(s) => Value::Selector(s.duplicate()),
            Value::Symbol(s) => Value::Symbol(
                SymbolicReference {
                    referred_name: s.referred_name.clone(),
                    resolution: s.resolution.clone(),
                },
            ),
            Value::ValueByReference(r) => Value::ValueByReference(
                CellReference { datatype: r.datatype.clone(), cell: r.cell },
            ),
            Value::LogicalLink(e) => Value::LogicalLink(*e),
        }
    }
}

pub proof fn lemma_alike_cells(a: Value, b: Value)
    requires
        a.alike(b),
    ensures
        a.cells() == b.cells(),
        a.link() == b.link(),
{
}

/// An envelope: a value, and the mark of the pass that visited it last.
#[derive(Debug)]
pub struct ValueEnvelope {
    pub recursion_pass: Cycle,
    pub value: Value,
}

/// A cell: the number of its envelope.
#[derive(Clone, Copy, Debug, PartialEq, Eq, Structural)]
pub struct Cell {
    pub contents: usize,
}

/// The store: the cells and the envelopes there are, and the number of
/// the pass that is under way.
pub struct Store {
    cells: Vec<Cell>,
    envelopes: Vec<ValueEnvelope>,
    counter: PassCounter,
}

impl Store {
    /// The cells.
    pub closed spec fn cells(&self) -> Seq<Cell> {
        self.cells@
    }

    /// The envelopes.
    pub closed spec fn envelopes(&self) -> Seq<ValueEnvelope> {
        self.envelopes@
    }

    /// The number of the pass that is under way.
    pub closed spec fn pass(&self) -> u32 {
        self.counter.pass
    }

    /// Whether a value is at home in the store: its cells are cells of
    /// the store, and what it links to is an envelope of the store.
    pub open spec fn holds(&self, v: Value) -> bool {
        &&& forall|i: int| 0 <= i < v.cells().len() ==> (#[trigger] v.cells()[i]) < self.cells().len()
        &&& v.link() matches Some(e) ==> e < self.envelopes().len()
    }

    /// The cell that a value stands for, if the value is a reference to
    /// a cell or the name of a variable.
    pub open spec fn referent(v: Value) -> Option<usize> {
        match v {
            Value::ValueByReference(r) => Some(r.cell),
            Value::Symbol(s) => match s.resolution {
                GeneralSymbol::Variable(d) => Some(d.cell),
                _ => None,
            },
            _ => None,
        }
    }

    /// How far a value is from a value that stands for itself: nothing
    /// for such a value, else one more than the number of the envelope of
    /// the cell it stands for.
    pub open spec fn reach(&self, v: Value) -> nat {
        match Self::referent(v) {
            Some(c) => if c < self.cells().len() {
                (self.cells()[c as int].contents + 1) as nat
            } else {
                0
            },
            None => 0,
        }
    }

    /// Whether a value may be put into an envelope: a value that stands
    /// for a cell only if the envelope of that cell is an older one.
    pub open spec fn fits(&self, envelope: int, v: Value) -> bool {
        self.holds(v) && self.reach(v) <= envelope
    }

    /// The invariant: every cell has an envelope, every value in an
    /// envelope is at home in the store, and a value that stands for a
    /// cell stands for a cell with an older envelope.
    pub open spec fn wf(&self) -> bool {
        &&& forall|c: int| 0 <= c < self.cells().len() ==> (#[trigger] self.cells()[c]).contents < self.envelopes().len()
        &&& forall|e: int| 0 <= e < self.envelopes().len() ==> self.fits(e, (#[trigger] self.envelopes()[e]).value)
    }

    /// The value in a cell.
    pub open spec fn value_at(&self, cell: usize) -> Value
        recommends
            cell < self.cells().len(),
    {
        self.envelopes()[self.cells()[cell as int].contents as int].value
    }

    /// Whether the store is another with more behind it: the cells and
    /// envelopes there were, with what they held, and maybe more.
    pub open spec fn extends(&self, before: &Store) -> bool {
        &&& before.cells().len() <= self.cells().len()
        &&& before.envelopes().len() <= self.envelopes().len()
        &&& forall|c: int| 0 <= c < before.cells().len() ==> #[trigger] self.cells()[c] == before.cells()[c]
        &&& forall|e: int|
            0 <= e < before.envelopes().len() ==> (#[trigger] self.envelopes()[e]).value == before.envelopes()[e].value
    }

    pub fn new() -> (r: Store)
        ensures
            r.wf(),
            r.cells().len() == 0,
            r.envelopes().len() == 0,
    {
        Store { cells: Vec::new(), envelopes: Vec::new(), counter: PassCounter::new() }
    }

    /// How many cells there are.
    pub fn cell_count(&self) -> (r: usize)
        ensures
            r == self.cells().len(),
    {
        self.cells.len()
    }

    /// How many envelopes there are.
    pub fn envelope_count(&self) -> (r: usize)
        ensures
            r == self.envelopes().len(),
    {
        self.envelopes.len()
    }

    /// Starts a pass.
    pub fn start_pass(&mut self)
        ensures
            final(self).cells() == old(self).cells(),
            final(self).envelopes() == old(self).envelopes(),
            final(self).pass() == old(self).pass().wrapping_add(1),
            old(self).wf() ==> final(self).wf(),
    {
        Cycle::start(&mut self.counter);
        proof {
            if old(self).wf() {
                assert forall|c: int| 0 <= c < self.cells().len() implies (#[trigger] self.cells()[c]).contents
                    < self.envelopes().len() by {
                    assert(old(self).cells()[c].contents < old(self).envelopes().len());
                }
                assert forall|k: int| 0 <= k < self.envelopes().len() implies self.fits(
                    k,
                    (#[trigger] self.envelopes()[k]).value,
                ) by {
                    assert(old(self).fits(k, old(self).envelopes()[k].value));
                }
            }
        }
    }

    /// Whether an envelope bears the mark of the pass that is under way.
    pub open spec fn marked(&self, e: int) -> bool {
        0 <= e < self.envelopes().len() && self.envelopes()[e].recursion_pass.pass == self.pass()
    }

    /// Whether an envelope bears the mark of the pass that is under way.
    pub fn is_marked(&self, envelope: usize) -> (r: bool)
        requires
            envelope < self.envelopes().len(),
        ensures
            r == self.marked(envelope as int),
    {
        self.envelopes[envelope].recursion_pass.pass == self.counter.pass
    }

    /// Visits an envelope in the pass that is under way: the envelope
    /// is marked, and its value stays. Says whether it was not marked.
    pub fn visit(&mut self, envelope: usize) -> (fresh: bool)
        requires
            old(self).wf(),
            envelope < old(self).envelopes().len(),
        ensures
            final(self).wf(),
            fresh == !old(self).marked(envelope as int),
            final(self).marked(envelope as int),
            final(self).cells() == old(self).cells(),
            final(self).pass() == old(self).pass(),
            final(self).envelopes().len() == old(self).envelopes().len(),
            forall|k: int|
                0 <= k < old(self).envelopes().len() ==> (#[trigger] final(self).envelopes()[k]).value == old(self).envelopes()[k].value,
            forall|k: int|
                0 <= k < old(self).envelopes().len() && k != envelope ==> #[trigger] final(self).envelopes()[k] == old(self).envelopes()[k],
    {
        let mut taken = self.envelopes.remove(envelope);
        let fresh = taken.recursion_pass.has_not_been_processed(&self.counter);
        self.envelopes.insert(envelope, taken);
        proof {
            assert forall|c: int| 0 <= c < self.cells().len() implies (#[trigger] self.cells()[c]).contents
                < self.envelopes().len() by {
                assert(old(self).cells()[c].contents < old(self).envelopes().len());
            }
            assert forall|k: int| 0 <= k < self.envelopes().len() implies self.fits(
                k,
                (#[trigger] self.envelopes()[k]).value,
            ) by {
                assert(old(self).fits(k, old(self).envelopes()[k].value));
            }
        }
        fresh
    }

    /// Makes an envelope for a value.
    pub fn new_envelope(&mut self, value: Value) -> (e: usize)
        requires
            old(self).wf(),
            old(self).holds(value),
        ensures
            final(self).wf(),
            final(self).extends(old(self)),
            e == old(self).envelopes().len(),
            final(self).envelopes().len() == e + 1,
            final(self).cells() == old(self).cells(),
            final(self).envelopes()[e as int].value == value,
            final(self).pass() == old(self).pass(),
    {
        let mark = Cycle::new(&self.counter);
        self.envelopes.push(ValueEnvelope { recursion_pass: mark, value: value });
        let e = self.envelopes.len() - 1;
        proof {
            assert forall|c: int| 0 <= c < self.cells().len() implies (#[trigger] self.cells()[c]).contents
                < self.envelopes().len() by {
                assert(old(self).cells()[c].contents < old(self).envelopes().len());
            }
            assert forall|k: int| 0 <= k < self.envelopes().len() implies self.fits(
                k,
                (#[trigger] self.envelopes()[k]).value,
            ) by {
                if k < e {
                    assert(self.envelopes()[k] == old(self).envelopes()[k]);
                    assert(old(self).fits(k, old(self).envelopes()[k].value));
                } else {
                    if Self::referent(value) is Some {
                        let c = Self::referent(value)->0;
                        assert(value.cells()[0] == c);
                        assert(old(self).cells()[c as int].contents < old(self).envelopes().len());
                    }
                }
            }
        }
        e
    }

    /// Makes a cell with an envelope of its own for a value.
    pub fn new_cell(&mut self, value: Value) -> (c: usize)
        requires
            old(self).wf(),
            old(self).holds(value),
        ensures
            final(self).wf(),
            final(self).extends(old(self)),
            c == old(self).cells().len(),
            final(self).cells().len() == c + 1,
            final(self).envelopes().len() == old(self).envelopes().len() + 1,
            final(self).cells()[c as int].contents == old(self).envelopes().len(),
            final(self).value_at(c) == value,
            final(self).pass() == old(self).pass(),
    {
        let e = self.new_envelope(value);
        let ghost middle = *self;
        self.cells.push(Cell { contents: e });
        let c = self.cells.len() - 1;
        proof {
            assert forall|k: int| 0 <= k < self.envelopes().len() implies self.fits(
                k,
                (#[trigger] self.envelopes()[k]).value,
            ) by {
                let v = middle.envelopes()[k].value;
                assert(middle.fits(k, v));
                if Self::referent(v) is Some {
                    let c = Self::referent(v)->0;
                    assert(v.cells()[0] == c);
                    assert(self.cells()[c as int] == middle.cells()[c as int]);
                }
            }
        }
        c
    }

    /// Makes a cell that shares the envelope of another cell.
    pub fn new_cell_sharing(&mut self, other: usize) -> (c: usize)
        requires
            old(self).wf(),
            other < old(self).cells().len(),
        ensures
            final(self).wf(),
            final(self).extends(old(self)),
            c == old(self).cells().len(),
            final(self).cells().len() == c + 1,
            final(self).envelopes() == old(self).envelopes(),
            final(self).cells()[c as int] == old(self).cells()[other as int],
            final(self).pass() == old(self).pass(),
    {
        let shared = self.cells[other];
        self.cells.push(shared);
        let c = self.cells.len() - 1;
        proof {
            assert forall|k: int| 0 <= k < self.envelopes().len() implies self.fits(
                k,
                (#[trigger] self.envelopes()[k]).value,
            ) by {
                let v = old(self).envelopes()[k].value;
                assert(old(self).fits(k, v));
                if Self::referent(v) is Some {
                    let c = Self::referent(v)->0;
                    assert(v.cells()[0] == c);
                    assert(self.cells()[c as int] == old(self).cells()[c as int]);
                }
            }
        }
        c
    }

    /// The value in a cell.
    pub fn get(&self, cell: usize) -> (r: &Value)
        requires
            self.wf(),
            cell < self.cells().len(),
        ensures
            *r == self.value_at(cell),
            self.holds(*r),
            self.reach(*r) <= self.cells()[cell as int].contents,
    {
        &self.envelopes[self.cells[cell].contents].value
    }

    /// The envelope of a cell.
    pub fn envelope_of(&self, cell: usize) -> (e: usize)
        requires
            self.wf(),
            cell < self.cells().len(),
        ensures
            e == self.cells()[cell as int].contents,
            e < self.envelopes().len(),
    {
        self.cells[cell].contents
    }

    /// The value in an envelope.
    pub fn get_envelope(&self, envelope: usize) -> (r: &Value)
        requires
            self.wf(),
            envelope < self.envelopes().len(),
        ensures
            *r == self.envelopes()[envelope as int].value,
            self.holds(*r),
            self.reach(*r) <= envelope,
    {
        &self.envelopes[envelope].value
    }

    /// Puts a value into an envelope, in place of the value it holds.
    /// Every cell that has the envelope holds the new value from then on.
    pub fn set_envelope(&mut self, envelope: usize, value: Value)
        requires
            old(self).wf(),
            envelope < old(self).envelopes().len(),
            old(self).fits(envelope as int, value),
        ensures
            final(self).wf(),
            final(self).cells() == old(self).cells(),
            final(self).envelopes().len() == old(self).envelopes().len(),
            final(self).envelopes()[envelope as int].value == value,
            forall|e: int|
                0 <= e < old(self).envelopes().len() && e != envelope ==> #[trigger] final(self).envelopes()[e]
                    == old(self).envelopes()[e],
            final(self).pass() == old(self).pass(),
    {
        let mark = self.envelopes[envelope].recursion_pass;
        self.envelopes.set(envelope, ValueEnvelope { recursion_pass: mark, value: value });
        proof {
            assert forall|c: int| 0 <= c < self.cells().len() implies (#[trigger] self.cells()[c]).contents
                < self.envelopes().len() by {
                assert(old(self).cells()[c].contents < old(self).envelopes().len());
            }
            assert forall|k: int| 0 <= k < self.envelopes().len() implies self.fits(
                k,
                (#[trigger] self.envelopes()[k]).value,
            ) by {
                if k != envelope {
                    assert(old(self).fits(k, old(self).envelopes()[k].value));
                }
            }
        }
    }

    /// Puts a value into the envelope of a cell.
    pub fn set(&mut self, cell: usize, value: Value)
        requires
            old(self).wf(),
            cell < old(self).cells().len(),
            old(self).holds(value),
            Self::referent(value) is None,
        ensures
            final(self).wf(),
            final(self).cells() == old(self).cells(),
            final(self).envelopes().len() == old(self).envelopes().len(),
            final(self).value_at(cell) == value,
            forall|other: usize|
                other < old(self).cells().len() ==> #[trigger] final(self).value_at(other) == if old(self).cells()[other as int].contents == old(self).cells()[cell as int].contents {
                    value
                } else {
                    old(self).value_at(other)
                },
            forall|e: int|
                0 <= e < old(self).envelopes().len() && e != old(self).cells()[cell as int].contents ==> (
                #[trigger] final(self).envelopes()[e]).value == old(self).envelopes()[e].value,
            final(self).pass() == old(self).pass(),
    {
        let e = self.cells[cell].contents;
        self.set_envelope(e, value);
    }
}

/// Cells that share an envelope hold the same value, and stay to do so
/// whatever value is put into one of them.
pub proof fn law_shared_envelope_shares_values(store: Store, a: usize, b: usize)
    requires
        store.wf(),
        a < store.cells().len(),
        b < store.cells().len(),
        store.cells()[a as int].contents == store.cells()[b as int].contents,
    ensures
        store.value_at(a) == store.value_at(b),
{
}

} // verus!
