//! Sequences: cells in a row, counted from a lower bound.

use vstd::prelude::*;
use crate::symbols::metadata::MetaDataTypeName;
use super::recursion_detector::Cycle;
use super::{Store, Value};

verus! {

/// A sequence: its datatype, its bounds, and its cells. A sequence with
/// an upper bound has as many cells as the bounds say; one without may
/// have any number.
#[derive(Debug)]
pub struct SequenceInstance {
    datatype: MetaDataTypeName,
    lower_bound: i32,
    upper_bound: Option<i32>,
    recursion_pass: Cycle,
    values: Vec<usize>,
}

/// The message for an index outside the bounds of a sequence.
pub open spec fn out_of_bounds_message(index: i32) -> Seq<char> {
    crate::execution::value::format::int_text(index as int) + " is out of bounds"@
}

impl SequenceInstance {
    /// The name of the datatype.
    pub closed spec fn datatype(&self) -> Seq<char> {
        self.datatype@
    }

    /// The index of the first cell.
    pub closed spec fn lower(&self) -> i32 {
        self.lower_bound
    }

    /// The index of the last cell, where the datatype fixes it.
    pub closed spec fn upper(&self) -> Option<i32> {
        self.upper_bound
    }

    /// The cells, in order.
    pub closed spec fn cells(&self) -> Seq<usize> {
        self.values@
    }

    /// The invariant: a sequence with an upper bound has exactly the
    /// cells from the lower bound to the upper one.
    pub open spec fn wf(&self) -> bool {
        self.upper() matches Some(u) ==> self.cells().len() == u - self.lower() + 1
    }

    /// Whether two sequences are the same but for where they are kept.
    pub open spec fn alike(self, other: SequenceInstance) -> bool {
        &&& self.datatype() == other.datatype()
        &&& self.lower() == other.lower()
        &&& self.upper() == other.upper()
        &&& self.cells() == other.cells()
    }

    pub fn as_datatype(&self) -> (r: MetaDataTypeName)
        ensures
            r@ == self.datatype(),
    {
        self.datatype.clone()
    }

    pub fn as_string(&self) -> (r: String)
        ensures
            r@ == self.datatype(),
    {
        self.datatype.as_string()
    }

    pub fn as_values(&self) -> (r: &Vec<usize>)
        ensures
            r@ == self.cells(),
    {
        &self.values
    }

    /// Whether the sequence is a character string.
    pub fn is_string(&self) -> (r: bool)
        ensures
            r == (crate::text::lower(self.datatype()) == crate::text::lower("string"@)),
    {
        self.datatype.is_named("string")
    }

    /// How many cells the sequence has; the greatest number of 32 bits
    /// where there are more.
    pub fn length(&self) -> (r: i32)
        ensures
            r == if self.cells().len() <= i32::MAX {
                self.cells().len() as i32
            } else {
                i32::MAX
            },
    {
        if self.values.len() <= i32::MAX as usize {
            self.values.len() as i32
        } else {
            i32::MAX
        }
    }

    pub fn lower_bound(&self) -> (r: i32)
        ensures
            r == self.lower(),
    {
        self.lower_bound
    }

    /// The upper bound that the datatype fixes, if it fixes one.
    pub fn upper_bound(&self) -> (r: Option<i32>)
        ensures
            r == self.upper(),
    {
        self.upper_bound
    }

    /// Where among the cells the cell with the given index stands. An
    /// index below the lower bound, or beyond the last cell, is an error.
    pub fn check_and_normalize_index(&self, index: i32) -> (r: Result<usize, String>)
        ensures
            match r {
                Ok(i) => self.lower() <= index < self.lower() + self.cells().len() && i == index
                    - self.lower(),
                Err(e) => !(self.lower() <= index < self.lower() + self.cells().len()) && e@
                    == out_of_bounds_message(index),
            },
    {
        let offset: i64 = index as i64 - self.lower_bound as i64;
        if offset >= 0 && (offset as u64) < self.values.len() as u64 {
            Ok(offset as usize)
        } else {
            let mut message = crate::execution::value::format::int_string(index);
            message.append(" is out of bounds");
            Err(message)
        }
    }

    /// A sequence of the given cells without an upper bound.
    pub fn new(datatype: MetaDataTypeName, lower_bound: i32, values: Vec<usize>) -> (r: SequenceInstance)
        ensures
            r.wf(),
            r.datatype() == datatype@,
            r.lower() == lower_bound,
            r.upper() is None,
            r.cells() == values@,
    {
        SequenceInstance {
            datatype: datatype,
            lower_bound: lower_bound,
            upper_bound: None,
            recursion_pass: Cycle { pass: 0 },
            values: values,
        }
    }

    /// A sequence of the given cells with the bounds of its datatype.
    /// Fails where the cells are not as many as the bounds say.
    pub fn bounded(
        datatype: MetaDataTypeName,
        lower_bound: i32,
        upper_bound: Option<i32>,
        values: Vec<usize>,
    ) -> (r: Option<SequenceInstance>)
        ensures
            match r {
                Some(s) => s.wf() && s.datatype() == datatype@ && s.lower() == lower_bound && s.upper()
                    == upper_bound && s.cells() == values@,
                None => upper_bound matches Some(u) && values@.len() != u - lower_bound + 1,
            },
    {
        match upper_bound {
            Some(u) => {
                let wanted: i64 = u as i64 - lower_bound as i64 + 1;
                if wanted < 0 || values.len() as u64 != wanted as u64 {
                    return None;
                }
            },
            None => {},
        }
        Some(
            SequenceInstance {
                datatype: datatype,
                lower_bound: lower_bound,
                upper_bound: upper_bound,
                recursion_pass: Cycle { pass: 0 },
                values: values,
            },
        )
    }

    /// A sequence like this one but made of other cells, as many as this one has.
    pub fn with_cells(&self, values: Vec<usize>) -> (r: SequenceInstance)
        requires
            values@.len() == self.cells().len(),
        ensures
            r.datatype() == self.datatype(),
            r.lower() == self.lower(),
            r.upper() == self.upper(),
            r.cells() == values@,
            self.wf() ==> r.wf(),
    {
        SequenceInstance {
            datatype: self.datatype.clone(),
            lower_bound: self.lower_bound,
            upper_bound: self.upper_bound,
            recursion_pass: Cycle { pass: 0 },
            values: values,
        }
    }

    /// A copy of the sequence with the same cells.
    pub fn duplicate(&self) -> (r: SequenceInstance)
        ensures
            r.alike(*self),
            self.wf() ==> r.wf(),
    {
        let mut values: Vec<usize> = Vec::new();
        let mut i: usize = 0;
        while i < self.values.len()
            invariant
                i <= self.values.len(),
                values@ == self.values@.subrange(0, i as int),
            decreases self.values.len() - i,
        {
            values.push(self.values[i]);
            i += 1;
            assert(values@ =~= self.values@.subrange(0, i as int));
        }
        assert(self.values@.subrange(0, self.values.len() as int) =~= self.values@);
        SequenceInstance {
            datatype: self.datatype.clone(),
            lower_bound: self.lower_bound,
            upper_bound: self.upper_bound,
            recursion_pass: self.recursion_pass,
            values: values,
        }
    }
}

/// Whether a value is the character string of a text: a sequence of
/// the datatype of strings, counted from one, without an upper bound,
/// whose cells hold the characters of the text in order.
pub open spec fn spells(store: &Store, v: Value, text: Seq<char>) -> bool {
    &&& v matches Value::Sequence(s)
    &&& s.datatype() == "string"@
    &&& s.lower() == 1
    &&& s.upper() is None
    &&& s.cells().len() == text.len()
    &&& forall|i: int|
        0 <= i < text.len() ==> (#[trigger] s.cells()[i]) < store.cells().len() && store.value_at(s.cells()[i])
            == Value::Char(text[i])
}

impl SequenceInstance {
    /// Makes the character string of a text, of cells of its own.
    pub fn construct_string_sequence(v: &str, store: &mut Store) -> (r: Value)
        requires
            old(store).wf(),
        ensures
            final(store).wf(),
            final(store).extends(old(store)),
            final(store).pass() == old(store).pass(),
            final(store).holds(r),
            spells(final(store), r, v@),
            r matches Value::Sequence(s) && s.wf() && forall|i: int|
                0 <= i < s.cells().len() ==> (#[trigger] s.cells()[i]) >= old(store).cells().len(),
    {
        let characters = crate::text::chars_of(v);
        let mut cells: Vec<usize> = Vec::new();
        let mut i: usize = 0;
        while i < characters.len()
            invariant
                i <= characters.len(),
                cells@.len() == i,
                store.wf(),
                store.extends(old(store)),
                store.pass() == old(store).pass(),
                forall|k: int|
                    0 <= k < i ==> old(store).cells().len() <= (#[trigger] cells@[k]) < store.cells().len()
                        && store.value_at(cells@[k]) == Value::Char(characters@[k]),
            decreases characters.len() - i,
        {
            let ghost before = *store;
            let ghost sofar = cells@;
            let c = store.new_cell(Value::Char(characters[i]));
            cells.push(c);
            proof {
                crate::execution::functions::lemma_extends_twice(old(store), &before, store);
                assert forall|k: int| 0 <= k < i + 1 implies old(store).cells().len() <= (#[trigger] cells@[k])
                    < store.cells().len() && store.value_at(cells@[k]) == Value::Char(characters@[k]) by {
                    if k < i {
                        assert(cells@[k] == sofar[k]);
                        super::copy::lemma_value_kept(&before, store, sofar[k]);
                    }
                }
            }
            i += 1;
        }
        let r = Value::Sequence(SequenceInstance::new(MetaDataTypeName::from_str("string"), 1, cells));
        assert forall|i: int| 0 <= i < r.cells().len() implies (#[trigger] r.cells()[i]) < store.cells().len() by {
            assert(r.cells()[i] == cells@[i]);
        }
        r
    }
}

} // verus!
