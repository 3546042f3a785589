//! Comparing values.
//!
//! Two numbers compare as numbers of the stronger of their kinds. Two
//! sequences compare cell by cell, and the shorter of two that agree as
//! far as the shorter reaches is the lesser; so do two structures, field
//! by field. A value that holds itself cannot be compared.

use vstd::prelude::*;
use crate::execution::value::conversion::{agrees, atom_to_char, atom_to_double, atom_to_int, atom_to_real,
    atom_to_bool};
use crate::execution::value::ieee::{double_equal, double_is_less, double_less, doubles_equal, real_equal,
    real_is_less, real_less, reals_equal};
use crate::execution::value::{GeneralSymbol, Store, Value};
use crate::symbols::datatype::{promote, promoted, DataClass};
use crate::symbols::metadata::MetaDataType;
use crate::symbols::SymbolTable;

verus! {

/// The message for a value that is empty.
pub open spec fn empty_value_message() -> Seq<char> {
    "Empty value"@
}

/// The message for what is no value.
pub open spec fn not_a_value_message(name: Seq<char>) -> Seq<char> {
    name + " is not a value"@
}

/// The message for a name that nothing goes by.
pub open spec fn not_found_message(name: Seq<char>) -> Seq<char> {
    name + " not found"@
}

/// The message for links that lead round in a circle.
pub open spec fn circular_message() -> Seq<char> {
    "Circular reference"@
}

/// The message for two values that cannot be compared.
pub open spec fn invalid_comparison_message() -> Seq<char> {
    "Invalid comparison"@
}

/// The message for a datatype that comparisons do not know.
pub open spec fn unsupported_comparison_message() -> Seq<char> {
    "unsupported datatype for comparison"@
}

/// The class of the datatype of a name.
pub open spec fn named_class(types: &SymbolTable<MetaDataType>, name: Seq<char>) -> Result<
    DataClass,
    Seq<char>,
> {
    if types.has(name) {
        Ok(types.item(name).root().class())
    } else {
        Err(not_found_message(name))
    }
}

/// The class of the datatype of a value. A sequence and a structure have
/// the class of the datatype they name, a reference to a cell that of the
/// datatype the cell is declared with; the name of a variable has the
/// class of the value of the variable, and a link that of what it links
/// to. At most `fuel` links are followed.
pub open spec fn value_class(store: &Store, types: &SymbolTable<MetaDataType>, v: Value, fuel: nat) -> Result<
    DataClass,
    Seq<char>,
>
    decreases fuel, store.reach(v),
{
    match v {
        Value::Empty => Err(empty_value_message()),
        Value::Bool(_) => Ok(DataClass::Bool),
        Value::Int(_) => Ok(DataClass::Int),
        Value::Real(_) => Ok(DataClass::Real),
        Value::Double(_) => Ok(DataClass::Dbl),
        Value::Char(_) => Ok(DataClass::Char),
        Value::Selector(s) => Err(not_a_value_message(s.member@)),
        Value::Sequence(s) => named_class(types, s.datatype()),
        Value::Structure(s) => named_class(types, s.datatype()),
        Value::Symbol(s) => match s.resolution {
            GeneralSymbol::Variable(d) => if store.wf() && d.cell < store.cells().len() {
                value_class(store, types, store.value_at(d.cell), fuel)
            } else {
                Err(not_a_value_message(s.referred_name@))
            },
            _ => Err(not_a_value_message(s.referred_name@)),
        },
        Value::ValueByReference(c) => named_class(types, c.datatype@),
        Value::LogicalLink(e) => if fuel > 0 && e < store.envelopes().len() {
            value_class(store, types, store.envelopes()[e as int].value, (fuel - 1) as nat)
        } else {
            Err(circular_message())
        },
    }
}

fn message_about(name: &str, tail: &str) -> (r: String)
    ensures
        r@ == name@ + tail@,
{
    let mut m = String::from_str(name);
    m.append(tail);
    m
}

/// The class of the datatype of a name.
pub fn class_of_name(types: &SymbolTable<MetaDataType>, name: &str) -> (r: Result<DataClass, String>)
    requires
        types.wf(),
    ensures
        agrees(r, named_class(types, name@)),
{
    match types.try_get(name) {
        Some(t) => Ok(t.root_data_type().classify()),
        None => Err(message_about(name, " not found")),
    }
}

/// The class of the datatype of a value.
pub fn class_of_value(store: &Store, types: &SymbolTable<MetaDataType>, v: &Value, fuel: usize) -> (r:
    Result<DataClass, String>)
    requires
        store.wf(),
        types.wf(),
        store.holds(*v),
    ensures
        agrees(r, value_class(store, types, *v, fuel as nat)),
    decreases fuel, store.reach(*v),
{
    match v {
        Value::Empty => Err(String::from_str("Empty value")),
        Value::Bool(_) => Ok(DataClass::Bool),
        Value::Int(_) => Ok(DataClass::Int),
        Value::Real(_) => Ok(DataClass::Real),
        Value::Double(_) => Ok(DataClass::Dbl),
        Value::Char(_) => Ok(DataClass::Char),
        Value::Selector(s) => Err(message_about(s.member.as_str(), " is not a value")),
        Value::Sequence(s) => class_of_name(types, s.as_string().as_str()),
        Value::Structure(s) => class_of_name(types, s.as_string().as_str()),
        Value::Symbol(s) => match &s.resolution {
            GeneralSymbol::Variable(d) => {
                assert(v.cells()[0] == d.cell);
                class_of_value(store, types, store.get(d.cell), fuel)
            },
            _ => Err(message_about(s.referred_name.as_str(), " is not a value")),
        },
        Value::ValueByReference(c) => class_of_name(types, c.datatype.as_str()),
        Value::LogicalLink(e) => {
            if fuel > 0 {
                class_of_value(store, types, store.get_envelope(*e), fuel - 1)
            } else {
                Err(String::from_str("Circular reference"))
            }
        },
    }
}

/// How the results of comparing two values are told: minus one for
/// less, zero for equal, one for greater.
pub open spec fn ordering(less: bool, greater: bool) -> int {
    if less {
        -1
    } else if greater {
        1
    } else {
        0
    }
}

/// The cells of a sequence or of a structure; nothing for another value.
pub open spec fn parts_of(v: Value) -> Option<Seq<usize>> {
    match v {
        Value::Sequence(s) => Some(s.cells()),
        Value::Structure(s) => Some(s.cells()),
        _ => None,
    }
}

/// Whether a value is of the kind that a class of sequences or of
/// structures asks for.
pub open spec fn is_kind(v: Value, class: DataClass) -> bool {
    match class {
        DataClass::Structure => v is Structure,
        _ => v is Sequence,
    }
}

/// How the values in two cells compare. `path` holds the envelopes of
/// the values that the cells are parts of, and parts of parts; a cell
/// whose envelope is among them is part of itself, which cannot be
/// compared.
pub open spec fn compared_cells(
    store: &Store,
    types: &SymbolTable<MetaDataType>,
    left: usize,
    right: usize,
    path: Seq<usize>,
    fuel: nat,
) -> Result<int, Seq<char>>
    decreases fuel, 1nat, 0nat,
{
    if !(store.wf() && left < store.cells().len() && right < store.cells().len()) {
        Err(invalid_comparison_message())
    } else {
        let l = store.value_at(left);
        let r = store.value_at(right);
        let links = store.envelopes().len();
        match value_class(store, types, l, links) {
            Err(m) => Err(m),
            Ok(lc) => match value_class(store, types, r, links) {
                Err(m) => Err(m),
                Ok(rc) => match promoted(lc, rc) {
                    Err(m) => Err(m),
                    Ok(class) => match class {
                        DataClass::Int => match atom_to_int(store.atom(l)) {
                            Err(m) => Err(m),
                            Ok(a) => match atom_to_int(store.atom(r)) {
                                Err(m) => Err(m),
                                Ok(b) => Ok(ordering(a < b, a > b)),
                            },
                        },
                        DataClass::Real => match atom_to_real(store.atom(l)) {
                            Err(m) => Err(m),
                            Ok(a) => match atom_to_real(store.atom(r)) {
                                Err(m) => Err(m),
                                Ok(b) => Ok(ordering(real_less(a, b), real_less(b, a))),
                            },
                        },
                        DataClass::Dbl => match atom_to_double(store.atom(l)) {
                            Err(m) => Err(m),
                            Ok(a) => match atom_to_double(store.atom(r)) {
                                Err(m) => Err(m),
                                Ok(b) => Ok(ordering(double_less(a, b), double_less(b, a))),
                            },
                        },
                        DataClass::Char => match atom_to_char(store.atom(l)) {
                            Err(m) => Err(m),
                            Ok(a) => match atom_to_char(store.atom(r)) {
                                Err(m) => Err(m),
                                Ok(b) => Ok(ordering(a < b, a > b)),
                            },
                        },
                        DataClass::Structure | DataClass::Sequence | DataClass::Text => {
                            let e = store.cells()[left as int].contents;
                            if !is_kind(l, class) || !is_kind(r, class) || path.contains(e) || fuel == 0 {
                                Err(invalid_comparison_message())
                            } else {
                                compared_lists(
                                    store,
                                    types,
                                    parts_of(l)->0,
                                    parts_of(r)->0,
                                    0,
                                    path.push(e),
                                    (fuel - 1) as nat,
                                )
                            }
                        },
                        _ => Err(invalid_comparison_message()),
                    },
                },
            },
        }
    }
}

/// How two lists of cells compare from index `i` on: as the first pair
/// of cells that do not compare equal; if there is none, the shorter
/// list is the lesser.
pub open spec fn compared_lists(
    store: &Store,
    types: &SymbolTable<MetaDataType>,
    a: Seq<usize>,
    b: Seq<usize>,
    i: int,
    path: Seq<usize>,
    fuel: nat,
) -> Result<int, Seq<char>>
    decreases fuel, 2nat, a.len() - i,
{
    if i < 0 {
        Err(invalid_comparison_message())
    } else if i >= a.len() && i >= b.len() {
        Ok(0)
    } else if i >= a.len() {
        Ok(-1)
    } else if i >= b.len() {
        Ok(1)
    } else {
        match compared_cells(store, types, a[i], b[i], path, fuel) {
            Err(m) => Err(m),
            Ok(r) => if r != 0 {
                Ok(r)
            } else {
                compared_lists(store, types, a, b, i + 1, path, fuel)
            },
        }
    }
}

/// Whether an outcome of a comparison and its model agree.
pub open spec fn compares_as(r: Result<i32, String>, want: Result<int, Seq<char>>) -> bool {
    match want {
        Ok(v) => r is Ok && r->Ok_0 == v,
        Err(m) => r is Err && r->Err_0@ == m,
    }
}

fn tell(less: bool, greater: bool) -> (r: i32)
    ensures
        r == ordering(less, greater),
{
    if less {
        -1
    } else if greater {
        1
    } else {
        0
    }
}

fn copy_cells(cells: &Vec<usize>) -> (r: Vec<usize>)
    ensures
        r@ == cells@,
{
    let mut r: Vec<usize> = Vec::new();
    let mut i: usize = 0;
    while i < cells.len()
        invariant
            i <= cells.len(),
            r@ == cells@.subrange(0, i as int),
        decreases cells.len() - i,
    {
        r.push(cells[i]);
        i += 1;
        assert(r@ =~= cells@.subrange(0, i as int));
    }
    assert(cells@.subrange(0, cells.len() as int) =~= cells@);
    r
}

/// The cells of a sequence or of a structure.
fn parts(v: &Value) -> (r: Option<Vec<usize>>)
    ensures
        match r {
            Some(cells) => parts_of(*v) == Some(cells@),
            None => parts_of(*v) is None,
        },
{
    match v {
        Value::Sequence(s) => Some(copy_cells(s.as_values())),
        Value::Structure(s) => {
            let members = s.as_values();
            let mut cells: Vec<usize> = Vec::new();
            let mut i: usize = 0;
            while i < members.len()
                invariant
                    i <= members.len(),
                    cells@.len() == i,
                    forall|k: int| 0 <= k < i ==> cells@[k] == (#[trigger] members@[k]).cell,
                decreases members.len() - i,
            {
                cells.push(members[i].cell);
                i += 1;
            }
            assert(cells@ =~= s.cells());
            Some(cells)
        },
        _ => None,
    }
}

fn is_on_path(path: &Vec<usize>, e: usize) -> (r: bool)
    ensures
        r == path@.contains(e),
{
    let mut i: usize = 0;
    while i < path.len()
        invariant
            i <= path.len(),
            forall|k: int| 0 <= k < i ==> path@[k] != e,
        decreases path.len() - i,
    {
        if path[i] == e {
            return true;
        }
        i += 1;
    }
    false
}

/// Compares the values in two cells.
pub fn compare_cells(
    store: &Store,
    types: &SymbolTable<MetaDataType>,
    left: usize,
    right: usize,
    path: &mut Vec<usize>,
    fuel: usize,
) -> (r: Result<i32, String>)
    requires
        store.wf(),
        types.wf(),
        left < store.cells().len(),
        right < store.cells().len(),
    ensures
        final(path)@ == old(path)@,
        compares_as(r, compared_cells(store, types, left, right, old(path)@, fuel as nat)),
    decreases fuel, 1nat, 0nat,
{
    let l = store.get(left);
    let r = store.get(right);
    let links = store.envelope_count();
    let lc = match class_of_value(store, types, l, links) {
        Ok(c) => c,
        Err(e) => {
            return Err(e);
        },
    };
    let rc = match class_of_value(store, types, r, links) {
        Ok(c) => c,
        Err(e) => {
            return Err(e);
        },
    };
    let class = match promote(lc, rc) {
        Ok(c) => c,
        Err(e) => {
            return Err(e);
        },
    };
    match class {
        DataClass::Int => {
            let a = match l.as_i32(store) {
                Ok(a) => a,
                Err(e) => {
                    return Err(e);
                },
            };
            let b = match r.as_i32(store) {
                Ok(b) => b,
                Err(e) => {
                    return Err(e);
                },
            };
            Ok(tell(a < b, a > b))
        },
        DataClass::Real => {
            let a = match l.as_real(store) {
                Ok(a) => a,
                Err(e) => {
                    return Err(e);
                },
            };
            let b = match r.as_real(store) {
                Ok(b) => b,
                Err(e) => {
                    return Err(e);
                },
            };
            Ok(tell(real_is_less(a, b), real_is_less(b, a)))
        },
        DataClass::Dbl => {
            let a = match l.as_double(store) {
                Ok(a) => a,
                Err(e) => {
                    return Err(e);
                },
            };
            let b = match r.as_double(store) {
                Ok(b) => b,
                Err(e) => {
                    return Err(e);
                },
            };
            Ok(tell(double_is_less(a, b), double_is_less(b, a)))
        },
        DataClass::Char => {
            let a = match l.as_char(store) {
                Ok(a) => a,
                Err(e) => {
                    return Err(e);
                },
            };
            let b = match r.as_char(store) {
                Ok(b) => b,
                Err(e) => {
                    return Err(e);
                },
            };
            Ok(tell(a < b, a > b))
        },
        DataClass::Structure | DataClass::Sequence | DataClass::Text => {
            let e = store.envelope_of(left);
            let fits = match class {
                DataClass::Structure => match (l, r) {
                    (Value::Structure(_), Value::Structure(_)) => true,
                    _ => false,
                },
                _ => match (l, r) {
                    (Value::Sequence(_), Value::Sequence(_)) => true,
                    _ => false,
                },
            };
            if !fits || is_on_path(path, e) || fuel == 0 {
                return Err(String::from_str("Invalid comparison"));
            }
            let a = parts(l).unwrap();
            let b = parts(r).unwrap();
            proof {
                assert forall|k: int| 0 <= k < a@.len() implies (#[trigger] a@[k]) < store.cells().len() by {
                    assert(l.cells()[k] == a@[k]);
                }
                assert forall|k: int| 0 <= k < b@.len() implies (#[trigger] b@[k]) < store.cells().len() by {
                    assert(r.cells()[k] == b@[k]);
                }
            }
            path.push(e);
            let result = compare_lists(store, types, &a, &b, path, fuel - 1);
            path.pop();
            assert(path@ =~= old(path)@);
            result
        },
        _ => Err(String::from_str("Invalid comparison")),
    }
}

/// Compares two lists of cells.
pub fn compare_lists(
    store: &Store,
    types: &SymbolTable<MetaDataType>,
    a: &Vec<usize>,
    b: &Vec<usize>,
    path: &mut Vec<usize>,
    fuel: usize,
) -> (r: Result<i32, String>)
    requires
        store.wf(),
        types.wf(),
        forall|k: int| 0 <= k < a@.len() ==> (#[trigger] a@[k]) < store.cells().len(),
        forall|k: int| 0 <= k < b@.len() ==> (#[trigger] b@[k]) < store.cells().len(),
    ensures
        final(path)@ == old(path)@,
        compares_as(r, compared_lists(store, types, a@, b@, 0, old(path)@, fuel as nat)),
    decreases fuel, 2nat, a@.len(),
{
    let mut i: usize = 0;
    while i < a.len() && i < b.len()
        invariant
            i <= a.len(),
            i <= b.len(),
            store.wf(),
            types.wf(),
            path@ == old(path)@,
            forall|k: int| 0 <= k < a@.len() ==> (#[trigger] a@[k]) < store.cells().len(),
            forall|k: int| 0 <= k < b@.len() ==> (#[trigger] b@[k]) < store.cells().len(),
            compared_lists(store, types, a@, b@, 0, old(path)@, fuel as nat) == compared_lists(
                store,
                types,
                a@,
                b@,
                i as int,
                old(path)@,
                fuel as nat,
            ),
        decreases a.len() - i,
    {
        match compare_cells(store, types, a[i], b[i], path, fuel) {
            Ok(r) => {
                if r != 0 {
                    return Ok(r);
                }
            },
            Err(e) => {
                return Err(e);
            },
        }
        i += 1;
    }
    if i >= a.len() && i >= b.len() {
        Ok(0)
    } else if i >= a.len() {
        Ok(-1)
    } else {
        Ok(1)
    }
}

/// What comparing two values for being equal comes to: two sequences,
/// and two structures, are equal if they compare equal part by part;
/// other values are equal as truth values, characters or numbers of
/// the stronger of their kinds.
pub open spec fn equality(store: &Store, types: &SymbolTable<MetaDataType>, l: Value, r: Value) -> Result<
    bool,
    Seq<char>,
> {
    let links = store.envelopes().len();
    if (l is Sequence && r is Sequence) || (l is Structure && r is Structure) {
        match compared_lists(store, types, parts_of(l)->0, parts_of(r)->0, 0, Seq::empty(), links) {
            Ok(c) => Ok(c == 0),
            Err(m) => Err(m),
        }
    } else {
        match value_class(store, types, l, links) {
            Err(m) => Err(m),
            Ok(lc) => match value_class(store, types, r, links) {
                Err(m) => Err(m),
                Ok(rc) => match promoted(lc, rc) {
                    Err(m) => Err(m),
                    Ok(class) => match class {
                        DataClass::Bool => match atom_to_bool(store.atom(l)) {
                            Err(m) => Err(m),
                            Ok(a) => match atom_to_bool(store.atom(r)) {
                                Err(m) => Err(m),
                                Ok(b) => Ok(a == b),
                            },
                        },
                        DataClass::Char => match atom_to_char(store.atom(l)) {
                            Err(m) => Err(m),
                            Ok(a) => match atom_to_char(store.atom(r)) {
                                Err(m) => Err(m),
                                Ok(b) => Ok(a == b),
                            },
                        },
                        DataClass::Dbl => match atom_to_double(store.atom(l)) {
                            Err(m) => Err(m),
                            Ok(a) => match atom_to_double(store.atom(r)) {
                                Err(m) => Err(m),
                                Ok(b) => Ok(double_equal(a, b)),
                            },
                        },
                        DataClass::Int => match atom_to_int(store.atom(l)) {
                            Err(m) => Err(m),
                            Ok(a) => match atom_to_int(store.atom(r)) {
                                Err(m) => Err(m),
                                Ok(b) => Ok(a == b),
                            },
                        },
                        DataClass::Real => match atom_to_real(store.atom(l)) {
                            Err(m) => Err(m),
                            Ok(a) => match atom_to_real(store.atom(r)) {
                                Err(m) => Err(m),
                                Ok(b) => Ok(real_equal(a, b)),
                            },
                        },
                        _ => Err(unsupported_comparison_message()),
                    },
                },
            },
        }
    }
}

/// Whether two values are equal. Values that cannot be compared are not.
pub open spec fn equal(store: &Store, types: &SymbolTable<MetaDataType>, l: Value, r: Value) -> bool {
    match equality(store, types, l, r) {
        Ok(b) => b,
        Err(_) => false,
    }
}

/// Whether two values are not equal.
pub open spec fn not_equal(store: &Store, types: &SymbolTable<MetaDataType>, l: Value, r: Value) -> bool {
    !equal(store, types, l, r)
}

/// What comparing two values for order comes to: minus one where the
/// first is less, one where it is greater, zero else.
pub open spec fn order(store: &Store, types: &SymbolTable<MetaDataType>, l: Value, r: Value) -> Result<
    int,
    Seq<char>,
> {
    let links = store.envelopes().len();
    if (l is Sequence && r is Sequence) || (l is Structure && r is Structure) {
        compared_lists(store, types, parts_of(l)->0, parts_of(r)->0, 0, Seq::empty(), links)
    } else {
        match value_class(store, types, l, links) {
            Err(m) => Err(m),
            Ok(lc) => match value_class(store, types, r, links) {
                Err(m) => Err(m),
                Ok(rc) => match promoted(lc, rc) {
                    Err(m) => Err(m),
                    Ok(class) => match class {
                        DataClass::Char => match atom_to_char(store.atom(l)) {
                            Err(m) => Err(m),
                            Ok(a) => match atom_to_char(store.atom(r)) {
                                Err(m) => Err(m),
                                Ok(b) => Ok(ordering(a < b, a > b)),
                            },
                        },
                        DataClass::Dbl => match atom_to_double(store.atom(l)) {
                            Err(m) => Err(m),
                            Ok(a) => match atom_to_double(store.atom(r)) {
                                Err(m) => Err(m),
                                Ok(b) => Ok(ordering(double_less(a, b), double_less(b, a))),
                            },
                        },
                        DataClass::Int => match atom_to_int(store.atom(l)) {
                            Err(m) => Err(m),
                            Ok(a) => match atom_to_int(store.atom(r)) {
                                Err(m) => Err(m),
                                Ok(b) => Ok(ordering(a < b, a > b)),
                            },
                        },
                        DataClass::Real => match atom_to_real(store.atom(l)) {
                            Err(m) => Err(m),
                            Ok(a) => match atom_to_real(store.atom(r)) {
                                Err(m) => Err(m),
                                Ok(b) => Ok(ordering(real_less(a, b), real_less(b, a))),
                            },
                        },
                        _ => Err(unsupported_comparison_message()),
                    },
                },
            },
        }
    }
}

/// Whether an outcome that is a truth value and its model agree.
pub open spec fn tells(r: Result<Value, String>, want: Result<bool, Seq<char>>) -> bool {
    match want {
        Ok(b) => r is Ok && r->Ok_0 == Value::Bool(b),
        Err(m) => r is Err && r->Err_0@ == m,
    }
}

/// The cells of two values that are both sequences or both structures.
fn both_parts(l: &Value, r: &Value) -> (p: Option<(Vec<usize>, Vec<usize>)>)
    ensures
        match p {
            Some((a, b)) => ((*l is Sequence && *r is Sequence) || (*l is Structure && *r is Structure))
                && parts_of(*l) == Some(a@) && parts_of(*r) == Some(b@),
            None => !((*l is Sequence && *r is Sequence) || (*l is Structure && *r is Structure)),
        },
{
    match (l, r) {
        (Value::Sequence(_), Value::Sequence(_)) => Some((parts(l).unwrap(), parts(r).unwrap())),
        (Value::Structure(_), Value::Structure(_)) => Some((parts(l).unwrap(), parts(r).unwrap())),
        _ => None,
    }
}

proof fn lemma_parts_in_store(store: &Store, v: Value, cells: Seq<usize>)
    requires
        store.holds(v),
        parts_of(v) == Some(cells),
    ensures
        forall|k: int| 0 <= k < cells.len() ==> (#[trigger] cells[k]) < store.cells().len(),
{
    assert forall|k: int| 0 <= k < cells.len() implies (#[trigger] cells[k]) < store.cells().len() by {
        assert(v.cells()[k] == cells[k]);
    }
}

/// What comparing two values for being equal comes to.
pub fn eq_internal(left: &Value, right: &Value, store: &Store, types: &SymbolTable<MetaDataType>) -> (r:
    Result<Value, String>)
    requires
        store.wf(),
        types.wf(),
        store.holds(*left),
        store.holds(*right),
    ensures
        tells(r, equality(store, types, *left, *right)),
{
    let links = store.envelope_count();
    if let Some((a, b)) = both_parts(left, right) {
        proof {
            lemma_parts_in_store(store, *left, a@);
            lemma_parts_in_store(store, *right, b@);
        }
        let mut path: Vec<usize> = Vec::new();
        assert(path@ =~= Seq::<usize>::empty());
        return match compare_lists(store, types, &a, &b, &mut path, links) {
            Ok(c) => Ok(Value::Bool(c == 0)),
            Err(e) => Err(e),
        };
    }
    let lc = match class_of_value(store, types, left, links) {
        Ok(c) => c,
        Err(e) => {
            return Err(e);
        },
    };
    let rc = match class_of_value(store, types, right, links) {
        Ok(c) => c,
        Err(e) => {
            return Err(e);
        },
    };
    let class = match promote(lc, rc) {
        Ok(c) => c,
        Err(e) => {
            return Err(e);
        },
    };
    match class {
        DataClass::Bool => {
            let a = match left.as_bool(store) {
                Ok(a) => a,
                Err(e) => {
                    return Err(e);
                },
            };
            let b = match right.as_bool(store) {
                Ok(b) => b,
                Err(e) => {
                    return Err(e);
                },
            };
            Ok(Value::Bool(a == b))
        },
        DataClass::Char => {
            let a = match left.as_char(store) {
                Ok(a) => a,
                Err(e) => {
                    return Err(e);
                },
            };
            let b = match right.as_char(store) {
                Ok(b) => b,
                Err(e) => {
                    return Err(e);
                },
            };
            Ok(Value::Bool(a == b))
        },
        DataClass::Dbl => {
            let a = match left.as_double(store) {
                Ok(a) => a,
                Err(e) => {
                    return Err(e);
                },
            };
            let b = match right.as_double(store) {
                Ok(b) => b,
                Err(e) => {
                    return Err(e);
                },
            };
            Ok(Value::Bool(doubles_equal(a, b)))
        },
        DataClass::Int => {
            let a = match left.as_i32(store) {
                Ok(a) => a,
                Err(e) => {
                    return Err(e);
                },
            };
            let b = match right.as_i32(store) {
                Ok(b) => b,
                Err(e) => {
                    return Err(e);
                },
            };
            Ok(Value::Bool(a == b))
        },
        DataClass::Real => {
            let a = match left.as_real(store) {
                Ok(a) => a,
                Err(e) => {
                    return Err(e);
                },
            };
            let b = match right.as_real(store) {
                Ok(b) => b,
                Err(e) => {
                    return Err(e);
                },
            };
            Ok(Value::Bool(reals_equal(a, b)))
        },
        _ => Err(String::from_str("unsupported datatype for comparison")),
    }
}

/// Whether two values are equal. Values that cannot be compared are not.
pub fn eq(left: &Value, right: &Value, store: &Store, types: &SymbolTable<MetaDataType>) -> (r: Result<
    Value,
    String,
>)
    requires
        store.wf(),
        types.wf(),
        store.holds(*left),
        store.holds(*right),
    ensures
        r is Ok,
        r->Ok_0 == Value::Bool(equal(store, types, *left, *right)),
{
    match eq_internal(left, right, store, types) {
        Ok(result) => Ok(result),
        Err(_) => Ok(Value::Bool(false)),
    }
}

/// Whether two values are not equal.
pub fn noteq(left: &Value, right: &Value, store: &Store, types: &SymbolTable<MetaDataType>) -> (r: Result<
    Value,
    String,
>)
    requires
        store.wf(),
        types.wf(),
        store.holds(*left),
        store.holds(*right),
    ensures
        r is Ok,
        r->Ok_0 == Value::Bool(not_equal(store, types, *left, *right)),
{
    match eq(left, right, store, types) {
        Ok(Value::Bool(b)) => Ok(Value::Bool(!b)),
        _ => Ok(Value::Bool(true)),
    }
}

/// How two values compare for order.
fn compare_values(left: &Value, right: &Value, store: &Store, types: &SymbolTable<MetaDataType>) -> (r:
    Result<i32, String>)
    requires
        store.wf(),
        types.wf(),
        store.holds(*left),
        store.holds(*right),
    ensures
        compares_as(r, order(store, types, *left, *right)),
{
    let links = store.envelope_count();
    if let Some((a, b)) = both_parts(left, right) {
        proof {
            lemma_parts_in_store(store, *left, a@);
            lemma_parts_in_store(store, *right, b@);
        }
        let mut path: Vec<usize> = Vec::new();
        assert(path@ =~= Seq::<usize>::empty());
        return compare_lists(store, types, &a, &b, &mut path, links);
    }
    let lc = match class_of_value(store, types, left, links) {
        Ok(c) => c,
        Err(e) => {
            return Err(e);
        },
    };
    let rc = match class_of_value(store, types, right, links) {
        Ok(c) => c,
        Err(e) => {
            return Err(e);
        },
    };
    let class = match promote(lc, rc) {
        Ok(c) => c,
        Err(e) => {
            return Err(e);
        },
    };
    match class {
        DataClass::Char => {
            let a = match left.as_char(store) {
                Ok(a) => a,
                Err(e) => {
                    return Err(e);
                },
            };
            let b = match right.as_char(store) {
                Ok(b) => b,
                Err(e) => {
                    return Err(e);
                },
            };
            Ok(tell(a < b, a > b))
        },
        DataClass::Dbl => {
            let a = match left.as_double(store) {
                Ok(a) => a,
                Err(e) => {
                    return Err(e);
                },
            };
            let b = match right.as_double(store) {
                Ok(b) => b,
                Err(e) => {
                    return Err(e);
                },
            };
            Ok(tell(double_is_less(a, b), double_is_less(b, a)))
        },
        DataClass::Int => {
            let a = match left.as_i32(store) {
                Ok(a) => a,
                Err(e) => {
                    return Err(e);
                },
            };
            let b = match right.as_i32(store) {
                Ok(b) => b,
                Err(e) => {
                    return Err(e);
                },
            };
            Ok(tell(a < b, a > b))
        },
        DataClass::Real => {
            let a = match left.as_real(store) {
                Ok(a) => a,
                Err(e) => {
                    return Err(e);
                },
            };
            let b = match right.as_real(store) {
                Ok(b) => b,
                Err(e) => {
                    return Err(e);
                },
            };
            Ok(tell(real_is_less(a, b), real_is_less(b, a)))
        },
        _ => Err(String::from_str("unsupported datatype for comparison")),
    }
}

/// What a comparison for order tells, given what the order has to be.
pub open spec fn ordered(
    store: &Store,
    types: &SymbolTable<MetaDataType>,
    l: Value,
    r: Value,
    wanted: spec_fn(int) -> bool,
) -> Result<bool, Seq<char>> {
    match order(store, types, l, r) {
        Ok(c) => Ok(wanted(c)),
        Err(m) => Err(m),
    }
}

/// Whether the first value is greater than the second.
pub fn gr(left: &Value, right: &Value, store: &Store, types: &SymbolTable<MetaDataType>) -> (r: Result<
    Value,
    String,
>)
    requires
        store.wf(),
        types.wf(),
        store.holds(*left),
        store.holds(*right),
    ensures
        tells(r, ordered(store, types, *left, *right, |c: int| c > 0)),
{
    match compare_values(left, right, store, types) {
        Ok(c) => Ok(Value::Bool(c > 0)),
        Err(e) => Err(e),
    }
}

/// Whether the first value is less than the second.
pub fn less(left: &Value, right: &Value, store: &Store, types: &SymbolTable<MetaDataType>) -> (r: Result<
    Value,
    String,
>)
    requires
        store.wf(),
        types.wf(),
        store.holds(*left),
        store.holds(*right),
    ensures
        tells(r, ordered(store, types, *left, *right, |c: int| c < 0)),
{
    match compare_values(left, right, store, types) {
        Ok(c) => Ok(Value::Bool(c < 0)),
        Err(e) => Err(e),
    }
}

/// Whether the first value is not less than the second.
pub fn greq(left: &Value, right: &Value, store: &Store, types: &SymbolTable<MetaDataType>) -> (r: Result<
    Value,
    String,
>)
    requires
        store.wf(),
        types.wf(),
        store.holds(*left),
        store.holds(*right),
    ensures
        tells(r, ordered(store, types, *left, *right, |c: int| !(c < 0))),
{
    match compare_values(left, right, store, types) {
        Ok(c) => Ok(Value::Bool(!(c < 0))),
        Err(e) => Err(e),
    }
}

/// Whether the first value is not greater than the second.
pub fn lesseq(left: &Value, right: &Value, store: &Store, types: &SymbolTable<MetaDataType>) -> (r: Result<
    Value,
    String,
>)
    requires
        store.wf(),
        types.wf(),
        store.holds(*left),
        store.holds(*right),
    ensures
        tells(r, ordered(store, types, *left, *right, |c: int| !(c > 0))),
{
    match compare_values(left, right, store, types) {
        Ok(c) => Ok(Value::Bool(!(c > 0))),
        Err(e) => Err(e),
    }
}

/// What the truth values of two values come to under a connective.
pub open spec fn connected(store: &Store, l: Value, r: Value, both: bool) -> Result<bool, Seq<char>> {
    match atom_to_bool(store.atom(l)) {
        Err(m) => Err(m),
        Ok(a) => if both && !a {
            Ok(false)
        } else if !both && a {
            Ok(true)
        } else {
            atom_to_bool(store.atom(r))
        },
    }
}

/// Whether both values are true. The second is not looked at where the
/// first is false.
pub fn and(left: &Value, right: &Value, store: &Store) -> (r: Result<Value, String>)
    requires
        store.wf(),
        store.holds(*left),
        store.holds(*right),
    ensures
        tells(r, connected(store, *left, *right, true)),
{
    match left.as_bool(store) {
        Err(e) => Err(e),
        Ok(a) => {
            if !a {
                Ok(Value::Bool(false))
            } else {
                match right.as_bool(store) {
                    Ok(b) => Ok(Value::Bool(b)),
                    Err(e) => Err(e),
                }
            }
        },
    }
}

/// Whether one of the values is true. The second is not looked at where
/// the first is true.
pub fn or(left: &Value, right: &Value, store: &Store) -> (r: Result<Value, String>)
    requires
        store.wf(),
        store.holds(*left),
        store.holds(*right),
    ensures
        tells(r, connected(store, *left, *right, false)),
{
    match left.as_bool(store) {
        Err(e) => Err(e),
        Ok(a) => {
            if a {
                Ok(Value::Bool(true))
            } else {
                match right.as_bool(store) {
                    Ok(b) => Ok(Value::Bool(b)),
                    Err(e) => Err(e),
                }
            }
        },
    }
}

/// A list of cells compares equal to itself, where it can be compared.
pub proof fn lemma_list_equals_itself(
    store: &Store,
    types: &SymbolTable<MetaDataType>,
    a: Seq<usize>,
    i: int,
    path: Seq<usize>,
    fuel: nat,
)
    requires
        0 <= i,
    ensures
        compared_lists(store, types, a, a, i, path, fuel) matches Ok(c) ==> c == 0,
    decreases fuel, 2nat, a.len() - i,
{
    if i < a.len() {
        lemma_cell_equals_itself(store, types, a[i], path, fuel);
        match compared_cells(store, types, a[i], a[i], path, fuel) {
            Ok(r) => {
                if r == 0 {
                    lemma_list_equals_itself(store, types, a, i + 1, path, fuel);
                }
            },
            Err(m) => {},
        }
    }
}

/// The value in a cell compares equal to itself, where it can be compared.
pub proof fn lemma_cell_equals_itself(
    store: &Store,
    types: &SymbolTable<MetaDataType>,
    cell: usize,
    path: Seq<usize>,
    fuel: nat,
)
    ensures
        compared_cells(store, types, cell, cell, path, fuel) matches Ok(c) ==> c == 0,
    decreases fuel, 1nat, 0nat,
{
    if store.wf() && cell < store.cells().len() {
        let v = store.value_at(cell);
        let links = store.envelopes().len();
        match value_class(store, types, v, links) {
            Ok(c) => match promoted(c, c) {
                Ok(class) => {
                    if class == DataClass::Structure || class == DataClass::Sequence || class
                        == DataClass::Text {
                        let e = store.cells()[cell as int].contents;
                        if is_kind(v, class) && !path.contains(e) && fuel > 0 {
                            lemma_list_equals_itself(
                                store,
                                types,
                                parts_of(v)->0,
                                0,
                                path.push(e),
                                (fuel - 1) as nat,
                            );
                        }
                    }
                },
                Err(m) => {},
            },
            Err(m) => {},
        }
    }
}

/// Whether a value, compared as a number, is a number: not one of the
/// single or double precision bit patterns that stand for no number.
pub open spec fn is_a_number(store: &Store, types: &SymbolTable<MetaDataType>, v: Value) -> bool {
    match value_class(store, types, v, store.envelopes().len()) {
        Ok(DataClass::Real) => atom_to_real(store.atom(v)) matches Ok(a) ==> !crate::execution::value::ieee::double_is_nan(
            crate::execution::value::ieee::real_to_double(a),
        ),
        Ok(DataClass::Dbl) => atom_to_double(store.atom(v)) matches Ok(a)
            ==> !crate::execution::value::ieee::double_is_nan(a),
        _ => true,
    }
}

/// Every value equals itself, where it can be compared with itself at
/// all, but for what is no number.
pub proof fn law_equality_is_reflexive(store: &Store, types: &SymbolTable<MetaDataType>, v: Value)
    requires
        equality(store, types, v, v) is Ok,
        is_a_number(store, types, v),
    ensures
        equality(store, types, v, v) == Ok::<bool, Seq<char>>(true),
        equal(store, types, v, v),
{
    if v is Sequence || v is Structure {
        lemma_list_equals_itself(store, types, parts_of(v)->0, 0, Seq::empty(), store.envelopes().len());
    }
}

/// Two values are unequal exactly if they are not equal.
pub proof fn law_unequal_is_not_equal(store: &Store, types: &SymbolTable<MetaDataType>, a: Value, b: Value)
    ensures
        not_equal(store, types, a, b) == !equal(store, types, a, b),
{
}

} // verus!
