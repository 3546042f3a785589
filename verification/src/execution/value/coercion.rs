//! How a value is made to fit a datatype.
//!
//! A value that is given to a cell of a datatype is first settled: the
//! name of a variable and a reference to a cell stand for what the cell
//! holds, a link for what it links to. What is settled is converted, if
//! the datatype is one of numbers, truth values or characters, and else
//! checked against the datatype and copied.

use vstd::prelude::*;
use crate::symbols::datatype::{accepts, depth, is_assignable_to, RootDataType};
use crate::symbols::metadata::MetaDataType;
use crate::symbols::SymbolTable;
use super::conversion::{atom_to_bool, atom_to_char, atom_to_double, atom_to_int, atom_to_real};
use super::copy::{copies, copy, lemma_copies_of_alike, DEPTH};
use super::display::{say, say_about, shown, text, whole, Piece, PieceModel, piece_models};
use super::{GeneralSymbol, Store, Value, lemma_alike_cells};

verus! {

/// The message for what is no value: a selector, or a name that stands for none.
pub open spec fn not_a_value_message(name: Seq<char>) -> Seq<char> {
    name + " is not a value"@
}

/// The message for a name that stands for nothing.
pub open spec fn not_found_message(name: Seq<char>) -> Seq<char> {
    name + " not found"@
}

/// The message for a value that a datatype does not accept.
pub open spec fn cannot_convert_message() -> Seq<char> {
    "Cannot convert value"@
}

/// The message for a sequence or structure of another datatype.
pub open spec fn cannot_convert_from_message(from: Seq<char>, to: Seq<char>) -> Seq<char> {
    "Cannot convert value from "@ + from + " to "@ + to
}

/// What a value stands for: the value itself, or, for the name of a
/// variable and for a reference to a cell, what the value in the cell
/// stands for, and for a link what the value it links to stands for. A
/// selector stands for no value, and neither does a name that is not
/// the name of a variable. At most `fuel` links are followed.
pub open spec fn settled(store: &Store, v: Value, fuel: nat) -> Result<Value, Seq<char>>
    decreases fuel, store.reach(v),
{
    match v {
        Value::Selector(s) => Err(not_a_value_message(s.member@)),
        Value::Symbol(s) => match s.resolution {
            GeneralSymbol::Variable(d) => if store.wf() && d.cell < store.cells().len() {
                settled(store, store.value_at(d.cell), fuel)
            } else {
                Err(cannot_convert_message())
            },
            GeneralSymbol::Unresolved(n) => Err(not_found_message(n@)),
            GeneralSymbol::Datatype(n) => Err(not_a_value_message(n@)),
            GeneralSymbol::Function(n) => Err(not_a_value_message(n@)),
            GeneralSymbol::Selector(n) => Err(not_a_value_message(n@)),
        },
        Value::ValueByReference(r) => if store.wf() && r.cell < store.cells().len() {
            settled(store, store.value_at(r.cell), fuel)
        } else {
            Err(cannot_convert_message())
        },
        Value::LogicalLink(e) => if fuel > 0 && store.wf() && e < store.envelopes().len() {
            settled(store, store.envelopes()[e as int].value, (fuel - 1) as nat)
        } else {
            Err(cannot_convert_message())
        },
        _ => Ok(v),
    }
}

/// What a settled value becomes for a datatype, before it is copied: a
/// number, a truth value or a character for a datatype of those, as the
/// conversions say; else the value itself, if the datatype accepts it.
pub open spec fn converted(store: &Store, types: &SymbolTable<MetaDataType>, t: RootDataType, v: Value) -> Result<
    Value,
    Seq<PieceModel>,
> {
    match t {
        RootDataType::Int => match atom_to_int(store.atom(v)) {
            Ok(i) => Ok(Value::Int(i)),
            Err(e) => Err(text(e)),
        },
        RootDataType::Real => match atom_to_real(store.atom(v)) {
            Ok(r) => Ok(Value::Real(r)),
            Err(e) => Err(text(e)),
        },
        RootDataType::Dbl => match atom_to_double(store.atom(v)) {
            Ok(d) => Ok(Value::Double(d)),
            Err(e) => Err(text(e)),
        },
        RootDataType::Bool => match atom_to_bool(store.atom(v)) {
            Ok(b) => Ok(Value::Bool(b)),
            Err(e) => Err(text(e)),
        },
        RootDataType::Char => match atom_to_char(store.atom(v)) {
            Ok(c) => Ok(Value::Char(c)),
            Err(e) => Err(text(e)),
        },
        RootDataType::Sequence(d) => match v {
            Value::Sequence(s) => if s.datatype() == d.name@ {
                Ok(v)
            } else {
                Err(text(cannot_convert_from_message(s.datatype(), d.name@)))
            },
            _ => Err(
                text("Cannot convert value "@) + shown(store, v, Seq::empty(), whole(store)) + text(
                    " to "@ + d.name@,
                ),
            ),
        },
        RootDataType::Structure(d) => match v {
            Value::Structure(s) => if s.datatype() == d.name@ {
                Ok(v)
            } else {
                Err(text(cannot_convert_from_message(s.datatype(), d.name@)))
            },
            _ => Err(
                text("Cannot convert value "@) + shown(store, v, Seq::empty(), whole(store)) + text(
                    " to "@ + d.name@,
                ),
            ),
        },
        _ => match accepts(types, v, t, true, depth(types)) {
            Ok(true) => Ok(v),
            Ok(false) => Err(text(cannot_convert_message())),
            Err(e) => Err(text(e)),
        },
    }
}

/// What a value becomes for a datatype, before it is copied.
pub open spec fn coerced(store: &Store, types: &SymbolTable<MetaDataType>, t: RootDataType, v: Value) -> Result<
    Value,
    Seq<PieceModel>,
> {
    match settled(store, v, whole(store)) {
        Ok(w) => converted(store, types, t, w),
        Err(e) => Err(text(e)),
    }
}

fn with_tail(name: &str, tail: &str) -> (r: String)
    ensures
        r@ == name@ + tail@,
{
    let mut m = String::from_str(name);
    m.append(tail);
    m
}

/// What a value stands for.
pub fn settle<'a>(store: &'a Store, v: &'a Value, fuel: usize) -> (r: Result<&'a Value, String>)
    requires
        store.wf(),
        store.holds(*v),
    ensures
        match (r, settled(store, *v, fuel as nat)) {
            (Ok(w), Ok(want)) => *w == want && store.holds(*w) && !(*w is Selector) && !(*w is Symbol) && !(*w
                is ValueByReference) && !(*w is LogicalLink),
            (Err(e), Err(want)) => e@ == want,
            _ => false,
        },
    decreases fuel, store.reach(*v),
{
    match v {
        Value::Selector(s) => Err(with_tail(s.member.as_str(), " is not a value")),
        Value::Symbol(s) => match &s.resolution {
            GeneralSymbol::Variable(d) => {
                assert(v.cells()[0] == d.cell);
                settle(store, store.get(d.cell), fuel)
            },
            GeneralSymbol::Unresolved(n) => Err(with_tail(n.as_str(), " not found")),
            GeneralSymbol::Datatype(n) => Err(with_tail(n.as_str(), " is not a value")),
            GeneralSymbol::Function(n) => Err(with_tail(n.as_str(), " is not a value")),
            GeneralSymbol::Selector(n) => Err(with_tail(n.as_str(), " is not a value")),
        },
        Value::ValueByReference(r) => {
            assert(v.cells()[0] == r.cell);
            settle(store, store.get(r.cell), fuel)
        },
        Value::LogicalLink(e) => {
            if fuel > 0 {
                settle(store, store.get_envelope(*e), fuel - 1)
            } else {
                Err(String::from_str("Cannot convert value"))
            }
        },
        _ => Ok(v),
    }
}

/// What a settled value becomes for a datatype, before it is copied.
fn convert(store: &Store, types: &SymbolTable<MetaDataType>, t: &RootDataType, v: &Value) -> (r: Result<
    Value,
    Vec<Piece>,
>)
    requires
        store.wf(),
        types.wf(),
        store.holds(*v),
    ensures
        match (r, converted(store, types, *t, *v)) {
            (Ok(w), Ok(want)) => w.alike(want),
            (Err(e), Err(want)) => piece_models(e@) == want,
            _ => false,
        },
{
    match t {
        RootDataType::Int => match v.as_i32(store) {
            Ok(i) => Ok(Value::Int(i)),
            Err(e) => Err(say(e)),
        },
        RootDataType::Real => match v.as_real(store) {
            Ok(x) => Ok(Value::Real(x)),
            Err(e) => Err(say(e)),
        },
        RootDataType::Dbl => match v.as_double(store) {
            Ok(x) => Ok(Value::Double(x)),
            Err(e) => Err(say(e)),
        },
        RootDataType::Bool => match v.as_bool(store) {
            Ok(b) => Ok(Value::Bool(b)),
            Err(e) => Err(say(e)),
        },
        RootDataType::Char => match v.as_char(store) {
            Ok(c) => Ok(Value::Char(c)),
            Err(e) => Err(say(e)),
        },
        RootDataType::Sequence(d) => match v {
            Value::Sequence(s) => {
                if crate::text::string_is(&s.as_string(), d.name.as_str()) {
                    Ok(v.duplicate())
                } else {
                    let mut m = String::from_str("Cannot convert value from ");
                    m.append(s.as_string().as_str());
                    m.append(" to ");
                    m.append(d.name.as_str());
                    Err(say(m))
                }
            },
            _ => Err(say_about("Cannot convert value ", store, v, with_tail(" to ", d.name.as_str()))),
        },
        RootDataType::Structure(d) => match v {
            Value::Structure(s) => {
                if crate::text::string_is(&s.as_string(), d.name.as_str()) {
                    Ok(v.duplicate())
                } else {
                    let mut m = String::from_str("Cannot convert value from ");
                    m.append(s.as_string().as_str());
                    m.append(" to ");
                    m.append(d.name.as_str());
                    Err(say(m))
                }
            },
            _ => Err(say_about("Cannot convert value ", store, v, with_tail(" to ", d.name.as_str()))),
        },
        _ => match is_assignable_to(v, t, types) {
            Ok(true) => Ok(v.duplicate()),
            Ok(false) => Err(say(String::from_str("Cannot convert value"))),
            Err(e) => Err(say(e)),
        },
    }
}

/// What a value becomes for a datatype, before it is copied.
pub fn fit(t: &RootDataType, v: &Value, store: &Store, types: &SymbolTable<MetaDataType>) -> (r: Result<
    Value,
    Vec<Piece>,
>)
    requires
        store.wf(),
        types.wf(),
        store.holds(*v),
    ensures
        match (r, coerced(store, types, *t, *v)) {
            (Ok(w), Ok(want)) => w.alike(want) && store.holds(w) && Store::referent(w) is None,
            (Err(e), Err(want)) => piece_models(e@) == want,
            _ => false,
        },
{
    let n = store.envelope_count();
    let fuel = if n < usize::MAX {
        n + 1
    } else {
        usize::MAX
    };
    let r = match settle(store, v, fuel) {
        Ok(w) => convert(store, types, t, w),
        Err(e) => Err(say(e)),
    };
    proof {
        if r is Ok {
            lemma_alike_cells(r->Ok_0, coerced(store, types, *t, *v)->Ok_0);
            lemma_converted_is_plain(store, types, *t, settled(store, *v, whole(store))->Ok_0);
        }
    }
    r
}

/// Makes a value fit a datatype: settles it, converts or checks it, and
/// copies it. Where the value does not fit, the store is left as it was.
pub fn coerce(t: &RootDataType, v: &Value, store: &mut Store, types: &SymbolTable<MetaDataType>) -> (r: Result<
    Value,
    Vec<Piece>,
>)
    requires
        old(store).wf(),
        types.wf(),
        old(store).holds(*v),
    ensures
        final(store).wf(),
        final(store).extends(old(store)),
        final(store).pass() == old(store).pass(),
        match (r, coerced(old(store), types, *t, *v)) {
            (Ok(w), Ok(want)) => final(store).holds(w) && Store::referent(w) is None && copies(
                old(store),
                final(store),
                old(store).cells().len() as nat,
                want,
                w,
                DEPTH as nat,
            ),
            (Err(e), Err(want)) => piece_models(e@) == want && *final(store) == *old(store),
            _ => false,
        },
{
    let plain = fit(t, v, store, types);
    match plain {
        Ok(w) => {
            let ghost want = coerced(old(store), types, *t, *v)->Ok_0;
            let r = copy(store, &w);
            proof {
                lemma_copies_of_alike(old(store), store, old(store).cells().len() as nat, w, want, r, DEPTH as nat);
            }
            Ok(r)
        },
        Err(e) => Err(e),
    }
}

/// What a settled value becomes for a datatype is no name and no reference.
pub proof fn lemma_converted_is_plain(store: &Store, types: &SymbolTable<MetaDataType>, t: RootDataType, v: Value)
    requires
        Store::referent(v) is None,
        converted(store, types, t, v) is Ok,
    ensures
        Store::referent(converted(store, types, t, v)->Ok_0) is None,
        store.holds(v) ==> store.holds(converted(store, types, t, v)->Ok_0),
{
}

/// What a value stands for is at home in the store.
pub proof fn lemma_settled_is_held(store: &Store, v: Value, fuel: nat)
    requires
        store.wf(),
        store.holds(v),
    ensures
        settled(store, v, fuel) matches Ok(w) ==> store.holds(w) && Store::referent(w) is None,
    decreases fuel, store.reach(v),
{
    match v {
        Value::Symbol(s) => match s.resolution {
            GeneralSymbol::Variable(d) => {
                assert(v.cells()[0] == d.cell);
                assert(store.fits(store.cells()[d.cell as int].contents as int, store.value_at(d.cell)));
                lemma_settled_is_held(store, store.value_at(d.cell), fuel);
            },
            _ => {},
        },
        Value::ValueByReference(r) => {
            assert(v.cells()[0] == r.cell);
            assert(store.fits(store.cells()[r.cell as int].contents as int, store.value_at(r.cell)));
            lemma_settled_is_held(store, store.value_at(r.cell), fuel);
        },
        Value::LogicalLink(e) => {
            if fuel > 0 {
                assert(store.fits(e as int, store.envelopes()[e as int].value));
                lemma_settled_is_held(store, store.envelopes()[e as int].value, (fuel - 1) as nat);
            }
        },
        _ => {},
    }
}

/// What a value becomes for a datatype is at home in the store.
pub proof fn lemma_coerced_is_held(store: &Store, types: &SymbolTable<MetaDataType>, t: RootDataType, v: Value)
    requires
        store.wf(),
        store.holds(v),
    ensures
        coerced(store, types, t, v) matches Ok(w) ==> store.holds(w) && Store::referent(w) is None,
{
    lemma_settled_is_held(store, v, whole(store));
    if settled(store, v, whole(store)) is Ok {
        let w = settled(store, v, whole(store))->Ok_0;
        if converted(store, types, t, w) is Ok {
            lemma_converted_is_plain(store, types, t, w);
        }
    }
}

} // verus!
