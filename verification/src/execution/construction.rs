//! The making of values of a datatype.

use vstd::prelude::*;
use crate::symbols::datatype::RootDataType;
use crate::symbols::metadata::{MetaDataType, MetaDataTypeName, MetaStructureMember};
use crate::symbols::SymbolTable;
use super::functions::lemma_extends_twice;
use super::value::coercion::{coerced, fit};
use super::value::conversion::{atom_to_bool, atom_to_char, atom_to_double, atom_to_int, atom_to_real};
use super::value::copy::{copies, copy, lemma_copies_kept, lemma_copies_of_alike, lemma_extends_keeps, lemma_value_kept, DEPTH};
use super::value::display::{piece_models, say, text, Piece, PieceModel};
use super::value::format::{count_string, int_text, wide_string};
use super::value::sequence::SequenceInstance;
use super::value::structure::{StructureInstance, StructureInstanceMember};
use super::value::{Store, Value};

verus! {

/// The message for a datatype that makes no values.
pub open spec fn not_a_constructor_message(name: Seq<char>) -> Seq<char> {
    name + " is not a constructor"@
}

/// The message for a number, truth value or character that is not made from one value.
pub open spec fn one_argument_message(name: Seq<char>) -> Seq<char> {
    name + "() takes 1 argument"@
}

/// The message for a sequence with bounds that is not made from as many values as the bounds say.
pub open spec fn elements_message(name: Seq<char>, wanted: int) -> Seq<char> {
    name + " requires "@ + int_text(wanted) + " elements"@
}

/// The message for a structure that is not made from one value for each field.
pub open spec fn members_message(name: Seq<char>, wanted: int, given: int) -> Seq<char> {
    name + " has "@ + int_text(wanted) + " members, but only "@ + int_text(given) + " values were provided"@
}

/// The message for a datatype of a cell or field that there is no more.
pub open spec fn no_longer_message(name: Seq<char>) -> Seq<char> {
    "Datatype "@ + name + " is no longer defined"@
}

/// The datatypes that the values of a sequence or structure are made
/// to fit, one for each value, or why there are none: a sequence with
/// an upper bound takes as many values as its bounds say, a structure
/// one for each field, and each datatype must be one there is.
pub open spec fn wanted(types: &SymbolTable<MetaDataType>, t: MetaDataType, count: int) -> Result<
    Seq<Seq<char>>,
    Seq<char>,
> {
    match t.root() {
        RootDataType::Sequence(d) => if d.upper_index_bound is Some && count != d.upper_index_bound->0
            - d.lower_index_bound + 1 {
            Err(elements_message(t.name(), d.upper_index_bound->0 - d.lower_index_bound + 1))
        } else if !types.has(d.member_type@) {
            Err(no_longer_message(d.member_type@))
        } else {
            Ok(Seq::new(count as nat, |i: int| d.member_type@))
        },
        RootDataType::Structure(d) => if d.members@.len() != count {
            Err(members_message(t.name(), d.members@.len() as int, count))
        } else {
            match first_missing(types, d.members@, 0) {
                Some(i) => Err(no_longer_message(d.members@[i].name@)),
                None => Ok(Seq::new(count as nat, |i: int| d.members@[i].data_type@)),
            }
        },
        _ => Err(not_a_constructor_message(t.name())),
    }
}

/// The first of the fields from index `i` on whose datatype there is not.
pub open spec fn first_missing(types: &SymbolTable<MetaDataType>, members: Seq<MetaStructureMember>, i: int) -> Option<
    int,
>
    decreases members.len() - i,
{
    if i < 0 || i >= members.len() {
        None
    } else if !types.has(members[i].data_type@) {
        Some(i)
    } else {
        first_missing(types, members, i + 1)
    }
}

/// The first of the values from index `i` on that does not fit its datatype, with what is said of it.
pub open spec fn first_unfit(
    store: &Store,
    types: &SymbolTable<MetaDataType>,
    datatypes: Seq<Seq<char>>,
    args: Seq<Value>,
    i: int,
) -> Option<Seq<PieceModel>>
    decreases args.len() - i,
{
    if i < 0 || i >= args.len() {
        None
    } else {
        match coerced(store, types, types.item(datatypes[i]).root(), args[i]) {
            Err(e) => Some(e),
            Ok(_) => first_unfit(store, types, datatypes, args, i + 1),
        }
    }
}

/// Whether a datatype is one of numbers, truth values or characters.
pub open spec fn is_atomic(t: RootDataType) -> bool {
    t is Int || t is Real || t is Dbl || t is Bool || t is Char
}

/// The number, truth value or character that a value is converted to.
pub open spec fn atomic(store: &Store, t: RootDataType, v: Value) -> Result<Value, Seq<char>> {
    match t {
        RootDataType::Int => match atom_to_int(store.atom(v)) {
            Ok(x) => Ok(Value::Int(x)),
            Err(e) => Err(e),
        },
        RootDataType::Real => match atom_to_real(store.atom(v)) {
            Ok(x) => Ok(Value::Real(x)),
            Err(e) => Err(e),
        },
        RootDataType::Dbl => match atom_to_double(store.atom(v)) {
            Ok(x) => Ok(Value::Double(x)),
            Err(e) => Err(e),
        },
        RootDataType::Bool => match atom_to_bool(store.atom(v)) {
            Ok(x) => Ok(Value::Bool(x)),
            Err(e) => Err(e),
        },
        _ => match atom_to_char(store.atom(v)) {
            Ok(x) => Ok(Value::Char(x)),
            Err(e) => Err(e),
        },
    }
}

/// Whether a value is the sequence or structure of a datatype made of
/// cells of its own, since the store had `from` cells, that hold copies
/// of values made to fit the datatypes.
pub open spec fn made(
    before: &Store,
    after: &Store,
    types: &SymbolTable<MetaDataType>,
    t: MetaDataType,
    datatypes: Seq<Seq<char>>,
    args: Seq<Value>,
    r: Value,
) -> bool {
    &&& r.cells().len() == args.len()
    &&& forall|i: int|
        0 <= i < args.len() ==> before.cells().len() <= (#[trigger] r.cells()[i]) < after.cells().len() && copies(
            before,
            after,
            before.cells().len() as nat,
            coerced(before, types, types.item(datatypes[i]).root(), args[i])->Ok_0,
            after.value_at(r.cells()[i]),
            DEPTH as nat,
        )
    &&& match t.root() {
        RootDataType::Sequence(d) => r matches Value::Sequence(s) && s.wf() && s.datatype() == t.name() && s.lower()
            == d.lower_index_bound && s.upper() == d.upper_index_bound,
        RootDataType::Structure(d) => r matches Value::Structure(s) && s.datatype() == t.name() && s.members().len()
            == d.members@.len() && forall|i: int|
            0 <= i < d.members@.len() ==> (#[trigger] s.members()[i]).name@ == d.members@[i].name@
                && s.members()[i].datatype@ == types.item(d.members@[i].data_type@).name(),
        _ => false,
    }
}

fn atomic_value(store: &Store, t: &RootDataType, v: &Value) -> (r: Result<Value, String>)
    requires
        store.wf(),
        store.holds(*v),
        is_atomic(*t),
    ensures
        match (r, atomic(store, *t, *v)) {
            (Ok(a), Ok(b)) => a == b,
            (Err(e), Err(m)) => e@ == m,
            _ => false,
        },
{
    match t {
        RootDataType::Int => match v.as_i32(store) {
            Ok(x) => Ok(Value::Int(x)),
            Err(e) => Err(e),
        },
        RootDataType::Real => match v.as_real(store) {
            Ok(x) => Ok(Value::Real(x)),
            Err(e) => Err(e),
        },
        RootDataType::Dbl => match v.as_double(store) {
            Ok(x) => Ok(Value::Double(x)),
            Err(e) => Err(e),
        },
        RootDataType::Bool => match v.as_bool(store) {
            Ok(x) => Ok(Value::Bool(x)),
            Err(e) => Err(e),
        },
        _ => match v.as_char(store) {
            Ok(x) => Ok(Value::Char(x)),
            Err(e) => Err(e),
        },
    }
}

/// The datatypes that the values are made to fit.
#[verifier::loop_isolation(false)]
fn wanted_datatypes(types: &SymbolTable<MetaDataType>, t: &MetaDataType, count: usize) -> (r: Result<
    Vec<MetaDataTypeName>,
    String,
>)
    requires
        types.wf(),
    ensures
        match (r, wanted(types, *t, count as int)) {
            (Ok(list), Ok(want)) => list@.len() == want.len() && forall|i: int|
                0 <= i < want.len() ==> (#[trigger] list@[i])@ == want[i] && types.has(want[i]),
            (Err(e), Err(m)) => e@ == m,
            _ => false,
        },
{
    match t.root_data_type() {
        RootDataType::Sequence(d) => {
            if let Some(u) = d.upper_index_bound {
                let size: i64 = u as i64 - d.lower_index_bound as i64 + 1;
                if size < 0 || count as u64 != size as u64 {
                    let mut m = t.as_string();
                    m.append(" requires ");
                    m.append(wide_string(size).as_str());
                    m.append(" elements");
                    return Err(m);
                }
            }
            if types.try_get(d.member_type.as_str()).is_none() {
                let mut m = String::from_str("Datatype ");
                m.append(d.member_type.as_str());
                m.append(" is no longer defined");
                return Err(m);
            }
            let mut list: Vec<MetaDataTypeName> = Vec::new();
            let mut i: usize = 0;
            while i < count
                invariant
                    i <= count,
                    list@.len() == i,
                    forall|k: int| 0 <= k < i ==> (#[trigger] list@[k])@ == d.member_type@,
                decreases count - i,
            {
                list.push(d.member_type.clone());
                i += 1;
            }
            proof {
                let want = wanted(types, *t, count as int);
                assert(want is Ok);
                assert(want->Ok_0.len() == count);
                assert forall|k: int| 0 <= k < want->Ok_0.len() implies (#[trigger] list@[k])@ == want->Ok_0[k]
                    && types.has(want->Ok_0[k]) by {
                    assert(want->Ok_0[k] == d.member_type@);
                }
            }
            return Ok(list);
        },
        RootDataType::Structure(d) => {
            if d.members.len() != count {
                let mut m = t.as_string();
                m.append(" has ");
                m.append(count_string(d.members.len()).as_str());
                m.append(" members, but only ");
                m.append(count_string(count).as_str());
                m.append(" values were provided");
                return Err(m);
            }
            let mut list: Vec<MetaDataTypeName> = Vec::new();
            let mut i: usize = 0;
            while i < d.members.len()
                invariant
                    i <= d.members.len(),
                    types.wf(),
                    list@.len() == i,
                    first_missing(types, d.members@, i as int) == first_missing(types, d.members@, 0),
                    forall|k: int|
                        0 <= k < i ==> (#[trigger] list@[k])@ == d.members@[k].data_type@ && types.has(
                            d.members@[k].data_type@,
                        ),
                decreases d.members.len() - i,
            {
                if types.try_get(d.members[i].data_type.as_str()).is_none() {
                    let mut m = String::from_str("Datatype ");
                    m.append(d.members[i].name.as_str());
                    m.append(" is no longer defined");
                    return Err(m);
                }
                list.push(d.members[i].data_type.clone());
                i += 1;
            }
            proof {
                assert(first_missing(types, d.members@, 0) is None);
                let want = wanted(types, *t, count as int);
                assert(want is Ok);
                assert(want->Ok_0.len() == count);
                assert forall|k: int| 0 <= k < want->Ok_0.len() implies (#[trigger] list@[k])@ == want->Ok_0[k]
                    && types.has(want->Ok_0[k]) by {
                    assert(want->Ok_0[k] == d.members@[k].data_type@);
                    assert(i == d.members@.len());
                    assert(list@[k]@ == d.members@[k].data_type@);
                    assert(types.has(d.members@[k].data_type@));
                }
            }
            return Ok(list);
        },
        _ => {
            let mut m = t.as_string();
            m.append(" is not a constructor");
            return Err(m);
        },
    }
}

/// Whether a value is what another becomes for the datatype of a name, before it is copied.
pub open spec fn fitted(store: &Store, types: &SymbolTable<MetaDataType>, datatype: Seq<char>, v: Value, w: Value) -> bool {
    &&& store.holds(w)
    &&& Store::referent(w) is None
    &&& coerced(store, types, types.item(datatype).root(), v) matches Ok(want)
    &&& w.alike(want)
}

/// Makes the values fit their datatypes, without copying them.
fn fit_all(store: &Store, types: &SymbolTable<MetaDataType>, datatypes: &Vec<MetaDataTypeName>, args: &Vec<Value>) -> (r:
    Result<Vec<Value>, Vec<Piece>>)
    requires
        store.wf(),
        types.wf(),
        datatypes@.len() == args@.len(),
        forall|i: int| 0 <= i < args@.len() ==> types.has((#[trigger] datatypes@[i])@),
        forall|i: int| 0 <= i < args@.len() ==> store.holds(#[trigger] args@[i]),
    ensures
        match (r, first_unfit(store, types, Seq::new(datatypes@.len(), |i: int| datatypes@[i]@), args@, 0)) {
            (Ok(list), None) => list@.len() == args@.len() && forall|i: int|
                0 <= i < args@.len() ==> fitted(store, types, datatypes@[i]@, args@[i], #[trigger] list@[i]),
            (Err(e), Some(m)) => piece_models(e@) == m,
            _ => false,
        },
{
    let ghost names = Seq::new(datatypes@.len(), |i: int| datatypes@[i]@);
    let mut list: Vec<Value> = Vec::new();
    let mut i: usize = 0;
    while i < args.len()
        invariant
            i <= args.len(),
            store.wf(),
            types.wf(),
            datatypes@.len() == args@.len(),
            names == Seq::new(datatypes@.len(), |k: int| datatypes@[k]@),
            forall|k: int| 0 <= k < args@.len() ==> types.has((#[trigger] datatypes@[k])@),
            forall|k: int| 0 <= k < args@.len() ==> store.holds(#[trigger] args@[k]),
            list@.len() == i,
            first_unfit(store, types, names, args@, i as int) == first_unfit(store, types, names, args@, 0),
            forall|k: int|
                0 <= k < i ==> fitted(store, types, datatypes@[k]@, args@[k], #[trigger] list@[k]),
        decreases args.len() - i,
    {
        let t = types.try_get(datatypes[i].as_str()).unwrap();
        assert(names[i as int] == datatypes@[i as int]@);
        match fit(t.root_data_type(), &args[i], store, types) {
            Ok(w) => {
                list.push(w);
            },
            Err(e) => {
                return Err(e);
            },
        }
        i += 1;
    }
    Ok(list)
}

/// Makes a cell for a copy of each value of a list.
pub fn keep_all(store: &mut Store, values: &Vec<Value>) -> (cells: Vec<usize>)
    requires
        old(store).wf(),
        forall|i: int| 0 <= i < values@.len() ==> old(store).holds(#[trigger] values@[i]),
    ensures
        final(store).wf(),
        final(store).extends(old(store)),
        final(store).pass() == old(store).pass(),
        cells@.len() == values@.len(),
        forall|i: int|
            0 <= i < values@.len() ==> old(store).cells().len() <= (#[trigger] cells@[i]) < final(store).cells().len()
                && copies(
                old(store),
                final(store),
                old(store).cells().len() as nat,
                values@[i],
                final(store).value_at(cells@[i]),
                DEPTH as nat,
            ),
{
    let ghost from = old(store).cells().len() as nat;
    let mut cells: Vec<usize> = Vec::new();
    let mut i: usize = 0;
    while i < values.len()
        invariant
            i <= values.len(),
            cells@.len() == i,
            old(store).wf(),
            store.wf(),
            store.extends(old(store)),
            store.pass() == old(store).pass(),
            from == old(store).cells().len(),
            forall|k: int| 0 <= k < values@.len() ==> old(store).holds(#[trigger] values@[k]),
            forall|k: int|
                0 <= k < i ==> from <= (#[trigger] cells@[k]) < store.cells().len() && copies(
                    old(store),
                    store,
                    from,
                    values@[k],
                    store.value_at(cells@[k]),
                    DEPTH as nat,
                ),
        decreases values.len() - i,
    {
        let ghost before = *store;
        let ghost sofar = cells@;
        let copied = copy(store, &values[i]);
        let ghost middle = *store;
        let c = store.new_cell(copied);
        cells.push(c);
        proof {
            lemma_extends_twice(&before, &middle, store);
            lemma_extends_twice(old(store), &before, store);
            lemma_extends_keeps(store, &before, old(store).envelopes().len() as nat);
            lemma_extends_keeps(store, &middle, old(store).envelopes().len() as nat);
            assert forall|k: int| 0 <= k < i + 1 implies from <= (#[trigger] cells@[k]) < store.cells().len()
                && copies(old(store), store, from, values@[k], store.value_at(cells@[k]), DEPTH as nat) by {
                if k < i {
                    assert(cells@[k] == sofar[k]);
                    lemma_value_kept(&before, store, sofar[k]);
                    lemma_copies_kept(
                        old(store),
                        old(store),
                        &before,
                        store,
                        from,
                        from,
                        values@[k],
                        before.value_at(sofar[k]),
                        DEPTH as nat,
                    );
                } else {
                    lemma_copies_kept(
                        &before,
                        old(store),
                        &middle,
                        store,
                        before.cells().len() as nat,
                        from,
                        values@[k],
                        copied,
                        DEPTH as nat,
                    );
                }
            }
        }
        i += 1;
    }
    cells
}

/// Makes a value of a datatype from values. A number, a truth value or
/// a character is made from one value, by conversion. A sequence is
/// made from a value for each cell, and a structure from a value for
/// each field; each value is made to fit the datatype of its cell or
/// field and copied into a cell of its own. Where nothing is made, the
/// store is left as it was.
#[verifier::loop_isolation(false)]
pub fn construct(t: &MetaDataType, args: &Vec<Value>, store: &mut Store, types: &SymbolTable<MetaDataType>) -> (r:
    Result<Value, Vec<Piece>>)
    requires
        old(store).wf(),
        types.wf(),
        forall|i: int| 0 <= i < args@.len() ==> old(store).holds(#[trigger] args@[i]),
    ensures
        final(store).wf(),
        final(store).extends(old(store)),
        r matches Ok(v) ==> final(store).holds(v),
        r is Err ==> *final(store) == *old(store),
        if is_atomic(t.root()) {
            if args@.len() != 1 {
                r matches Err(e) && piece_models(e@) == text(one_argument_message(t.name()))
            } else {
                match (r, atomic(old(store), t.root(), args@[0])) {
                    (Ok(a), Ok(b)) => a == b && *final(store) == *old(store),
                    (Err(e), Err(m)) => piece_models(e@) == text(m),
                    _ => false,
                }
            }
        } else {
            match wanted(types, *t, args@.len() as int) {
                Err(m) => r matches Err(e) && piece_models(e@) == text(m),
                Ok(datatypes) => match first_unfit(old(store), types, datatypes, args@, 0) {
                    Some(m) => r matches Err(e) && piece_models(e@) == m,
                    None => r matches Ok(v) && made(old(store), final(store), types, *t, datatypes, args@, v),
                },
            }
        },
{
    match t.root_data_type() {
        RootDataType::Int | RootDataType::Real | RootDataType::Dbl | RootDataType::Bool | RootDataType::Char => {
            if args.len() != 1 {
                let mut m = t.as_string();
                m.append("() takes 1 argument");
                return Err(say(m));
            }
            return match atomic_value(store, t.root_data_type(), &args[0]) {
                Ok(v) => Ok(v),
                Err(e) => Err(say(e)),
            };
        },
        _ => {},
    }
    let datatypes = match wanted_datatypes(types, t, args.len()) {
        Ok(list) => list,
        Err(e) => {
            return Err(say(e));
        },
    };
    let ghost names = wanted(types, *t, args@.len() as int)->Ok_0;
    assert(Seq::new(datatypes@.len(), |i: int| datatypes@[i]@) =~= names);
    let plain = match fit_all(store, types, &datatypes, args) {
        Ok(list) => list,
        Err(e) => {
            return Err(e);
        },
    };
    let cells = keep_all(store, &plain);
    proof {
        assert forall|i: int| 0 <= i < args@.len() implies copies(
            old(store),
            store,
            old(store).cells().len() as nat,
            coerced(old(store), types, types.item(names[i]).root(), args@[i])->Ok_0,
            store.value_at(#[trigger] cells@[i]),
            DEPTH as nat,
        ) by {
            assert(names[i] == datatypes@[i]@);
            assert(fitted(old(store), types, datatypes@[i]@, args@[i], plain@[i]));
            lemma_copies_of_alike(
                old(store),
                store,
                old(store).cells().len() as nat,
                plain@[i],
                coerced(old(store), types, types.item(names[i]).root(), args@[i])->Ok_0,
                store.value_at(cells@[i]),
                DEPTH as nat,
            );
        }
    }
    match t.root_data_type() {
        RootDataType::Sequence(d) => {
            match SequenceInstance::bounded(t.as_name(), d.lower_index_bound, d.upper_index_bound, cells) {
                Some(s) => {
                    let v = Value::Sequence(s);
                    assert(v.cells() =~= cells@);
                    Ok(v)
                },
                None => {
                    proof {
                        assert(false);
                    }
                    Err(say(String::from_str("")))
                },
            }
        },
        RootDataType::Structure(d) => {
            let mut members: Vec<StructureInstanceMember> = Vec::new();
            let mut i: usize = 0;
            while i < d.members.len()
                invariant
                    i <= d.members.len(),
                    types.wf(),
                    members@.len() == i,
                    forall|k: int|
                        0 <= k < i ==> (#[trigger] members@[k]).name@ == d.members@[k].name@ && members@[k].datatype@
                            == types.item(d.members@[k].data_type@).name() && members@[k].cell == cells@[k],
                decreases d.members.len() - i,
            {
                assert(names[i as int] == d.members@[i as int].data_type@);
                assert(datatypes@[i as int]@ == names[i as int]);
                let found = types.try_get(d.members[i].data_type.as_str()).unwrap();
                members.push(
                    StructureInstanceMember {
                        name: d.members[i].name.clone(),
                        datatype: found.as_name(),
                        cell: cells[i],
                    },
                );
                i += 1;
            }
            let v = Value::Structure(StructureInstance::from_string(&t.as_string(), members));
            assert(v.cells() =~= cells@);
            Ok(v)
        },
        _ => {
            proof {
                assert(false);
            }
            Err(say(String::from_str("")))
        },
    }
}

/// What a sequence of a datatype is made of when it is made of a
/// number of copies of one value: the value as it fits the datatype of
/// the cells, or why none is made. The datatype must be one of a
/// sequence; one with an upper bound takes as many cells as its bounds
/// say; and the datatype of its cells must be one there is.
pub open spec fn filling(store: &Store, types: &SymbolTable<MetaDataType>, t: MetaDataType, count: i32, value: Value) -> Result<
    Value,
    Seq<PieceModel>,
> {
    match t.root() {
        RootDataType::Sequence(d) => if d.upper_index_bound is Some && many(count) != d.upper_index_bound->0
            - d.lower_index_bound + 1 {
            Err(text(elements_message(t.name(), d.upper_index_bound->0 - d.lower_index_bound + 1)))
        } else if !types.has(d.member_type@) {
            Err(text(d.member_type@ + " not found"@))
        } else {
            coerced(store, types, types.item(d.member_type@).root(), value)
        },
        _ => Err(text(t.name() + " is not a sequence"@)),
    }
}

/// A count of cells: nothing for a negative number.
pub open spec fn many(count: i32) -> int {
    if count < 0 {
        0
    } else {
        count as int
    }
}

/// Makes a sequence of a datatype of a number of cells, each with a
/// copy of one value, which is made to fit the datatype of the cells.
/// Where nothing is made, the store is left as it was.
#[verifier::loop_isolation(false)]
pub fn make(t: &MetaDataType, count: i32, value: &Value, store: &mut Store, types: &SymbolTable<MetaDataType>) -> (r:
    Result<Value, Vec<Piece>>)
    requires
        old(store).wf(),
        types.wf(),
        old(store).holds(*value),
    ensures
        final(store).wf(),
        final(store).extends(old(store)),
        match (r, filling(old(store), types, *t, count, *value)) {
            (Ok(v), Ok(w)) => {
                &&& final(store).holds(v)
                &&& t.root() matches RootDataType::Sequence(d)
                &&& v matches Value::Sequence(s)
                &&& s.wf()
                &&& s.datatype() == d.name@
                &&& s.lower() == d.lower_index_bound
                &&& s.upper() == d.upper_index_bound
                &&& s.cells().len() == many(count)
                &&& forall|i: int|
                    0 <= i < s.cells().len() ==> old(store).cells().len() <= (#[trigger] s.cells()[i]) < final(store).cells().len() && copies(
                        old(store),
                        final(store),
                        old(store).cells().len() as nat,
                        w,
                        final(store).value_at(s.cells()[i]),
                        DEPTH as nat,
                    )
            },
            (Err(e), Err(m)) => piece_models(e@) == m && *final(store) == *old(store),
            _ => false,
        },
{
    let d = match t.root_data_type() {
        RootDataType::Sequence(d) => d,
        _ => {
            let mut m = t.as_string();
            m.append(" is not a sequence");
            return Err(say(m));
        },
    };
    let wanted: usize = if count < 0 {
        0
    } else {
        count as usize
    };
    if let Some(u) = d.upper_index_bound {
        let size: i64 = u as i64 - d.lower_index_bound as i64 + 1;
        if size < 0 || wanted as u64 != size as u64 {
            let mut m = t.as_string();
            m.append(" requires ");
            m.append(wide_string(size).as_str());
            m.append(" elements");
            return Err(say(m));
        }
    }
    let member = match types.try_get(d.member_type.as_str()) {
        Some(member) => member,
        None => {
            let mut m = d.member_type.as_string();
            m.append(" not found");
            return Err(say(m));
        },
    };
    let fitted = match fit(member.root_data_type(), value, store, types) {
        Ok(w) => w,
        Err(e) => {
            return Err(e);
        },
    };
    let ghost w = filling(old(store), types, *t, count, *value)->Ok_0;
    let mut values: Vec<Value> = Vec::new();
    let mut i: usize = 0;
    while i < wanted
        invariant
            i <= wanted,
            values@.len() == i,
            forall|k: int| 0 <= k < i ==> (#[trigger] values@[k]).alike(fitted) && store.holds(values@[k]),
        decreases wanted - i,
    {
        let v = fitted.duplicate();
        proof {
            crate::execution::value::lemma_alike_cells(v, fitted);
        }
        values.push(v);
        i += 1;
    }
    let cells = keep_all(store, &values);
    proof {
        assert forall|k: int| 0 <= k < cells@.len() implies copies(
            old(store),
            store,
            old(store).cells().len() as nat,
            w,
            store.value_at(#[trigger] cells@[k]),
            DEPTH as nat,
        ) by {
            assert(values@[k].alike(fitted));
            lemma_copies_of_alike(
                old(store),
                store,
                old(store).cells().len() as nat,
                values@[k],
                fitted,
                store.value_at(cells@[k]),
                DEPTH as nat,
            );
            lemma_copies_of_alike(
                old(store),
                store,
                old(store).cells().len() as nat,
                fitted,
                w,
                store.value_at(cells@[k]),
                DEPTH as nat,
            );
        }
    }
    match SequenceInstance::bounded(
        MetaDataTypeName::from_string(&d.name.as_string()),
        d.lower_index_bound,
        d.upper_index_bound,
        cells,
    ) {
        Some(s) => {
            let v = Value::Sequence(s);
            assert(v.cells() =~= cells@);
            assert forall|k: int| 0 <= k < v.cells().len() implies (#[trigger] v.cells()[k]) < store.cells().len() by {
                assert(v.cells()[k] == cells@[k]);
            }
            Ok(v)
        },
        None => {
            proof {
                assert(false);
            }
            Err(say(String::new()))
        },
    }
}

} // verus!
