//! Selection: a cell of a sequence by its index, and a field of a
//! structure by its selector.

use vstd::prelude::*;
use crate::symbols::datatype::{not_a_sequence_message, RootDataType};
use crate::symbols::metadata::{MetaDataType, MetaDataTypeName, SelectorDescription};
use crate::symbols::SymbolTable;
use crate::workspace::WorkSpace;
use super::value::coercion::not_found_message;
use super::value::conversion::atom_to_int;
use super::value::copy::{copies, DEPTH};
use super::value::display::{piece_models, say, shown, text, whole, Piece, PieceModel};
use super::value::sequence::{out_of_bounds_message, SequenceInstance};
use super::value::structure::{first_named, lemma_listed_alike, listed, SelectorInstance, StructureInstance};
use super::value::sequence::spells;
use super::value::{lemma_alike_cells, names_alike, CellReference, GeneralSymbol, Store, SymbolicReference, Value};
use super::value::copy::lemma_copies_of_alike;
use crate::symbols::name::Name;

verus! {

/// The message for a structure without the field that is asked for.
pub open spec fn no_field_message(structure: Seq<char>, field: Seq<char>) -> Seq<char> {
    structure + " does not have a field "@ + field
}

/// The cell of a sequence with an index, and the datatype that the
/// datatype of the sequence gives its cells. The index is converted to
/// an integer and must be within the bounds.
pub open spec fn in_sequence(store: &Store, types: &SymbolTable<MetaDataType>, s: SequenceInstance, index: Value) -> Result<
    (Seq<char>, usize),
    Seq<PieceModel>,
> {
    match atom_to_int(store.atom(index)) {
        Err(e) => Err(text(e)),
        Ok(i) => if !(s.lower() <= i < s.lower() + s.cells().len()) {
            Err(text(out_of_bounds_message(i)))
        } else if !types.has(s.datatype()) {
            Err(text(not_found_message(s.datatype())))
        } else {
            match types.item(s.datatype()).root() {
                RootDataType::Sequence(d) => Ok((d.member_type@, s.cells()[i - s.lower()])),
                _ => Err(text(not_a_sequence_message(s.datatype()))),
            }
        },
    }
}

/// The cell of the field of a structure that a selector selects, and
/// the datatype of the field.
pub open spec fn in_structure(store: &Store, s: StructureInstance, index: Value) -> Result<
    (Seq<char>, usize),
    Seq<PieceModel>,
> {
    match index {
        Value::Selector(selector) => match s.selected(&selector) {
            Some(i) => Ok((s.members()[i].datatype@, s.members()[i].cell)),
            None => Err(text(no_field_message(s.datatype(), selector.member@))),
        },
        _ => Err(shown(store, index, Seq::empty(), whole(store)) + text(" is not a field selector"@)),
    }
}

/// What is said of a value that has no cells to select from.
pub open spec fn not_indexable(store: &Store, base: Value) -> Seq<PieceModel> {
    shown(store, base, Seq::empty(), whole(store)) + text(" is not indexable"@)
}

/// The cell that an index selects from a value, and the datatype that
/// the cell is declared to hold. A sequence is indexed by a number, a
/// structure by a selector; the name of a variable stands for the
/// sequence or structure that the variable holds, a reference to a cell
/// for what the cell holds, and a link for what it links to. At most
/// `fuel` links are followed.
pub open spec fn indexed(store: &Store, types: &SymbolTable<MetaDataType>, base: Value, index: Value, fuel: nat) -> Result<
    (Seq<char>, usize),
    Seq<PieceModel>,
>
    decreases fuel, store.reach(base),
{
    match base {
        Value::Sequence(s) => in_sequence(store, types, s, index),
        Value::Structure(s) => in_structure(store, s, index),
        Value::Symbol(symbol) => match symbol.resolution {
            GeneralSymbol::Variable(d) => if store.wf() && d.cell < store.cells().len() {
                match store.value_at(d.cell) {
                    Value::Sequence(s) => in_sequence(store, types, s, index),
                    Value::Structure(s) => in_structure(store, s, index),
                    _ => Err(not_indexable(store, base)),
                }
            } else {
                Err(not_indexable(store, base))
            },
            GeneralSymbol::Unresolved(u) => Err(text(not_found_message(u@))),
            _ => Err(not_indexable(store, base)),
        },
        Value::ValueByReference(r) => if store.wf() && r.cell < store.cells().len() {
            indexed(store, types, store.value_at(r.cell), index, fuel)
        } else {
            Err(not_indexable(store, base))
        },
        Value::LogicalLink(e) => if fuel > 0 && store.wf() && e < store.envelopes().len() {
            indexed(store, types, store.envelopes()[e as int].value, index, (fuel - 1) as nat)
        } else {
            Err(not_indexable(store, base))
        },
        _ => Err(not_indexable(store, base)),
    }
}

/// Whether a reference is the one to a cell with a datatype.
pub open spec fn refers(r: Result<Value, Vec<Piece>>, want: Result<(Seq<char>, usize), Seq<PieceModel>>) -> bool {
    match (r, want) {
        (Ok(v), Ok(w)) => v matches Value::ValueByReference(c) && c.datatype@ == w.0 && c.cell == w.1,
        (Err(e), Err(w)) => piece_models(e@) == w,
        _ => false,
    }
}

fn with_tail(name: &str, tail: &str) -> (r: String)
    ensures
        r@ == name@ + tail@,
{
    let mut m = String::from_str(name);
    m.append(tail);
    m
}

fn select_in_sequence(store: &Store, types: &SymbolTable<MetaDataType>, s: &SequenceInstance, index: &Value) -> (r:
    Result<Value, Vec<Piece>>)
    requires
        store.wf(),
        types.wf(),
        store.holds(*index),
        forall|i: int| 0 <= i < s.cells().len() ==> (#[trigger] s.cells()[i]) < store.cells().len(),
    ensures
        refers(r, in_sequence(store, types, *s, *index)),
        r matches Ok(v) ==> store.holds(v),
{
    let i = match index.as_i32(store) {
        Ok(i) => i,
        Err(e) => {
            return Err(say(e));
        },
    };
    let at = match s.check_and_normalize_index(i) {
        Ok(at) => at,
        Err(e) => {
            return Err(say(e));
        },
    };
    let name = s.as_string();
    match types.try_get(name.as_str()) {
        Some(t) => match t.root_data_type() {
            RootDataType::Sequence(d) => {
                let v = Value::ValueByReference(
                    CellReference { datatype: d.member_type.clone(), cell: s.as_values()[at] },
                );
                assert(v.cells() =~= seq![s.cells()[at as int]]);
                Ok(v)
            },
            _ => Err(say(with_tail(name.as_str(), " is not a sequence"))),
        },
        None => Err(say(with_tail(name.as_str(), " not found"))),
    }
}

fn select_in_structure(store: &Store, s: &StructureInstance, index: &Value) -> (r: Result<Value, Vec<Piece>>)
    requires
        store.wf(),
        store.holds(*index),
        forall|i: int| 0 <= i < s.cells().len() ==> (#[trigger] s.cells()[i]) < store.cells().len(),
    ensures
        refers(r, in_structure(store, *s, *index)),
        r matches Ok(v) ==> store.holds(v),
{
    match index {
        Value::Selector(selector) => match s.find_field(selector) {
            Some(i) => {
                let member = &s.as_values()[i];
                let v = Value::ValueByReference(CellReference { datatype: member.datatype.clone(), cell: member.cell });
                assert(s.cells()[i as int] == member.cell);
                assert(v.cells() =~= seq![member.cell]);
                Ok(v)
            },
            None => {
                let mut m = s.as_string();
                m.append(" does not have a field ");
                m.append(selector.member.as_str());
                Err(say(m))
            },
        },
        _ => {
            Err(say_about_value(store, index, " is not a field selector"))
        },
    }
}

/// What shows a value, and a text behind it.
fn say_about_value(store: &Store, v: &Value, tail: &str) -> (out: Vec<Piece>)
    requires
        store.wf(),
        store.holds(*v),
    ensures
        piece_models(out@) == shown(store, *v, Seq::empty(), whole(store)) + text(tail@),
{
    let mut out = super::value::display::display(store, v);
    let ghost before = piece_models(out@);
    out.push(Piece::Text(String::from_str(tail)));
    assert(piece_models(out@) =~= before + text(tail@));
    out
}

/// Selects a cell from a value: the reference to the cell that the
/// index selects.
pub fn select_cell(store: &Store, types: &SymbolTable<MetaDataType>, base: &Value, index: &Value, fuel: usize) -> (r:
    Result<Value, Vec<Piece>>)
    requires
        store.wf(),
        types.wf(),
        store.holds(*base),
        store.holds(*index),
    ensures
        refers(r, indexed(store, types, *base, *index, fuel as nat)),
        r matches Ok(v) ==> store.holds(v),
    decreases fuel, store.reach(*base),
{
    match base {
        Value::Sequence(s) => {
            assert forall|i: int| 0 <= i < s.cells().len() implies (#[trigger] s.cells()[i]) < store.cells().len() by {
                assert(base.cells()[i] == s.cells()[i]);
            }
            select_in_sequence(store, types, s, index)
        },
        Value::Structure(s) => {
            assert forall|i: int| 0 <= i < s.cells().len() implies (#[trigger] s.cells()[i]) < store.cells().len() by {
                assert(base.cells()[i] == s.cells()[i]);
            }
            select_in_structure(store, s, index)
        },
        Value::Symbol(symbol) => match &symbol.resolution {
            GeneralSymbol::Variable(d) => {
                assert(base.cells()[0] == d.cell);
                let held = store.get(d.cell);
                match held {
                    Value::Sequence(s) => {
                        assert forall|i: int| 0 <= i < s.cells().len() implies (#[trigger] s.cells()[i])
                            < store.cells().len() by {
                            assert(held.cells()[i] == s.cells()[i]);
                        }
                        select_in_sequence(store, types, s, index)
                    },
                    Value::Structure(s) => {
                        assert forall|i: int| 0 <= i < s.cells().len() implies (#[trigger] s.cells()[i])
                            < store.cells().len() by {
                            assert(held.cells()[i] == s.cells()[i]);
                        }
                        select_in_structure(store, s, index)
                    },
                    _ => Err(say_about_value(store, base, " is not indexable")),
                }
            },
            GeneralSymbol::Unresolved(u) => Err(say(with_tail(u.as_str(), " not found"))),
            _ => Err(say_about_value(store, base, " is not indexable")),
        },
        Value::ValueByReference(r) => {
            assert(base.cells()[0] == r.cell);
            select_cell(store, types, store.get(r.cell), index, fuel)
        },
        Value::LogicalLink(e) => {
            if fuel > 0 {
                select_cell(store, types, store.get_envelope(*e), index, fuel - 1)
            } else {
                Err(say_about_value(store, base, " is not indexable"))
            }
        },
        _ => Err(say_about_value(store, base, " is not indexable")),
    }
}

/// How many links a selection follows in a store.
fn links_of(store: &Store) -> (r: usize)
    ensures
        r == whole(store),
{
    let n = store.envelope_count();
    if n < usize::MAX {
        n + 1
    } else {
        usize::MAX
    }
}

/// Selects a cell from a value and pushes the reference to it onto the
/// stack. Where nothing is selected, the workspace is left as it was.
pub fn execute_selection_by_reference_internal(base_value: &Value, index: &Value, workspace: &mut WorkSpace) -> (r:
    Result<(), Vec<Piece>>)
    requires
        old(workspace).wf(),
        old(workspace).store().holds(*base_value),
        old(workspace).store().holds(*index),
    ensures
        final(workspace).wf(),
        final(workspace).same_but_values(old(workspace)),
        match (
            r,
            indexed(
                &old(workspace).store(),
                &old(workspace).datatypes(),
                *base_value,
                *index,
                whole(&old(workspace).store()),
            ),
        ) {
            (Ok(_), Ok(w)) => {
                &&& final(workspace).values().len() == old(workspace).values().len() + 1
                &&& final(workspace).values().drop_last() == old(workspace).values()
                &&& final(workspace).values().last() matches Value::ValueByReference(c)
                &&& c.datatype@ == w.0
                &&& c.cell == w.1
            },
            (Err(e), Err(w)) => piece_models(e@) == w && final(workspace).values() == old(workspace).values(),
            _ => false,
        },
{
    let fuel = links_of(workspace.as_store());
    match select_cell(workspace.as_store(), workspace.as_datatypes(), base_value, index, fuel) {
        Ok(v) => {
            workspace.push_value(v);
            assert(workspace.values().drop_last() =~= old(workspace).values());
            Ok(())
        },
        Err(e) => Err(e),
    }
}

/// What a name comes to where its value is asked for: a value, or a
/// function that is to be called without arguments.
#[derive(Debug)]
pub enum Identified {
    Value(Value),
    Call(Name),
}

/// What a name comes to where its value is asked for. The name of a
/// variable comes to a copy of what the variable holds, the name of a
/// datatype to the character string of that name, the name of a
/// selector to the selector, and the name of a function to the call of
/// the function; a name that stands for nothing is an error.
pub fn evaluate_identifier_by_value(reference: &SymbolicReference, workspace: &mut WorkSpace) -> (r: Result<
    Identified,
    String,
>)
    requires
        old(workspace).wf(),
        old(workspace).store().holds(Value::Symbol(*reference)),
    ensures
        final(workspace).wf(),
        final(workspace).store().extends(&old(workspace).store()),
        final(workspace).same_but_store(old(workspace)),
        match reference.resolution {
            GeneralSymbol::Variable(d) => r matches Ok(Identified::Value(v)) && final(workspace).store().holds(v)
                && copies(
                &old(workspace).store(),
                &final(workspace).store(),
                old(workspace).store().cells().len() as nat,
                old(workspace).store().value_at(d.cell),
                v,
                DEPTH as nat,
            ),
            GeneralSymbol::Datatype(n) => r matches Ok(Identified::Value(v)) && final(workspace).store().holds(v)
                && spells(&final(workspace).store(), v, n@),
            GeneralSymbol::Selector(n) => if old(workspace).selectors().has(n@) {
                r matches Ok(Identified::Value(Value::Selector(s))) && s.member@ == old(workspace).selectors().item(
                    n@,
                ).member@ && names_alike(s.structures@, old(workspace).selectors().item(n@).structures@)
                    && final(workspace).store() == old(workspace).store()
            } else {
                r matches Err(e) && e@ == not_found_message(n@) && final(workspace).store() == old(workspace).store()
            },
            GeneralSymbol::Function(n) => r matches Ok(Identified::Call(f)) && f@ == n@ && final(workspace).store()
                == old(workspace).store(),
            GeneralSymbol::Unresolved(n) => r matches Err(e) && e@ == not_found_message(n@) && final(workspace).store() == old(workspace).store(),
        },
{
    match &reference.resolution {
        GeneralSymbol::Variable(d) => {
            assert(Value::Symbol(*reference).cells()[0] == d.cell);
            let held = workspace.as_store().get(d.cell).duplicate();
            proof {
                lemma_alike_cells(held, workspace.store().value_at(d.cell));
            }
            let v = workspace.copy_value(&held);
            proof {
                lemma_copies_of_alike(
                    &old(workspace).store(),
                    &workspace.store(),
                    old(workspace).store().cells().len() as nat,
                    held,
                    old(workspace).store().value_at(d.cell),
                    v,
                    DEPTH as nat,
                );
            }
            Ok(Identified::Value(v))
        },
        GeneralSymbol::Datatype(n) => Ok(Identified::Value(workspace.make_string(n.as_str()))),
        GeneralSymbol::Selector(n) => match workspace.try_get_selector(n.as_str()) {
            Some(description) => Ok(Identified::Value(Value::Selector(SelectorInstance::from_description(description)))),
            None => Err(with_tail(n.as_str(), " not found")),
        },
        GeneralSymbol::Function(n) => Ok(Identified::Call(n.clone())),
        GeneralSymbol::Unresolved(n) => Err(with_tail(n.as_str(), " not found")),
    }
}

/// The message for a selector that is applied to more or less than one value.
pub open spec fn one_structure_message() -> Seq<char> {
    "Selectors can only operate on one structure"@
}

/// The message for a selector that is applied to what is no structure.
pub open spec fn not_a_structure_message() -> Seq<char> {
    "Selectors can only target a structure"@
}

/// The message for a structure without the field of a selector.
pub open spec fn no_such_field_message(structure: Seq<char>, field: Seq<char>) -> Seq<char> {
    structure + " does not have a "@ + field + " field"@
}

/// What a selector selects: the value of a field, or a reference to its cell.
pub enum Field {
    /// The value in a cell.
    ByValue(usize),
    /// A reference to a cell with a datatype.
    ByReference(Seq<char>, usize),
}

/// The index of the field of a structure that a selector with a name
/// selects, where the selector lists the datatype of the structure.
pub open spec fn picked(s: StructureInstance, member: Seq<char>, structures: Seq<Name>) -> Option<int> {
    if listed(structures, s.datatype()) {
        first_named(s.members(), member, 0)
    } else {
        None
    }
}

/// What a selector selects from a value. From a structure it selects
/// the value of the field of its name, from a reference to a cell that
/// holds a structure a reference to the cell of that field. The name of
/// a variable stands for what the variable holds. Anything else is no
/// structure.
pub open spec fn field_of(store: &Store, s: SelectorDescription, v: Value) -> Result<Field, Seq<char>>
    decreases store.reach(v),
{
    match v {
        Value::Symbol(symbol) => match symbol.resolution {
            GeneralSymbol::Variable(d) => if store.wf() && d.cell < store.cells().len() {
                field_of(store, s, store.value_at(d.cell))
            } else {
                Err(not_a_structure_message())
            },
            GeneralSymbol::Unresolved(u) => Err(not_found_message(u@)),
            _ => Err(not_a_structure_message()),
        },
        Value::Structure(st) => match picked(st, s.member@, s.structures@) {
            Some(i) => Ok(Field::ByValue(st.members()[i].cell)),
            None => Err(no_such_field_message(st.datatype(), s.member@)),
        },
        Value::ValueByReference(r) => if store.wf() && r.cell < store.cells().len() {
            match store.value_at(r.cell) {
                Value::Structure(st) => match picked(st, s.member@, s.structures@) {
                    Some(i) => Ok(Field::ByReference(st.members()[i].datatype@, st.members()[i].cell)),
                    None => Err(no_such_field_message(st.datatype(), s.member@)),
                },
                _ => Err(not_a_structure_message()),
            }
        } else {
            Err(not_a_structure_message())
        },
        _ => Err(not_a_structure_message()),
    }
}

/// A field of a structure, as it was found.
enum Found {
    ByValue(usize),
    ByReference(MetaDataTypeName, usize),
}

fn pick(st: &StructureInstance, s: &SelectorDescription) -> (r: Option<usize>)
    ensures
        match r {
            Some(i) => i < st.members().len() && picked(*st, s.member@, s.structures@) == Some(i as int),
            None => picked(*st, s.member@, s.structures@) is None,
        },
{
    let instance = SelectorInstance::from_description(s);
    proof {
        lemma_listed_alike(instance.structures@, s.structures@, st.datatype());
    }
    st.find_field(&instance)
}

fn no_such_field(st: &StructureInstance, s: &SelectorDescription) -> (r: String)
    ensures
        r@ == no_such_field_message(st.datatype(), s.member@),
{
    let mut m = st.as_string();
    m.append(" does not have a ");
    m.append(s.member.as_str());
    m.append(" field");
    m
}

fn find(store: &Store, s: &SelectorDescription, v: &Value) -> (r: Result<Found, String>)
    requires
        store.wf(),
        store.holds(*v),
    ensures
        match (r, field_of(store, *s, *v)) {
            (Ok(Found::ByValue(c)), Ok(Field::ByValue(d))) => c == d && c < store.cells().len(),
            (Ok(Found::ByReference(t, c)), Ok(Field::ByReference(u, d))) => c == d && t@ == u && c
                < store.cells().len(),
            (Err(e), Err(m)) => e@ == m,
            _ => false,
        },
    decreases store.reach(*v),
{
    match v {
        Value::Symbol(symbol) => match &symbol.resolution {
            GeneralSymbol::Variable(d) => {
                assert(v.cells()[0] == d.cell);
                find(store, s, store.get(d.cell))
            },
            GeneralSymbol::Unresolved(u) => Err(with_tail(u.as_str(), " not found")),
            _ => Err(String::from_str("Selectors can only target a structure")),
        },
        Value::Structure(st) => match pick(st, s) {
            Some(i) => {
                assert(v.cells()[i as int] == st.members()[i as int].cell);
                Ok(Found::ByValue(st.as_values()[i].cell))
            },
            None => Err(no_such_field(st, s)),
        },
        Value::ValueByReference(r) => {
            assert(v.cells()[0] == r.cell);
            let held = store.get(r.cell);
            match held {
                Value::Structure(st) => match pick(st, s) {
                    Some(i) => {
                        assert(held.cells()[i as int] == st.members()[i as int].cell);
                        Ok(Found::ByReference(st.as_values()[i].datatype.clone(), st.as_values()[i].cell))
                    },
                    None => Err(no_such_field(st, s)),
                },
                _ => Err(String::from_str("Selectors can only target a structure")),
            }
        },
        _ => Err(String::from_str("Selectors can only target a structure")),
    }
}

/// Applies a selector to the value on top of the stack: takes the value
/// and pushes what the selector selects from it, a copy of the value of
/// the field or a reference to its cell. A selector takes one value.
pub fn execute_selector(s: &SelectorDescription, actual_argument_list: &Vec<usize>, workspace: &mut WorkSpace) -> (r:
    Result<(), String>)
    requires
        old(workspace).wf(),
        actual_argument_list@.len() == 1 ==> old(workspace).values().len() > 0,
    ensures
        final(workspace).wf(),
        final(workspace).store().extends(&old(workspace).store()),
        same_tables(final(workspace), old(workspace)),
        final(workspace).variables() == old(workspace).variables(),
        final(workspace).frames() == old(workspace).frames(),
        final(workspace).last_value() == old(workspace).last_value(),
        if actual_argument_list@.len() != 1 {
            r matches Err(e) && e@ == one_structure_message() && final(workspace).values() == old(workspace).values()
                && final(workspace).store() == old(workspace).store()
        } else {
            match field_of(&old(workspace).store(), *s, old(workspace).values().last()) {
                Ok(Field::ByValue(c)) => {
                    &&& r is Ok
                    &&& final(workspace).values().len() == old(workspace).values().len()
                    &&& final(workspace).values().drop_last() == old(workspace).values().drop_last()
                    &&& copies(
                        &old(workspace).store(),
                        &final(workspace).store(),
                        old(workspace).store().cells().len() as nat,
                        old(workspace).store().value_at(c),
                        final(workspace).values().last(),
                        DEPTH as nat,
                    )
                },
                Ok(Field::ByReference(t, c)) => {
                    &&& r is Ok
                    &&& final(workspace).values().len() == old(workspace).values().len()
                    &&& final(workspace).values().drop_last() == old(workspace).values().drop_last()
                    &&& final(workspace).values().last() matches Value::ValueByReference(to)
                    &&& to.datatype@ == t
                    &&& to.cell == c
                    &&& final(workspace).store() == old(workspace).store()
                },
                Err(m) => {
                    &&& r matches Err(e)
                    &&& e@ == m
                    &&& final(workspace).values() == old(workspace).values().drop_last()
                    &&& final(workspace).store() == old(workspace).store()
                },
            }
        },
{
    if actual_argument_list.len() != 1 {
        return Err(String::from_str("Selectors can only operate on one structure"));
    }
    let argument = workspace.pop_value();
    let found = find(workspace.as_store(), s, &argument);
    match found {
        Ok(Found::ByValue(c)) => {
            let held = workspace.as_store().get(c).duplicate();
            proof {
                lemma_alike_cells(held, workspace.store().value_at(c));
            }
            let v = workspace.copy_value(&held);
            proof {
                lemma_copies_of_alike(
                    &old(workspace).store(),
                    &workspace.store(),
                    old(workspace).store().cells().len() as nat,
                    held,
                    old(workspace).store().value_at(c),
                    v,
                    DEPTH as nat,
                );
            }
            workspace.push_value(v);
            assert(workspace.values().drop_last() =~= old(workspace).values().drop_last());
            Ok(())
        },
        Ok(Found::ByReference(t, c)) => {
            let v = Value::ValueByReference(CellReference { datatype: t, cell: c });
            assert(v.cells() =~= seq![c]);
            workspace.push_value(v);
            assert(workspace.values().drop_last() =~= old(workspace).values().drop_last());
            Ok(())
        },
        Err(e) => Err(e),
    }
}

/// Whether everything in a workspace but the store, the stack and the
/// global variables is as it was.
pub open spec fn same_tables(after: &WorkSpace, before: &WorkSpace) -> bool {
    &&& after.datatypes() == before.datatypes()
    &&& after.system_functions() == before.system_functions()
    &&& after.user_functions() == before.user_functions()
    &&& after.selectors() == before.selectors()
}

/// What an index that is a name stands for: what the variable of that
/// name holds, or the selector of that name. Any other name is no index.
pub open spec fn index_named(workspace: &WorkSpace, symbol: SymbolicReference) -> Result<Value, Seq<char>> {
    match symbol.resolution {
        GeneralSymbol::Variable(d) => Ok(workspace.store().value_at(d.cell)),
        GeneralSymbol::Selector(n) => if workspace.selectors().has(n@) {
            Ok(
                Value::Selector(
                    SelectorInstance {
                        member: workspace.selectors().item(n@).member,
                        structures: workspace.selectors().item(n@).structures,
                    },
                ),
            )
        } else {
            Err(not_found_message(n@))
        },
        GeneralSymbol::Unresolved(n) => Err(not_found_message(n@)),
        GeneralSymbol::Datatype(n) => Err(super::value::coercion::not_a_value_message(n@)),
        GeneralSymbol::Function(n) => Err(super::value::coercion::not_a_value_message(n@)),
    }
}

/// What the two values on top of the stack select: the index is on
/// top, the value it selects from below it.
pub open spec fn selection(workspace: &WorkSpace) -> Result<(Seq<char>, usize), Seq<PieceModel>> {
    let index = workspace.values().last();
    let base = workspace.values()[workspace.values().len() - 2];
    match index {
        Value::Symbol(symbol) => match index_named(workspace, symbol) {
            Ok(v) => indexed(&workspace.store(), &workspace.datatypes(), base, v, whole(&workspace.store())),
            Err(e) => Err(text(e)),
        },
        _ => indexed(&workspace.store(), &workspace.datatypes(), base, index, whole(&workspace.store())),
    }
}

/// A selector selects from a structure what any selector that is
/// spelled alike selects, and so an index that is a selector may be
/// any of them.
pub proof fn lemma_indexed_alike(
    store: &Store,
    types: &SymbolTable<MetaDataType>,
    base: Value,
    a: SelectorInstance,
    b: SelectorInstance,
    fuel: nat,
)
    requires
        a.alike(b),
    ensures
        indexed(store, types, base, Value::Selector(a), fuel) == indexed(store, types, base, Value::Selector(b), fuel),
    decreases fuel, store.reach(base),
{
    match base {
        Value::Structure(s) => {
            lemma_listed_alike(a.structures@, b.structures@, s.datatype());
        },
        Value::Sequence(s) => {},
        Value::Symbol(symbol) => match symbol.resolution {
            GeneralSymbol::Variable(d) => {
                if store.wf() && d.cell < store.cells().len() {
                    match store.value_at(d.cell) {
                        Value::Structure(s) => {
                            lemma_listed_alike(a.structures@, b.structures@, s.datatype());
                        },
                        _ => {},
                    }
                }
            },
            _ => {},
        },
        Value::ValueByReference(r) => {
            if store.wf() && r.cell < store.cells().len() {
                assert(store.fits(store.cells()[r.cell as int].contents as int, store.value_at(r.cell)));
                lemma_indexed_alike(store, types, store.value_at(r.cell), a, b, fuel);
            }
        },
        Value::LogicalLink(e) => {
            if fuel > 0 && store.wf() && e < store.envelopes().len() {
                lemma_indexed_alike(store, types, store.envelopes()[e as int].value, a, b, (fuel - 1) as nat);
            }
        },
        _ => {},
    }
}

/// Takes an index and the value below it from the stack, and pushes a
/// reference to the cell that the index selects from the value.
pub fn execute_selection_by_reference(workspace: &mut WorkSpace) -> (r: Result<(), Vec<Piece>>)
    requires
        old(workspace).wf(),
        old(workspace).values().len() >= 2,
    ensures
        final(workspace).wf(),
        final(workspace).same_but_values(old(workspace)),
        match (r, selection(old(workspace))) {
            (Ok(_), Ok(w)) => {
                &&& final(workspace).values().len() == old(workspace).values().len() - 1
                &&& final(workspace).values().drop_last() == old(workspace).values().drop_last().drop_last()
                &&& final(workspace).values().last() matches Value::ValueByReference(c)
                &&& c.datatype@ == w.0
                &&& c.cell == w.1
            },
            (Err(e), Err(w)) => piece_models(e@) == w,
            _ => false,
        },
{
    let index = workspace.pop_value();
    let ghost middle = *workspace;
    let base = workspace.pop_value();
    assert(base == old(workspace).values()[old(workspace).values().len() - 2]);
    let fuel = links_of(workspace.as_store());
    let selected = match &index {
        Value::Symbol(symbol) => match &symbol.resolution {
            GeneralSymbol::Variable(d) => {
                assert(index.cells()[0] == d.cell);
                select_cell(workspace.as_store(), workspace.as_datatypes(), &base, workspace.as_store().get(d.cell), fuel)
            },
            GeneralSymbol::Selector(n) => match workspace.try_get_selector(n.as_str()) {
                Some(description) => {
                    let instance = Value::Selector(SelectorInstance::from_description(description));
                    proof {
                        lemma_indexed_alike(
                            &workspace.store(),
                            &workspace.datatypes(),
                            base,
                            instance->Selector_0,
                            SelectorInstance { member: description.member, structures: description.structures },
                            whole(&workspace.store()),
                        );
                    }
                    select_cell(workspace.as_store(), workspace.as_datatypes(), &base, &instance, fuel)
                },
                None => Err(say(with_tail(n.as_str(), " not found"))),
            },
            GeneralSymbol::Unresolved(n) => Err(say(with_tail(n.as_str(), " not found"))),
            GeneralSymbol::Datatype(n) => Err(say(with_tail(n.as_str(), " is not a value"))),
            GeneralSymbol::Function(n) => Err(say(with_tail(n.as_str(), " is not a value"))),
        },
        _ => select_cell(workspace.as_store(), workspace.as_datatypes(), &base, &index, fuel),
    };
    match selected {
        Ok(v) => {
            workspace.push_value(v);
            assert(workspace.values().drop_last() =~= old(workspace).values().drop_last().drop_last());
            Ok(())
        },
        Err(e) => Err(e),
    }
}

} // verus!
