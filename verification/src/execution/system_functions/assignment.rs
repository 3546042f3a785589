//! Assignment: by copy, and by link.

use vstd::prelude::*;
use crate::symbols::datatype::{accepts, depth, is_assignable_to};
use crate::workspace::WorkSpace;
use crate::execution::value::coercion::{coerced, not_a_value_message, not_found_message};
use crate::execution::value::conversion::agrees;
use crate::execution::value::copy::{copies, keeps, lemma_copies_kept, lemma_value_kept, DEPTH};
use crate::execution::value::display::{piece_models, say, text, Piece, PieceModel};
use crate::execution::value::{GeneralSymbol, Store, Value};

verus! {

/// Whether a value is one that may be asked to be kept in a cell: no
/// reference to a cell, and no name but one that stands for nothing.
pub open spec fn can_be_kept(value: Value) -> bool {
    &&& !(value is ValueByReference)
    &&& value matches Value::Symbol(s) ==> s.resolution is Unresolved
}

/// Whether a value can be kept in a cell, and why not: a selector is no
/// value, and a name that stands for nothing is not found.
pub open spec fn validated(value: Value) -> Result<(), Seq<char>> {
    match value {
        Value::Selector(s) => Err(not_a_value_message(s.member@)),
        Value::Symbol(s) => Err(not_found_message(s.referred_name@)),
        _ => Ok(()),
    }
}

/// Checks that a value can be kept in a cell.
pub fn validate_value(value: &Value) -> (r: Result<(), String>)
    requires
        can_be_kept(*value),
    ensures
        agrees(r, validated(*value)),
        r is Ok ==> Store::referent(*value) is None,
{
    match value {
        Value::Selector(s) => {
            let mut m = s.member.as_string();
            m.append(" is not a value");
            Err(m)
        },
        Value::Symbol(s) => {
            let mut m = s.as_string();
            m.append(" not found");
            Err(m)
        },
        _ => Ok(()),
    }
}

/// The message for what cannot be given a value.
pub open spec fn not_a_variable_message() -> Seq<char> {
    "Only variables can be the target of assign"@
}

/// The message for a value that the datatype of a cell does not accept.
pub open spec fn incompatible_message() -> Seq<char> {
    "Incompatible datatype"@
}

/// Whether a store is what another becomes when a copy of a value is
/// given to a cell: the cells there were are the same cells; the cell
/// holds a copy of the value; every cell that shares its envelope holds
/// what it holds; and every other cell there was holds what it held.
pub open spec fn given(before: &Store, after: &Store, cell: usize, v: Value) -> bool {
    &&& before.cells().len() <= after.cells().len()
    &&& forall|c: int| 0 <= c < before.cells().len() ==> #[trigger] after.cells()[c] == before.cells()[c]
    &&& copies(before, after, before.cells().len() as nat, v, after.value_at(cell), DEPTH as nat)
    &&& forall|c: usize|
        c < before.cells().len() ==> #[trigger] after.value_at(c) == if before.cells()[c as int].contents
            == before.cells()[cell as int].contents {
            after.value_at(cell)
        } else {
            before.value_at(c)
        }
}

/// Whether everything in a workspace but the store and the global
/// variables is as it was.
pub open spec fn same_tables(after: &WorkSpace, before: &WorkSpace) -> bool {
    &&& after.datatypes() == before.datatypes()
    &&& after.system_functions() == before.system_functions()
    &&& after.user_functions() == before.user_functions()
    &&& after.selectors() == before.selectors()
    &&& after.values() == before.values()
    &&& after.frames() == before.frames()
    &&& after.last_value() == before.last_value()
}

/// Puts a copy of a value into a cell of the workspace.
fn give(workspace: &mut WorkSpace, cell: usize, kept: Value, Ghost(origin): Ghost<Store>, Ghost(v): Ghost<Value>)
    requires
        old(workspace).wf(),
        origin.wf(),
        origin.holds(v),
        old(workspace).store().extends(&origin),
        cell < origin.cells().len(),
        old(workspace).store().holds(kept),
        Store::referent(kept) is None,
        copies(&origin, &old(workspace).store(), origin.cells().len() as nat, v, kept, DEPTH as nat),
    ensures
        final(workspace).wf(),
        given(&origin, &final(workspace).store(), cell, v),
        keeps(&final(workspace).store(), &old(workspace).store(), origin.envelopes().len() as nat),
        final(workspace).store().cells() == old(workspace).store().cells(),
        final(workspace).store().envelopes().len() == old(workspace).store().envelopes().len(),
        final(workspace).same_but_store(old(workspace)),
{
    workspace.set_cell(cell, kept);
    proof {
        let before = old(workspace).store();
        let after = workspace.store();
        assert(keeps(&after, &before, origin.envelopes().len() as nat));
        lemma_copies_kept(
            &origin,
            &origin,
            &before,
            &after,
            origin.cells().len() as nat,
            origin.cells().len() as nat,
            v,
            kept,
            DEPTH as nat,
        );
        assert forall|c: usize| c < origin.cells().len() implies #[trigger] after.value_at(c) == if origin.cells()[c as int].contents
            == origin.cells()[cell as int].contents {
            after.value_at(cell)
        } else {
            origin.value_at(c)
        } by {
            lemma_value_kept(&origin, &before, c);
            lemma_value_kept(&origin, &before, cell);
        }
    }
}

/// Gives a value to a variable or to a cell. The receiver is the name
/// of a variable, a name that stands for nothing yet, for which a global
/// variable is made, or a reference to a cell, whose datatype the value
/// is made to fit. The value is copied, and a copy of it is returned.
pub fn assign(receiver: &Value, value: &Value, workspace: &mut WorkSpace) -> (r: Result<Value, Vec<Piece>>)
    requires
        old(workspace).wf(),
        old(workspace).store().holds(*receiver),
        old(workspace).store().holds(*value),
        *receiver is Symbol || *receiver is ValueByReference,
        receiver matches Value::Symbol(s) && (s.resolution is Variable || s.resolution is Unresolved)
            ==> can_be_kept(*value),
    ensures
        final(workspace).wf(),
        same_tables(final(workspace), old(workspace)),
        match r {
            Ok(result) => {
                &&& final(workspace).store().holds(result)
                &&& copies(
                    &old(workspace).store(),
                    &final(workspace).store(),
                    old(workspace).store().cells().len() as nat,
                    *value,
                    result,
                    DEPTH as nat,
                )
                &&& match *receiver {
                    Value::Symbol(s) => match s.resolution {
                        GeneralSymbol::Variable(d) => {
                            &&& validated(*value) is Ok
                            &&& given(&old(workspace).store(), &final(workspace).store(), d.cell, *value)
                            &&& final(workspace).variables() == old(workspace).variables()
                        },
                        GeneralSymbol::Unresolved(u) => {
                            &&& validated(*value) is Ok
                            &&& final(workspace).store().extends(&old(workspace).store())
                            &&& final(workspace).variables().has(u@)
                            &&& final(workspace).variables().item(u@).cell >= old(workspace).store().cells().len()
                            &&& final(workspace).variables().item(u@).cell < final(workspace).store().cells().len()
                            &&& copies(
                                &old(workspace).store(),
                                &final(workspace).store(),
                                old(workspace).store().cells().len() as nat,
                                *value,
                                final(workspace).store().value_at(final(workspace).variables().item(u@).cell),
                                DEPTH as nat,
                            )
                        },
                        _ => false,
                    },
                    Value::ValueByReference(target) => {
                        &&& old(workspace).datatypes().has(target.datatype@)
                        &&& coerced(
                            &old(workspace).store(),
                            &old(workspace).datatypes(),
                            old(workspace).datatypes().item(target.datatype@).root(),
                            *value,
                        ) matches Ok(w)
                        &&& given(&old(workspace).store(), &final(workspace).store(), target.cell, w)
                        &&& final(workspace).variables() == old(workspace).variables()
                    },
                    _ => false,
                }
            },
            Err(e) => {
                &&& final(workspace).store() == old(workspace).store()
                &&& final(workspace).variables() == old(workspace).variables()
                &&& match *receiver {
                    Value::Symbol(s) => if s.resolution is Variable || s.resolution is Unresolved {
                        validated(*value) matches Err(m) && piece_models(e@) == text(m)
                    } else {
                        piece_models(e@) == text(not_a_variable_message())
                    },
                    Value::ValueByReference(target) => if old(workspace).datatypes().has(target.datatype@) {
                        coerced(
                            &old(workspace).store(),
                            &old(workspace).datatypes(),
                            old(workspace).datatypes().item(target.datatype@).root(),
                            *value,
                        ) == Err::<Value, Seq<PieceModel>>(piece_models(e@))
                    } else {
                        piece_models(e@) == text(target.datatype@ + " not found"@)
                    },
                    _ => false,
                }
            },
        },
{
    let ghost origin = old(workspace).store();
    let ghost from = origin.cells().len() as nat;
    match receiver {
        Value::Symbol(symbol) => match &symbol.resolution {
            GeneralSymbol::Variable(d) => {
                if let Err(e) = validate_value(value) {
                    return Err(say(e));
                }
                assert(receiver.cells()[0] == d.cell);
                let kept = workspace.copy_value(value);
                let ghost first = workspace.store();
                let result = workspace.copy_value(value);
                let ghost second = workspace.store();
                proof {
                    crate::execution::functions::lemma_extends_twice(&origin, &first, &second);
                    crate::execution::value::copy::lemma_extends_keeps(&second, &first, origin.envelopes().len() as nat);
                    lemma_copies_kept(&origin, &origin, &first, &second, from, from, *value, kept, DEPTH as nat);
                }
                give(workspace, d.cell, kept, Ghost(origin), Ghost(*value));
                proof {
                    lemma_copies_kept(
                        &first,
                        &origin,
                        &second,
                        &workspace.store(),
                        first.cells().len() as nat,
                        from,
                        *value,
                        result,
                        DEPTH as nat,
                    );
                }
                Ok(result)
            },
            GeneralSymbol::Unresolved(u) => {
                if let Err(e) = validate_value(value) {
                    return Err(say(e));
                }
                let kept = workspace.copy_value(value);
                let ghost first = workspace.store();
                let result = workspace.copy_value(value);
                let ghost second = workspace.store();
                let cell = workspace.add_variable(u.as_str(), kept);
                proof {
                    let last = workspace.store();
                    crate::execution::functions::lemma_extends_twice(&origin, &first, &second);
                    crate::execution::functions::lemma_extends_twice(&origin, &second, &last);
                    crate::execution::functions::lemma_extends_twice(&first, &second, &last);
                    crate::execution::value::copy::lemma_extends_keeps(&last, &first, origin.envelopes().len() as nat);
                    crate::execution::value::copy::lemma_extends_keeps(&last, &second, origin.envelopes().len() as nat);
                    lemma_copies_kept(&origin, &origin, &first, &last, from, from, *value, kept, DEPTH as nat);
                    lemma_copies_kept(
                        &first,
                        &origin,
                        &second,
                        &last,
                        first.cells().len() as nat,
                        from,
                        *value,
                        result,
                        DEPTH as nat,
                    );
                }
                Ok(result)
            },
            _ => Err(say(String::from_str("Only variables can be the target of assign"))),
        },
        Value::ValueByReference(target) => {
            assert(receiver.cells()[0] == target.cell);
            let kept = match workspace.coerce_value(target.datatype.as_str(), value) {
                Ok(w) => w,
                Err(e) => {
                    return Err(e);
                },
            };
            let ghost want = coerced(
                &origin,
                &old(workspace).datatypes(),
                old(workspace).datatypes().item(target.datatype@).root(),
                *value,
            )->Ok_0;
            let ghost first = workspace.store();
            let result = workspace.copy_value(value);
            let ghost second = workspace.store();
            proof {
                crate::execution::functions::lemma_extends_twice(&origin, &first, &second);
                crate::execution::value::copy::lemma_extends_keeps(&second, &first, origin.envelopes().len() as nat);
                crate::execution::value::coercion::lemma_coerced_is_held(
                    &origin,
                    &old(workspace).datatypes(),
                    old(workspace).datatypes().item(target.datatype@).root(),
                    *value,
                );
                lemma_copies_kept(&origin, &origin, &first, &second, from, from, want, kept, DEPTH as nat);
            }
            give(workspace, target.cell, kept, Ghost(origin), Ghost(want));
            proof {
                lemma_copies_kept(
                    &first,
                    &origin,
                    &second,
                    &workspace.store(),
                    first.cells().len() as nat,
                    from,
                    *value,
                    result,
                    DEPTH as nat,
                );
            }
            Ok(result)
        },
        _ => Err(say(String::from_str("Only variables can be the target of assign"))),
    }
}

/// What is given to a cell is found in every cell that shares its envelope.
pub proof fn law_assignment_reaches_every_alias(before: &Store, after: &Store, cell: usize, other: usize, v: Value)
    requires
        given(before, after, cell, v),
        cell < before.cells().len(),
        other < before.cells().len(),
        before.cells()[other as int].contents == before.cells()[cell as int].contents,
    ensures
        after.value_at(other) == after.value_at(cell),
        copies(before, after, before.cells().len() as nat, v, after.value_at(other), DEPTH as nat),
{
}

/// The cell whose value a link is made to: the cell of the variable
/// that a name stands for, or the cell that a reference refers to.
pub open spec fn attached(value: Value) -> Option<usize> {
    match value {
        Value::Symbol(s) => match s.resolution {
            GeneralSymbol::Variable(d) => Some(d.cell),
            _ => None,
        },
        Value::ValueByReference(r) => Some(r.cell),
        _ => None,
    }
}

/// Whether a store is what another becomes when a cell is made a link
/// to the value of another cell: the cells are the same cells; the cell,
/// and every cell that shares its envelope, holds a link to the
/// envelope of the other; every other cell holds what it held.
pub open spec fn linked(before: &Store, after: &Store, cell: usize, target: usize) -> bool {
    &&& after.cells() == before.cells()
    &&& after.envelopes().len() == before.envelopes().len()
    &&& forall|c: usize|
        c < before.cells().len() ==> #[trigger] after.value_at(c) == if before.cells()[c as int].contents
            == before.cells()[cell as int].contents {
            Value::LogicalLink(before.cells()[target as int].contents)
        } else {
            before.value_at(c)
        }
}

/// What a link is refused for, if it is: the receiver must be the name
/// of a variable, a name that stands for nothing yet, or a reference to
/// a cell; what is linked to must be a variable or a cell; and the
/// value linked to must be one that the datatype of a referred cell
/// accepts.
pub open spec fn link_refused(workspace: &WorkSpace, receiver: Value, value: Value) -> Option<Seq<char>> {
    match receiver {
        Value::Symbol(s) => match value {
            Value::Symbol(a) => if a.resolution is Variable {
                if s.resolution is Variable || s.resolution is Unresolved {
                    None
                } else {
                    Some(not_a_variable_message())
                }
            } else if a.resolution is Unresolved {
                Some(not_found_message(a.referred_name@))
            } else {
                Some(not_a_variable_message())
            },
            _ => if s.resolution is Variable || s.resolution is Unresolved {
                None
            } else {
                Some(not_a_variable_message())
            },
        },
        Value::ValueByReference(r) => match value {
            Value::Symbol(a) if !(a.resolution is Variable) => if a.resolution is Unresolved {
                Some(not_found_message(a.referred_name@))
            } else {
                Some(not_a_variable_message())
            },
            _ => if !workspace.datatypes().has(r.datatype@) {
                Some(r.datatype@ + " not found"@)
            } else {
                match accepts(
                    &workspace.datatypes(),
                    workspace.store().value_at(attached(value)->0),
                    workspace.datatypes().item(r.datatype@).root(),
                    true,
                    depth(&workspace.datatypes()),
                ) {
                    Ok(true) => None,
                    Ok(false) => Some(incompatible_message()),
                    Err(e) => Some(e),
                }
            },
        },
        _ => None,
    }
}

/// Makes a variable or a cell a link to the value of another: what is
/// put into the one afterwards is not found in the other, but what the
/// other holds is found through the one. The receiver is the name of a
/// variable, a name that stands for nothing yet, for which a global
/// variable is made, or a reference to a cell. A copy of what was
/// linked to is returned.
pub fn noncopy(receiver: &Value, value: &Value, workspace: &mut WorkSpace) -> (r: Result<Value, String>)
    requires
        old(workspace).wf(),
        old(workspace).store().holds(*receiver),
        old(workspace).store().holds(*value),
        *receiver is Symbol || *receiver is ValueByReference,
        *value is Symbol || *value is ValueByReference,
    ensures
        final(workspace).wf(),
        same_tables(final(workspace), old(workspace)),
        match r {
            Ok(result) => {
                &&& link_refused(old(workspace), *receiver, *value) is None
                &&& attached(*value) matches Some(target)
                &&& result.alike(*value)
                &&& match *receiver {
                    Value::Symbol(s) => match s.resolution {
                        GeneralSymbol::Variable(d) => {
                            &&& linked(&old(workspace).store(), &final(workspace).store(), d.cell, target)
                            &&& final(workspace).variables() == old(workspace).variables()
                        },
                        GeneralSymbol::Unresolved(u) => {
                            &&& final(workspace).store().extends(&old(workspace).store())
                            &&& final(workspace).variables().has(u@)
                            &&& final(workspace).variables().item(u@).cell == old(workspace).store().cells().len()
                            &&& final(workspace).store().cells().len() == old(workspace).store().cells().len() + 1
                            &&& final(workspace).store().value_at(final(workspace).variables().item(u@).cell)
                                == Value::LogicalLink(old(workspace).store().cells()[target as int].contents)
                        },
                        _ => false,
                    },
                    Value::ValueByReference(to) => {
                        &&& linked(&old(workspace).store(), &final(workspace).store(), to.cell, target)
                        &&& final(workspace).variables() == old(workspace).variables()
                    },
                    _ => false,
                }
            },
            Err(e) => {
                &&& link_refused(old(workspace), *receiver, *value) == Some(e@)
                &&& final(workspace).store() == old(workspace).store()
                &&& final(workspace).variables() == old(workspace).variables()
            },
        },
{
    let target = match value {
        Value::Symbol(a) => match &a.resolution {
            GeneralSymbol::Variable(d) => {
                assert(value.cells()[0] == d.cell);
                d.cell
            },
            GeneralSymbol::Unresolved(_) => {
                let mut m = a.as_string();
                m.append(" not found");
                return Err(m);
            },
            _ => {
                return Err(String::from_str("Only variables can be the target of assign"));
            },
        },
        Value::ValueByReference(a) => {
            assert(value.cells()[0] == a.cell);
            a.cell
        },
        _ => {
            return Err(String::from_str("Only variables can be the target of assign"));
        },
    };
    let link = Value::LogicalLink(workspace.as_store().envelope_of(target));
    match receiver {
        Value::Symbol(s) => match &s.resolution {
            GeneralSymbol::Variable(d) => {
                assert(receiver.cells()[0] == d.cell);
                workspace.set_cell(d.cell, link);
            },
            GeneralSymbol::Unresolved(u) => {
                workspace.add_variable(u.as_str(), link);
            },
            _ => {
                return Err(String::from_str("Only variables can be the target of assign"));
            },
        },
        Value::ValueByReference(to) => {
            assert(receiver.cells()[0] == to.cell);
            let fits = match workspace.resolve_datatype(to.datatype.as_str()) {
                Ok(t) => is_assignable_to(workspace.as_store().get(target), t, workspace.as_datatypes()),
                Err(e) => Err(e),
            };
            match fits {
                Ok(true) => {
                    workspace.set_cell(to.cell, link);
                },
                Ok(false) => {
                    return Err(String::from_str("Incompatible datatype"));
                },
                Err(e) => {
                    return Err(e);
                },
            }
        },
        _ => {
            return Err(String::from_str("Only variables can be the target of assign"));
        },
    }
    Ok(value.duplicate())
}

} // verus!
