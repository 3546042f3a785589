//! The end of a statement, and the return from a function.

use vstd::prelude::*;
use crate::symbols::name::Name;
use crate::workspace::WorkSpace;
use super::value::coercion::{not_a_value_message, not_found_message};
use super::value::copy::{copies, lemma_copies_of_alike, DEPTH};
use super::value::sequence::spells;
use super::value::structure::SelectorInstance;
use super::value::{lemma_alike_cells, names_alike, GeneralSymbol, Store, Value};

verus! {

/// What is to be done when a statement has ended.
#[derive(Debug)]
pub enum Ended {
    /// Nothing more.
    Done,
    /// The statement came to the name of a function: the function is to
    /// be called without arguments, and the end of the statement is run
    /// once more, for what the function returns.
    Call(Name),
}

/// Why the value that a statement came to is no result, if it is none:
/// a selector is no value, and a name must stand for something.
pub open spec fn refused(workspace: &WorkSpace, v: Value) -> Option<Seq<char>> {
    match v {
        Value::Selector(s) => Some(not_a_value_message(s.member@)),
        Value::Symbol(symbol) => match symbol.resolution {
            GeneralSymbol::Unresolved(n) => Some(not_found_message(n@)),
            GeneralSymbol::Selector(n) => if workspace.selectors().has(n@) {
                None
            } else {
                Some(not_found_message(n@))
            },
            _ => None,
        },
        _ => None,
    }
}

/// Whether a value is the result of a statement that came to the value
/// `v`: a copy of what a variable or a cell holds, or of what a link
/// links to; the character string of the name of a datatype; the
/// selector of a name; nothing yet for the name of a function; and
/// else the value itself.
pub open spec fn result_of(before: &WorkSpace, after: &Store, v: Value, result: Value) -> bool {
    let from = before.store().cells().len() as nat;
    match v {
        Value::Symbol(symbol) => match symbol.resolution {
            GeneralSymbol::Variable(d) => copies(
                &before.store(),
                after,
                from,
                before.store().value_at(d.cell),
                result,
                DEPTH as nat,
            ),
            GeneralSymbol::Datatype(n) => spells(after, result, n@),
            GeneralSymbol::Selector(n) => result matches Value::Selector(s) && s.member@
                == before.selectors().item(n@).member@ && names_alike(
                s.structures@,
                before.selectors().item(n@).structures@,
            ),
            _ => result is Empty,
        },
        Value::ValueByReference(r) => copies(
            &before.store(),
            after,
            from,
            before.store().value_at(r.cell),
            result,
            DEPTH as nat,
        ),
        Value::LogicalLink(e) => copies(
            &before.store(),
            after,
            from,
            before.store().envelopes()[e as int].value,
            result,
            DEPTH as nat,
        ),
        _ => result == v,
    }
}

/// Whether a value is the name of a function.
pub open spec fn names_function(v: Value) -> bool {
    v matches Value::Symbol(symbol) && symbol.resolution is Function
}

/// Ends a statement. What the statement left on the stack above the
/// depth at which the frame was entered is taken off; the value on top
/// is the result of the statement. Where that is the name of a
/// function, the node is to be run again after the call. Then the jump
/// that was asked for, if any, is made: its node comes next.
pub fn execute_statement_end(workspace: &mut WorkSpace) -> (r: Result<Ended, String>)
    requires
        old(workspace).wf(),
        old(workspace).frames().len() > 0,
    ensures
        final(workspace).wf(),
        final(workspace).store().extends(&old(workspace).store()),
        final(workspace).variables() == old(workspace).variables(),
        final(workspace).datatypes() == old(workspace).datatypes(),
        final(workspace).selectors() == old(workspace).selectors(),
        final(workspace).user_functions() == old(workspace).user_functions(),
        final(workspace).system_functions() == old(workspace).system_functions(),
        final(workspace).frames().len() == old(workspace).frames().len(),
        final(workspace).frames().drop_last() == old(workspace).frames().drop_last(),
        final(workspace).frames().last().executable() == old(workspace).frames().last().executable(),
        final(workspace).frames().last().base() == old(workspace).frames().last().base(),
        final(workspace).frames().last().state() == old(workspace).frames().last().state(),
        final(workspace).frames().last().block() == old(workspace).frames().last().block(),
        final(workspace).frames().last().current() == old(workspace).frames().last().current(),
        ({
            let frame = old(workspace).frames().last();
            let left = old(workspace).values().len() > frame.base();
            let top = old(workspace).values().last();
            &&& final(workspace).values() == if left {
                old(workspace).values().take(frame.base() as int)
            } else {
                old(workspace).values()
            }
            &&& match r {
                Err(e) => {
                    &&& left
                    &&& refused(old(workspace), top) == Some(e@)
                    &&& final(workspace).last_value() == old(workspace).last_value()
                    &&& final(workspace).frames().last().next() == frame.next()
                    &&& final(workspace).frames().last().pending() == frame.pending()
                    &&& final(workspace).store() == old(workspace).store()
                },
                Ok(ended) => {
                    &&& left ==> refused(old(workspace), top) is None
                    &&& match ended {
                        Ended::Call(f) => {
                            &&& left
                            &&& top matches Value::Symbol(symbol)
                            &&& symbol.resolution matches GeneralSymbol::Function(n)
                            &&& f@ == n@
                        },
                        Ended::Done => !(left && names_function(top)),
                    }
                    &&& if left {
                        final(workspace).last_value() matches Some(result) && result_of(
                            old(workspace),
                            &final(workspace).store(),
                            top,
                            result,
                        )
                    } else {
                        final(workspace).last_value() == old(workspace).last_value() && final(workspace).store()
                            == old(workspace).store()
                    }
                    &&& final(workspace).frames().last().pending() is None
                    &&& final(workspace).frames().last().next() == match frame.pending() {
                        Some(index) => index,
                        None => if left && names_function(top) && frame.current() is Some {
                            frame.current()->0
                        } else {
                            frame.next()
                        },
                    }
                },
            }
        }),
{
    let (base, current, next, pending) = {
        let frame = workspace.current_invocation().unwrap();
        (frame.get_base_stack_size(), frame.current_index(), frame.next_index(), frame.get_pending_goto_index())
    };
    let mut ended = Ended::Done;
    let mut next = next;
    match workspace.try_pop_value(base) {
        Some(value) => {
            let result = match value {
                Value::Selector(s) => {
                    let mut m = s.member.as_string();
                    m.append(" is not a value");
                    return Err(m);
                },
                Value::Symbol(symbol) => match &symbol.resolution {
                    GeneralSymbol::Function(f) => {
                        if let Some(node_index) = current {
                            next = node_index;
                        }
                        ended = Ended::Call(f.clone());
                        Value::Empty
                    },
                    GeneralSymbol::Variable(d) => {
                        assert(value.cells()[0] == d.cell);
                        copy_of_cell(workspace, d.cell)
                    },
                    GeneralSymbol::Datatype(n) => workspace.make_string(n.as_str()),
                    GeneralSymbol::Selector(n) => match workspace.try_get_selector(n.as_str()) {
                        Some(description) => Value::Selector(SelectorInstance::from_description(description)),
                        None => {
                            let mut m = n.as_string();
                            m.append(" not found");
                            return Err(m);
                        },
                    },
                    GeneralSymbol::Unresolved(n) => {
                        let mut m = n.as_string();
                        m.append(" not found");
                        return Err(m);
                    },
                },
                Value::ValueByReference(r) => {
                    assert(value.cells()[0] == r.cell);
                    copy_of_cell(workspace, r.cell)
                },
                Value::LogicalLink(e) => {
                    let held = workspace.as_store().get_envelope(e).duplicate();
                    proof {
                        lemma_alike_cells(held, workspace.store().envelopes()[e as int].value);
                    }
                    let v = workspace.copy_value(&held);
                    proof {
                        lemma_copies_of_alike(
                            &old(workspace).store(),
                            &workspace.store(),
                            old(workspace).store().cells().len() as nat,
                            held,
                            old(workspace).store().envelopes()[e as int].value,
                            v,
                            DEPTH as nat,
                        );
                    }
                    v
                },
                other => other,
            };
            workspace.set_last_statement_value(result);
        },
        None => {},
    }
    match pending {
        Some(index) => {
            workspace.redirect(index, None);
        },
        None => {
            workspace.redirect(next, None);
        },
    }
    Ok(ended)
}

/// A copy of what a cell holds.
fn copy_of_cell(workspace: &mut WorkSpace, cell: usize) -> (v: Value)
    requires
        old(workspace).wf(),
        cell < old(workspace).store().cells().len(),
    ensures
        final(workspace).wf(),
        final(workspace).store().extends(&old(workspace).store()),
        final(workspace).store().holds(v),
        final(workspace).same_but_store(old(workspace)),
        copies(
            &old(workspace).store(),
            &final(workspace).store(),
            old(workspace).store().cells().len() as nat,
            old(workspace).store().value_at(cell),
            v,
            DEPTH as nat,
        ),
{
    let held = workspace.as_store().get(cell).duplicate();
    proof {
        lemma_alike_cells(held, workspace.store().value_at(cell));
    }
    let v = workspace.copy_value(&held);
    proof {
        lemma_copies_of_alike(
            &old(workspace).store(),
            &workspace.store(),
            old(workspace).store().cells().len() as nat,
            held,
            old(workspace).store().value_at(cell),
            v,
            DEPTH as nat,
        );
    }
    v
}

/// Returns from a function: pushes a copy of what the variable named
/// after the function holds, or the empty value where there is no such
/// variable, and leaves the frame of the function.
pub fn execute_function_return(workspace: &mut WorkSpace) -> (r: Result<(), String>)
    requires
        old(workspace).wf(),
        old(workspace).frames().len() > 0,
        old(workspace).frames().last().block() is Some,
    ensures
        r is Ok,
        final(workspace).wf(),
        final(workspace).store().extends(&old(workspace).store()),
        final(workspace).frames() == old(workspace).frames().drop_last(),
        final(workspace).values().len() == old(workspace).values().len() + 1,
        final(workspace).values().drop_last() == old(workspace).values(),
        match old(workspace).variable_named(old(workspace).frames().last().block()->0.function_name@) {
            Some(d) => copies(
                &old(workspace).store(),
                &final(workspace).store(),
                old(workspace).store().cells().len() as nat,
                old(workspace).store().value_at(d.cell),
                final(workspace).values().last(),
                DEPTH as nat,
            ),
            None => final(workspace).values().last() is Empty && final(workspace).store() == old(workspace).store(),
        },
        final(workspace).variables() == old(workspace).variables(),
        final(workspace).last_value() == old(workspace).last_value(),
{
    let name = match workspace.current_invocation().unwrap().get_fib() {
        Some(fib) => fib.function_name.as_string(),
        None => String::from_str(""),
    };
    let value = match workspace.try_get_variable(name.as_str()) {
        Some(d) => copy_of_cell(workspace, d.cell),
        None => Value::Empty,
    };
    workspace.push_value(value);
    workspace.end_invocation();
    assert(workspace.values().drop_last() =~= old(workspace).values());
    Ok(())
}

/// Returns from an executable that was run for its value: pushes the
/// result of its last statement, or the empty value where no statement
/// had one, and leaves its frame.
pub fn execute_exec_return(workspace: &mut WorkSpace) -> (r: Result<(), String>)
    requires
        old(workspace).wf(),
    ensures
        r is Ok,
        final(workspace).wf(),
        final(workspace).store() == old(workspace).store(),
        final(workspace).frames() == if old(workspace).frames().len() > 0 {
            old(workspace).frames().drop_last()
        } else {
            old(workspace).frames()
        },
        final(workspace).values().len() == old(workspace).values().len() + 1,
        final(workspace).values().drop_last() == old(workspace).values(),
        match old(workspace).last_value() {
            Some(v) => final(workspace).values().last().alike(v),
            None => final(workspace).values().last() is Empty,
        },
        final(workspace).variables() == old(workspace).variables(),
        final(workspace).last_value() == old(workspace).last_value(),
{
    let value = match workspace.get_last_statement_value() {
        Some(v) => {
            proof {
                lemma_alike_cells(v, workspace.last_value()->0);
            }
            v
        },
        None => Value::Empty,
    };
    workspace.push_value(value);
    workspace.end_invocation();
    assert(workspace.values().drop_last() =~= old(workspace).values());
    Ok(())
}

} // verus!
