//! The entry into a user function.
//!
//! A user function runs in a frame of its own, with local variables: one
//! named after the function, which holds what the function returns; one
//! for each formal argument; one for each declared local; and one for
//! each statement label, which holds the label's line number.

use vstd::prelude::*;
use crate::lexical::LineNumber;
use crate::symbols::SymbolTable;
use crate::symbols::metadata::{
    ArgumentMechanism,
    FormalArgument,
    FunctionArgumentList,
    FunctionDescription,
    FunctionImplementation,
    VariableDescription,
};
use crate::symbols::name::Name;
use crate::text::lower;
use crate::workspace::WorkSpace;
use super::value::copy::{copies, lemma_copies_kept, lemma_extends_keeps, lemma_value_kept, DEPTH};
use super::value::{GeneralSymbol, Store, Value};

verus! {

/// What a local variable is made from: a name, and either a cell that
/// there is, which the variable shares, or a value, for which the
/// variable gets a cell of its own.
pub struct Binding {
    pub name: Seq<char>,
    pub shared: Option<usize>,
    pub value: Value,
}

/// The binding of a name to a cell of its own with a value.
pub open spec fn fresh(name: Seq<char>, value: Value) -> Binding {
    Binding { name: name, shared: None, value: value }
}

/// The caller's cell that a formal argument shares: the cell of the
/// variable that was handed over, if the argument goes by reference.
pub open spec fn shared_cell(formal: FormalArgument, actual: Value) -> Option<usize> {
    if formal.mechanism is ByReference {
        match actual {
            Value::Symbol(s) => match s.resolution {
                GeneralSymbol::Variable(d) => Some(d.cell),
                _ => None,
            },
            _ => None,
        }
    } else {
        None
    }
}

/// The binding of a formal argument to what was handed over.
pub open spec fn argument_binding(formal: FormalArgument, actual: Value) -> Binding {
    Binding { name: formal.name@, shared: shared_cell(formal, actual), value: actual }
}

/// A line number as the integer that a label holds.
pub open spec fn line_value(line: LineNumber) -> i32 {
    if line <= i32::MAX {
        line as i32
    } else {
        (line - 0x1_0000_0000) as i32
    }
}

/// The formal arguments of a function with a fixed list of them.
pub open spec fn formals(f: &FunctionDescription) -> Seq<FormalArgument> {
    match f.arguments {
        FunctionArgumentList::Fixed(list) => list@,
        FunctionArgumentList::Varying(_) => Seq::empty(),
    }
}

/// The declared locals of a function.
pub open spec fn declared(f: &FunctionDescription) -> Seq<Name> {
    match f.local_variables {
        Some(list) => list@,
        None => Seq::empty(),
    }
}

/// The labels of a user function, each with its line.
pub open spec fn labels(f: &FunctionDescription) -> Seq<(String, LineNumber)> {
    match f.implementation_class {
        FunctionImplementation::User(body) => body.labels@,
        FunctionImplementation::System(_) => Seq::empty(),
    }
}

/// The bindings that are made on entry into a user function, in the
/// order in which they are made: the function's own name, empty; the
/// formal arguments; the declared locals, empty; the labels.
pub open spec fn bindings(f: &FunctionDescription, actuals: Seq<Value>) -> Seq<Binding> {
    seq![fresh(f.name@, Value::Empty)] + Seq::new(
        actuals.len(),
        |i: int| argument_binding(formals(f)[i], actuals[i]),
    ) + Seq::new(declared(f).len(), |i: int| fresh(declared(f)[i]@, Value::Empty)) + Seq::new(
        labels(f).len(),
        |i: int| fresh(labels(f)[i].0@, Value::Int(line_value(labels(f)[i].1))),
    )
}

/// The last of the bindings of a name, whatever the case of its
/// letters: a later binding of a name replaces an earlier one.
pub open spec fn last_binding(made: Seq<Binding>, name: Seq<char>) -> Option<int>
    decreases made.len(),
{
    if made.len() == 0 {
        None
    } else if lower(made.last().name) == lower(name) {
        Some(made.len() - 1)
    } else {
        last_binding(made.drop_last(), name)
    }
}

/// Whether local variables are what bindings make them: a name is a
/// local variable just when it was bound, and its cell is the one that
/// its last binding shares, or else a cell made since the store had
/// `fresh_from` cells, with a copy of the value that binding had in the
/// store `origin`.
pub open spec fn bound(
    locals: SymbolTable<VariableDescription>,
    origin: Store,
    store: Store,
    fresh_from: nat,
    made: Seq<Binding>,
) -> bool {
    forall|name: Seq<char>|
        match #[trigger] last_binding(made, name) {
            None => !locals.has(name),
            Some(k) => {
                let cell = locals.item(name).cell;
                &&& locals.has(name)
                &&& cell < store.cells().len()
                &&& match made[k].shared {
                    Some(c) => cell == c,
                    None => cell >= fresh_from && copies(&origin, &store, fresh_from, made[k].value, store.value_at(cell), DEPTH as nat),
                }
            },
        }
}

/// The message for a user function that takes any number of arguments.
pub open spec fn varying_message(name: Seq<char>) -> Seq<char> {
    "Variable length argument lists are not supported for user function "@ + name
}

/// Makes one local variable of the function that is run.
fn bind(
    workspace: &mut WorkSpace,
    name: Name,
    shared: Option<usize>,
    value: Value,
    Ghost(like): Ghost<Value>,
    Ghost(origin): Ghost<Store>,
    Ghost(fresh_from): Ghost<nat>,
    Ghost(made): Ghost<Seq<Binding>>,
)
    requires
        origin.wf(),
        origin.holds(like),
        old(workspace).store().extends(&origin),
        fresh_from == origin.cells().len(),
        forall|k: int| 0 <= k < made.len() ==> origin.holds(#[trigger] made[k].value),
        copies(&origin, &old(workspace).store(), fresh_from, like, value, DEPTH as nat),
        old(workspace).wf(),
        old(workspace).locals() is Some,
        old(workspace).store().holds(value),
        shared matches Some(c) ==> c < old(workspace).store().cells().len(),
        fresh_from <= old(workspace).store().cells().len(),
        bound(old(workspace).locals()->0, origin, old(workspace).store(), fresh_from, made),
    ensures
        final(workspace).wf(),
        final(workspace).locals() is Some,
        bound(
            final(workspace).locals()->0,
            origin,
            final(workspace).store(),
            fresh_from,
            made.push(Binding { name: name@, shared: shared, value: like }),
        ),
        final(workspace).store().extends(&old(workspace).store()),
        final(workspace).frames().len() == old(workspace).frames().len(),
        final(workspace).frames().drop_last() == old(workspace).frames().drop_last(),
        final(workspace).frames().last().executable() == old(workspace).frames().last().executable(),
        final(workspace).frames().last().base() == old(workspace).frames().last().base(),
        final(workspace).frames().last().state() == old(workspace).frames().last().state(),
        final(workspace).frames().last().next() == old(workspace).frames().last().next(),
        final(workspace).frames().last().block()->0.function_name == old(workspace).frames().last().block()->0.function_name,
        final(workspace).values() == old(workspace).values(),
        final(workspace).last_value() == old(workspace).last_value(),
        final(workspace).variables() == old(workspace).variables(),
        final(workspace).datatypes() == old(workspace).datatypes(),
        final(workspace).user_functions() == old(workspace).user_functions(),
        final(workspace).system_functions() == old(workspace).system_functions(),
        final(workspace).selectors() == old(workspace).selectors(),
        final(workspace).sentinal() == old(workspace).sentinal(),
{
    let ghost binding = Binding { name: name@, shared: shared, value: like };
    let ghost spelling = name@;
    let cell = match shared {
        Some(c) => c,
        None => workspace.new_cell(value),
    };
    let ghost middle = *workspace;
    workspace.add_local(name, cell);
    proof {
        let before = old(workspace).locals()->0;
        let after = workspace.locals()->0;
        let store = workspace.store();
        let grown = made.push(binding);
        assert(grown.drop_last() =~= made);
        assert forall|other: Seq<char>|
            match #[trigger] last_binding(grown, other) {
                None => !after.has(other),
                Some(k) => {
                    let cell = after.item(other).cell;
                    &&& after.has(other)
                    &&& cell < store.cells().len()
                    &&& match grown[k].shared {
                        Some(c) => cell == c,
                        None => cell >= fresh_from && copies(&origin, &store, fresh_from, grown[k].value, store.value_at(cell), DEPTH as nat),
                    }
                },
            } by {
            if lower(other) == lower(spelling) {
                assert(after.has(spelling));
                assert(after.has(other));
                assert(after.item(other) == after.item(spelling));
                if shared is None {
                    lemma_extends_keeps(&store, &old(workspace).store(), origin.envelopes().len() as nat);
                    lemma_copies_kept(
                        &origin,
                        &origin,
                        &old(workspace).store(),
                        &store,
                        fresh_from,
                        fresh_from,
                        like,
                        value,
                        DEPTH as nat,
                    );
                }
            } else {
                assert(last_binding(grown, other) == last_binding(made, other));
                match last_binding(made, other) {
                    None => {},
                    Some(k) => {
                        lemma_last_binding_in_range(made, other);
                        let c = before.item(other).cell;
                        assert(c < old(workspace).store().cells().len());
                        lemma_value_kept(&old(workspace).store(), &store, c);
                        if made[k].shared is None {
                            lemma_extends_keeps(&store, &old(workspace).store(), origin.envelopes().len() as nat);
                            lemma_copies_kept(
                                &origin,
                                &origin,
                                &old(workspace).store(),
                                &store,
                                fresh_from,
                                fresh_from,
                                made[k].value,
                                old(workspace).store().value_at(c),
                                DEPTH as nat,
                            );
                        }
                    },
                }
            }
        }
    }
}

/// Local variables that are what bindings make them stay so while the store grows.
pub proof fn lemma_bound_kept(
    locals: SymbolTable<VariableDescription>,
    origin: &Store,
    before: &Store,
    after: &Store,
    fresh_from: nat,
    made: Seq<Binding>,
)
    requires
        origin.wf(),
        before.wf(),
        after.extends(before),
        forall|k: int| 0 <= k < made.len() ==> origin.holds(#[trigger] made[k].value),
        bound(locals, *origin, *before, fresh_from, made),
    ensures
        bound(locals, *origin, *after, fresh_from, made),
{
    assert forall|name: Seq<char>|
        match #[trigger] last_binding(made, name) {
            None => !locals.has(name),
            Some(k) => {
                let cell = locals.item(name).cell;
                &&& locals.has(name)
                &&& cell < after.cells().len()
                &&& match made[k].shared {
                    Some(c) => cell == c,
                    None => cell >= fresh_from && copies(origin, after, fresh_from, made[k].value, after.value_at(cell), DEPTH as nat),
                }
            },
        } by {
        match last_binding(made, name) {
            None => {},
            Some(k) => {
                let cell = locals.item(name).cell;
                lemma_last_binding_in_range(made, name);
                lemma_value_kept(before, after, cell);
                if made[k].shared is None {
                    lemma_extends_keeps(after, before, origin.envelopes().len() as nat);
                    lemma_copies_kept(
                        origin,
                        origin,
                        before,
                        after,
                        fresh_from,
                        fresh_from,
                        made[k].value,
                        before.value_at(cell),
                        DEPTH as nat,
                    );
                }
            },
        }
    }
}

/// The last binding of a name is one of the bindings.
pub proof fn lemma_last_binding_in_range(made: Seq<Binding>, name: Seq<char>)
    ensures
        last_binding(made, name) matches Some(k) ==> 0 <= k < made.len() && lower(made[k].name) == lower(name),
    decreases made.len(),
{
    if made.len() > 0 && lower(made.last().name) != lower(name) {
        lemma_last_binding_in_range(made.drop_last(), name);
    }
}

/// A line number as the integer that a label holds.
pub fn line_as_int(line: LineNumber) -> (r: i32)
    ensures
        r == line_value(line),
{
    if line <= 0x7fff_ffff {
        line as i32
    } else {
        let wide: i64 = line as i64;
        (wide - 0x1_0000_0000) as i32
    }
}

/// Enters a user function: starts a frame for it and makes its local
/// variables. A function without statements is not entered, and a
/// function that takes any number of arguments is refused.
pub fn prepare_udf(f: &FunctionDescription, actual_argument_values: &Vec<Value>, workspace: &mut WorkSpace) -> (r:
    Result<Value, String>)
    requires
        old(workspace).wf(),
        f.implementation_class matches FunctionImplementation::User(body) && body.executable.wf(),
        actual_argument_values@.len() <= formals(f).len() || f.arguments is Varying,
        forall|i: int|
            0 <= i < actual_argument_values@.len() ==> old(workspace).store().holds(
                #[trigger] actual_argument_values@[i],
            ),
    ensures
        final(workspace).wf(),
        final(workspace).store().extends(&old(workspace).store()),
        final(workspace).values() == old(workspace).values(),
        final(workspace).last_value() == old(workspace).last_value(),
        final(workspace).variables() == old(workspace).variables(),
        final(workspace).datatypes() == old(workspace).datatypes(),
        final(workspace).user_functions() == old(workspace).user_functions(),
        final(workspace).system_functions() == old(workspace).system_functions(),
        final(workspace).selectors() == old(workspace).selectors(),
        f.implementation_class matches FunctionImplementation::User(body) && match r {
            Ok(v) => {
                &&& v == Value::Empty
                &&& (body.executable.statements().len() == 0 || f.arguments is Fixed)
                &&& if body.executable.statements().len() == 0 {
                    &&& final(workspace).frames() == old(workspace).frames()
                    &&& final(workspace).store() == old(workspace).store()
                    &&& final(workspace).sentinal() == old(workspace).sentinal()
                } else {
                    &&& final(workspace).frames().len() == old(workspace).frames().len() + 1
                    &&& final(workspace).frames().drop_last() == old(workspace).frames()
                    &&& final(workspace).frames().last().executable().same_program(&body.executable)
                    &&& final(workspace).frames().last().base() == old(workspace).values().len()
                    &&& final(workspace).frames().last().next() == 0
                    &&& final(workspace).frames().last().block() is Some
                    &&& final(workspace).frames().last().block()->0.function_name@ == f.name@
                    &&& bound(
                        final(workspace).frames().last().block()->0.variable_symbol_table,
                        old(workspace).store(),
                        final(workspace).store(),
                        old(workspace).store().cells().len() as nat,
                        bindings(f, actual_argument_values@),
                    )
                    &&& !final(workspace).sentinal().requested()
                }
            },
            Err(e) => {
                &&& body.executable.statements().len() > 0
                &&& f.arguments is Varying
                &&& e@ == varying_message(f.name@)
                &&& final(workspace).frames() == old(workspace).frames()
                &&& final(workspace).store() == old(workspace).store()
                &&& final(workspace).sentinal() == old(workspace).sentinal()
            },
        },
{
    let body = match &f.implementation_class {
        FunctionImplementation::User(body) => body,
        FunctionImplementation::System(_) => {
            return Ok(Value::Empty);
        },
    };
    if body.executable.get_statement_count() < 1 {
        return Ok(Value::Empty);
    }
    let formal_args = match &f.arguments {
        FunctionArgumentList::Fixed(list) => list,
        FunctionArgumentList::Varying(_) => {
            let mut message = String::from_str("Variable length argument lists are not supported for user function ");
            message.append(f.name.as_str());
            return Err(message);
        },
    };
    let ghost fresh_from = workspace.store().cells().len() as nat;
    let ghost all = bindings(f, actual_argument_values@);
    workspace.start_user_function(f.name.clone(), body.executable.duplicate());
    let ghost entered = *workspace;
    proof {
        let table = workspace.locals()->0;
        assert forall|name: Seq<char>| !table.has(name) by {
            crate::symbols::lemma_key_index(table.keys(), lower(name));
        }
        assert(bound(table, old(workspace).store(), workspace.store(), fresh_from, Seq::empty()));
    }

    let ghost mut made: Seq<Binding> = Seq::empty();
    bind(workspace, f.name.clone(), None, Value::Empty, Ghost(Value::Empty), Ghost(old(workspace).store()), Ghost(fresh_from), Ghost(made));
    proof {
        made = made.push(fresh(f.name@, Value::Empty));
        assert(made =~= all.subrange(0, 1));
    }

    let mut i: usize = 0;
    while i < actual_argument_values.len()
        invariant
            i <= actual_argument_values.len(),
            actual_argument_values@.len() <= formal_args@.len(),
            formal_args@ == formals(f),
            all == bindings(f, actual_argument_values@),
            made == all.subrange(0, 1 + i as int),
            workspace.wf(),
            workspace.locals() is Some,
            fresh_from == old(workspace).store().cells().len(),
            bound(workspace.locals()->0, old(workspace).store(), workspace.store(), fresh_from, made),
            forall|k: int| 0 <= k < made.len() ==> old(workspace).store().holds(#[trigger] made[k].value),
            old(workspace).wf(),
            workspace.store().extends(&old(workspace).store()),
            forall|k: int|
                0 <= k < actual_argument_values@.len() ==> old(workspace).store().holds(
                    #[trigger] actual_argument_values@[k],
                ),
            same_frame(workspace, &entered),
        decreases actual_argument_values.len() - i,
    {
        let formal = &formal_args[i];
        let actual = &actual_argument_values[i];
        let shared = match (&formal.mechanism, actual) {
            (ArgumentMechanism::ByReference, Value::Symbol(symbol)) => match symbol.as_symbol() {
                GeneralSymbol::Variable(v) => Some(v.cell),
                _ => None,
            },
            _ => None,
        };
        proof {
            assert(old(workspace).store().holds(*actual));
            assert(shared == shared_cell(*formal, *actual));
            lemma_still_held(&old(workspace).store(), &workspace.store(), *actual);
            if shared is Some {
                assert(actual.cells()[0] == shared->0);
            }
        }
        let ghost before = *workspace;
        let ghost before = *workspace;
        let copy = workspace.copy_value(actual);
        proof {
            lemma_extends_twice(&old(workspace).store(), &before.store(), &workspace.store());
            lemma_extends_keeps(&workspace.store(), &workspace.store(), old(workspace).store().envelopes().len() as nat);
            lemma_copies_kept(
                &before.store(),
                &old(workspace).store(),
                &workspace.store(),
                &workspace.store(),
                before.store().cells().len() as nat,
                fresh_from,
                *actual,
                copy,
                DEPTH as nat,
            );
            assert(bound(workspace.locals()->0, old(workspace).store(), workspace.store(), fresh_from, made)) by {
                lemma_bound_kept(
                    before.locals()->0,
                    &old(workspace).store(),
                    &before.store(),
                    &workspace.store(),
                    fresh_from,
                    made,
                );
            }
        }
        bind(
            workspace,
            formal.name.clone(),
            shared,
            copy,
            Ghost(*actual),
            Ghost(old(workspace).store()),
            Ghost(fresh_from),
            Ghost(made),
        );
        proof {
            lemma_extends_twice(&old(workspace).store(), &before.store(), &workspace.store());
            made = made.push(argument_binding(*formal, *actual));
            assert(made =~= all.subrange(0, 2 + i as int));
        }
        i += 1;
    }

    let ghost after_arguments: int = 1 + actual_argument_values@.len() as int;
    if let Some(local_variables) = &f.local_variables {
        let mut i: usize = 0;
        while i < local_variables.len()
            invariant
                i <= local_variables.len(),
                local_variables@ == declared(f),
                all == bindings(f, actual_argument_values@),
                after_arguments == 1 + actual_argument_values@.len(),
                made == all.subrange(0, after_arguments + i as int),
                workspace.wf(),
                workspace.locals() is Some,
                fresh_from == old(workspace).store().cells().len(),
                bound(workspace.locals()->0, old(workspace).store(), workspace.store(), fresh_from, made),
            forall|k: int| 0 <= k < made.len() ==> old(workspace).store().holds(#[trigger] made[k].value),
            old(workspace).wf(),
                workspace.store().extends(&old(workspace).store()),
                same_frame(workspace, &entered),
            decreases local_variables.len() - i,
        {
            let ghost before = *workspace;
            bind(workspace, local_variables[i].clone(), None, Value::Empty, Ghost(Value::Empty), Ghost(old(workspace).store()), Ghost(fresh_from), Ghost(made));
            proof {
                lemma_extends_twice(&old(workspace).store(), &before.store(), &workspace.store());
                made = made.push(fresh(local_variables@[i as int]@, Value::Empty));
                assert(made =~= all.subrange(0, after_arguments + i as int + 1));
            }
            i += 1;
        }
    }
    let ghost after_locals: int = after_arguments + declared(f).len();
    assert(made == all.subrange(0, after_locals));

    let mut i: usize = 0;
    while i < body.labels.len()
        invariant
            i <= body.labels.len(),
            body.labels@ == labels(f),
            all == bindings(f, actual_argument_values@),
            after_locals == 1 + actual_argument_values@.len() + declared(f).len(),
            made == all.subrange(0, after_locals + i as int),
            workspace.wf(),
            workspace.locals() is Some,
            fresh_from == old(workspace).store().cells().len(),
            bound(workspace.locals()->0, old(workspace).store(), workspace.store(), fresh_from, made),
            forall|k: int| 0 <= k < made.len() ==> old(workspace).store().holds(#[trigger] made[k].value),
            old(workspace).wf(),
            workspace.store().extends(&old(workspace).store()),
            same_frame(workspace, &entered),
        decreases body.labels.len() - i,
    {
        let ghost before = *workspace;
        let name = Name::from_string(&body.labels[i].0);
        let value = Value::Int(line_as_int(body.labels[i].1));
        bind(workspace, name, None, value, Ghost(value), Ghost(old(workspace).store()), Ghost(fresh_from), Ghost(made));
        proof {
            lemma_extends_twice(&old(workspace).store(), &before.store(), &workspace.store());
            made = made.push(fresh(body.labels@[i as int].0@, value));
            assert(made =~= all.subrange(0, after_locals + i as int + 1));
        }
        i += 1;
    }
    assert(made =~= all);
    let ghost before = *workspace;
    workspace.clear_interrupt();
    assert(workspace.frames().drop_last() =~= old(workspace).frames());
    Ok(Value::Empty)
}

/// Whether the frame that is run is the one that was entered, but for
/// its local variables, and the rest of the workspace but the store is
/// as it was on entry.
pub open spec fn same_frame(workspace: &WorkSpace, entered: &WorkSpace) -> bool {
    &&& workspace.frames().len() == entered.frames().len()
    &&& workspace.frames().len() > 0
    &&& workspace.frames().drop_last() == entered.frames().drop_last()
    &&& workspace.frames().last().executable() == entered.frames().last().executable()
    &&& workspace.frames().last().base() == entered.frames().last().base()
    &&& workspace.frames().last().state() == entered.frames().last().state()
    &&& workspace.frames().last().next() == entered.frames().last().next()
    &&& workspace.frames().last().block() is Some
    &&& workspace.frames().last().block()->0.function_name@ == entered.frames().last().block()->0.function_name@
    &&& workspace.values() == entered.values()
    &&& workspace.last_value() == entered.last_value()
    &&& workspace.variables() == entered.variables()
    &&& workspace.datatypes() == entered.datatypes()
    &&& workspace.user_functions() == entered.user_functions()
    &&& workspace.system_functions() == entered.system_functions()
    &&& workspace.selectors() == entered.selectors()
    &&& workspace.sentinal() == entered.sentinal()
}

/// A store that extends one that extends another extends that one.
pub proof fn lemma_extends_twice(first: &Store, second: &Store, third: &Store)
    requires
        second.extends(first),
        third.extends(second),
    ensures
        third.extends(first),
{
    assert forall|c: int| 0 <= c < first.cells().len() implies #[trigger] third.cells()[c] == first.cells()[c] by {
        assert(second.cells()[c] == first.cells()[c]);
    }
    assert forall|e: int| 0 <= e < first.envelopes().len() implies (#[trigger] third.envelopes()[e]).value
        == first.envelopes()[e].value by {
        assert(second.envelopes()[e].value == first.envelopes()[e].value);
    }
}

/// A value that is at home in a store is at home in one that extends it.
pub proof fn lemma_still_held(before: &Store, after: &Store, value: Value)
    requires
        after.extends(before),
        before.holds(value),
    ensures
        after.holds(value),
{
}

/// A formal argument that goes by reference and was handed a variable
/// shares the cell of that variable, and so its envelope: what is put
/// into the one is found in the other. This holds of an argument whose
/// name no later binding takes.
pub proof fn law_reference_argument_shares_the_cell(
    f: &FunctionDescription,
    actuals: Seq<Value>,
    i: int,
    locals: SymbolTable<VariableDescription>,
    origin: Store,
    store: Store,
    fresh_from: nat,
)
    requires
        0 <= i < actuals.len() <= formals(f).len(),
        bound(locals, origin, store, fresh_from, bindings(f, actuals)),
        shared_cell(formals(f)[i], actuals[i]) is Some,
        last_binding(bindings(f, actuals), formals(f)[i].name@) == Some(1 + i),
    ensures
        locals.has(formals(f)[i].name@),
        locals.item(formals(f)[i].name@).cell == shared_cell(formals(f)[i], actuals[i])->0,
        store.value_at(locals.item(formals(f)[i].name@).cell) == store.value_at(
            shared_cell(formals(f)[i], actuals[i])->0,
        ),
{
    let made = bindings(f, actuals);
    assert(made[1 + i] == argument_binding(formals(f)[i], actuals[i]));
}

/// A formal argument that goes by value has a cell of its own, made on
/// entry, with a copy of what was handed over. This holds of an argument
/// whose name no later binding takes.
pub proof fn law_value_argument_has_a_cell_of_its_own(
    f: &FunctionDescription,
    actuals: Seq<Value>,
    i: int,
    locals: SymbolTable<VariableDescription>,
    origin: Store,
    store: Store,
    fresh_from: nat,
)
    requires
        0 <= i < actuals.len() <= formals(f).len(),
        bound(locals, origin, store, fresh_from, bindings(f, actuals)),
        formals(f)[i].mechanism is ByValue,
        last_binding(bindings(f, actuals), formals(f)[i].name@) == Some(1 + i),
    ensures
        locals.has(formals(f)[i].name@),
        locals.item(formals(f)[i].name@).cell >= fresh_from,
        copies(&origin, &store, fresh_from, actuals[i], store.value_at(locals.item(formals(f)[i].name@).cell), DEPTH as nat),
{
    let made = bindings(f, actuals);
    assert(made[1 + i] == argument_binding(formals(f)[i], actuals[i]));
}

/// On entry into a function the variable named after the function is
/// empty: a function that gives it no value returns the empty value.
/// This holds of a function none of whose arguments, locals and labels
/// has the name of the function.
pub proof fn law_function_variable_starts_empty(
    f: &FunctionDescription,
    actuals: Seq<Value>,
    locals: SymbolTable<VariableDescription>,
    origin: Store,
    store: Store,
    fresh_from: nat,
)
    requires
        bound(locals, origin, store, fresh_from, bindings(f, actuals)),
        last_binding(bindings(f, actuals), f.name@) == Some(0int),
    ensures
        locals.has(f.name@),
        store.value_at(locals.item(f.name@).cell) is Empty,
{
    let made = bindings(f, actuals);
    assert(made[0] == fresh(f.name@, Value::Empty));
}

} // verus!
