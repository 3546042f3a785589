//! What is done for a node: the choice of what a call calls, the
//! arguments of a call, and the values that nodes put on the stack.

use vstd::prelude::*;
use crate::parser::tree::{Literal, ReferenceNode};
use crate::symbols::metadata::{ArgumentMechanism, FunctionArgumentList, FunctionClass, FunctionDescription};
use crate::symbols::name::Name;
use crate::workspace::{resolves_as, WorkSpace};
use super::selection::{evaluate_identifier_by_value, Identified};
use super::value::coercion::{coerced, not_found_message};
use super::value::copy::{copies, lemma_copies_of_alike, DEPTH};
use super::value::display::{display, piece_models, say, shown, text, whole, Piece, PieceModel};
use super::value::sequence::spells;
use super::value::{lemma_alike_cells, names_alike, GeneralSymbol, SymbolicReference, Value};

verus! {

/// What a call can call.
#[derive(Clone, Copy, Debug, PartialEq, Eq, Structural)]
pub enum Candidate {
    /// The function of the user that goes by the name.
    User,
    /// One of the built-in functions that go by the name, by its place among them.
    System(usize),
    /// The datatype that goes by the name: the call makes a value of it.
    Datatype,
    /// The selector that goes by the name.
    Selector,
}

/// The message for a call of a name that nothing goes by.
pub open spec fn no_function_message(name: Seq<char>) -> Seq<char> {
    "Function '"@ + name + "' not found"@
}

/// The message for a call with a number of arguments that no function of the name takes.
pub open spec fn wrong_count_message(name: Seq<char>) -> Seq<char> {
    "Wrong number of arguments to function "@ + name
}

/// The message for a call of a function with other than the arguments it takes.
pub open spec fn incorrect_count_message(name: Seq<char>) -> Seq<char> {
    "Incorrect number of arguments to "@ + name
}

/// The first of the built-in functions of a list from index `i` on that takes `count` arguments.
pub open spec fn first_taking(list: Seq<FunctionDescription>, count: nat, i: int) -> Option<int>
    decreases list.len() - i,
{
    if i < 0 || i >= list.len() {
        None
    } else if list[i].takes(count) {
        Some(i)
    } else {
        first_taking(list, count, i + 1)
    }
}

/// What a call of a name with a number of arguments calls: the
/// function of the user, if it takes that many arguments; else the
/// first built-in function that does; else the datatype of the name;
/// else the selector. It is an error if nothing goes by the name, and
/// another if only functions do that take other numbers of arguments.
pub open spec fn chosen(workspace: &WorkSpace, name: Seq<char>, count: nat) -> Result<Candidate, Seq<char>> {
    if workspace.user_functions().has(name) && workspace.user_functions().item(name).takes(count) {
        Ok(Candidate::User)
    } else if first_taking(workspace.homonyms(name), count, 0) is Some {
        Ok(Candidate::System(first_taking(workspace.homonyms(name), count, 0)->0 as usize))
    } else if workspace.datatypes().has(name) {
        Ok(Candidate::Datatype)
    } else if workspace.selectors().has(name) {
        Ok(Candidate::Selector)
    } else if workspace.user_functions().has(name) || workspace.homonyms(name).len() > 0 {
        Err(wrong_count_message(name))
    } else {
        Err(no_function_message(name))
    }
}

/// Chooses what a call calls.
#[verifier::loop_isolation(false)]
pub fn choose_operation(workspace: &WorkSpace, name: &str, count: usize) -> (r: Result<Candidate, String>)
    requires
        workspace.wf(),
    ensures
        match (r, chosen(workspace, name@, count as nat)) {
            (Ok(a), Ok(b)) => a == b && (a matches Candidate::System(j) ==> j < workspace.homonyms(name@).len()),
            (Err(e), Err(m)) => e@ == m,
            _ => false,
        },
{
    let mut any = false;
    if let Some(f) = workspace.try_get_user_function(name) {
        if f.is_compatible_function(count) {
            return Ok(Candidate::User);
        }
        any = true;
    }
    if let Some(list) = workspace.try_get_system_functions(name) {
        let mut i: usize = 0;
        while i < list.len()
            invariant
                i <= list.len(),
                list@ == workspace.homonyms(name@),
                first_taking(list@, count as nat, i as int) == first_taking(list@, count as nat, 0),
            decreases list.len() - i,
        {
            if list[i].is_compatible_function(count) {
                return Ok(Candidate::System(i));
            }
            i += 1;
        }
        if list.len() > 0 {
            any = true;
        }
    }
    if workspace.try_get_datatype(name).is_some() {
        return Ok(Candidate::Datatype);
    }
    if workspace.try_get_selector(name).is_some() {
        return Ok(Candidate::Selector);
    }
    if any {
        let mut m = String::from_str("Wrong number of arguments to function ");
        m.append(name);
        Err(m)
    } else {
        let mut m = String::from_str("Function '");
        m.append(name);
        m.append("' not found");
        Err(m)
    }
}

/// Takes the arguments of a call from the stack, the last one from the
/// top, and hands them back in their order. A function with a fixed
/// list of arguments takes exactly that many.
pub fn assemble_argument_list(f: &FunctionDescription, actual_argument_list: &Vec<usize>, workspace: &mut WorkSpace) -> (r:
    Result<Vec<Value>, String>)
    requires
        old(workspace).wf(),
        f.takes(actual_argument_list@.len() as nat) ==> old(workspace).values().len() >= actual_argument_list@.len(),
    ensures
        final(workspace).wf(),
        final(workspace).same_but_values(old(workspace)),
        match r {
            Ok(list) => {
                &&& f.takes(actual_argument_list@.len() as nat)
                &&& list@ == old(workspace).values().subrange(
                    old(workspace).values().len() - actual_argument_list@.len(),
                    old(workspace).values().len() as int,
                )
                &&& final(workspace).values() == old(workspace).values().take(
                    old(workspace).values().len() - actual_argument_list@.len(),
                )
                &&& forall|i: int| 0 <= i < list@.len() ==> final(workspace).store().holds(#[trigger] list@[i])
            },
            Err(e) => {
                &&& !f.takes(actual_argument_list@.len() as nat)
                &&& e@ == incorrect_count_message(f.name@)
                &&& final(workspace).values() == old(workspace).values()
            },
        },
{
    if !f.is_compatible_function(actual_argument_list.len()) {
        let mut m = String::from_str("Incorrect number of arguments to ");
        m.append(f.name.as_str());
        return Err(m);
    }
    let result = take_values(workspace, actual_argument_list.len());
    Ok(result)
}

/// Takes values from the stack, the last one from the top, and hands
/// them back in the order in which they were pushed.
pub fn take_values(workspace: &mut WorkSpace, count: usize) -> (r: Vec<Value>)
    requires
        old(workspace).wf(),
        old(workspace).values().len() >= count,
    ensures
        final(workspace).wf(),
        final(workspace).same_but_values(old(workspace)),
        r@ == old(workspace).values().subrange(
            old(workspace).values().len() - count,
            old(workspace).values().len() as int,
        ),
        final(workspace).values() == old(workspace).values().take(old(workspace).values().len() - count),
        forall|i: int| 0 <= i < r@.len() ==> final(workspace).store().holds(#[trigger] r@[i]),
{
    let ghost stack = old(workspace).values();
    let mut reversed: Vec<Value> = Vec::new();
    let mut i: usize = 0;
    assert(stack.take(stack.len() as int) =~= stack);
    while i < count
        invariant
            i <= count <= stack.len(),
            stack == old(workspace).values(),
            workspace.wf(),
            workspace.same_but_values(old(workspace)),
            workspace.values() == stack.take(stack.len() - i),
            reversed@.len() == i,
            forall|k: int| 0 <= k < i ==> #[trigger] reversed@[k] == stack[stack.len() - 1 - k],
            forall|k: int| 0 <= k < i ==> workspace.store().holds(#[trigger] reversed@[k]),
        decreases count - i,
    {
        let v = workspace.pop_value();
        assert(workspace.values() =~= stack.take(stack.len() - i - 1));
        reversed.push(v);
        i += 1;
    }
    let mut result: Vec<Value> = Vec::new();
    let mut left: usize = count;
    while left > 0
        invariant
            left <= count,
            reversed@.len() == left,
            result@.len() == count - left,
            count <= stack.len(),
            forall|k: int| 0 <= k < left ==> #[trigger] reversed@[k] == stack[stack.len() - 1 - k],
            forall|k: int| 0 <= k < left ==> workspace.store().holds(#[trigger] reversed@[k]),
            forall|k: int| 0 <= k < result@.len() ==> #[trigger] result@[k] == stack[stack.len() - count + k],
            forall|k: int| 0 <= k < result@.len() ==> workspace.store().holds(#[trigger] result@[k]),
        decreases left,
    {
        let v = reversed.pop().unwrap();
        result.push(v);
        left -= 1;
    }
    assert(result@ =~= stack.subrange(stack.len() - count, stack.len() as int));
    result
}

/// The value of a literal that is no character string.
pub open spec fn plain_literal(literal: Literal) -> Value {
    match literal {
        Literal::Char(c) => Value::Char(c),
        Literal::Int(i) => Value::Int(i),
        Literal::Real(r) => Value::Real(r),
        Literal::Double(d) => Value::Double(d),
        Literal::Text(_) => Value::Empty,
    }
}

/// Pushes the value of a literal: for a text the character string of
/// the text, made of cells of its own.
pub fn execute_value(literal: &Literal, workspace: &mut WorkSpace) -> (r: Result<(), String>)
    requires
        old(workspace).wf(),
    ensures
        r is Ok,
        final(workspace).wf(),
        final(workspace).store().extends(&old(workspace).store()),
        final(workspace).values().len() == old(workspace).values().len() + 1,
        final(workspace).values().drop_last() == old(workspace).values(),
        match *literal {
            Literal::Text(t) => spells(&final(workspace).store(), final(workspace).values().last(), t@),
            _ => final(workspace).values().last() == plain_literal(*literal) && final(workspace).store() == old(workspace).store(),
        },
        final(workspace).frames() == old(workspace).frames(),
        final(workspace).variables() == old(workspace).variables(),
        final(workspace).last_value() == old(workspace).last_value(),
        final(workspace).datatypes() == old(workspace).datatypes(),
        final(workspace).selectors() == old(workspace).selectors(),
        final(workspace).user_functions() == old(workspace).user_functions(),
        final(workspace).system_functions() == old(workspace).system_functions(),
{
    let v = match literal {
        Literal::Char(c) => Value::Char(*c),
        Literal::Int(i) => Value::Int(*i),
        Literal::Real(x) => Value::Real(*x),
        Literal::Double(x) => Value::Double(*x),
        Literal::Text(t) => workspace.make_string(t.as_str()),
    };
    workspace.push_value(v);
    assert(workspace.values().drop_last() =~= old(workspace).values());
    Ok(())
}

/// Pushes a name with what it stands for at this time: a variable,
/// local before global; else a datatype; else a selector; else a
/// function; else nothing.
pub fn execute_identifier_by_value(r: &ReferenceNode, workspace: &mut WorkSpace) -> (done: Result<(), String>)
    requires
        old(workspace).wf(),
    ensures
        done is Ok,
        final(workspace).wf(),
        final(workspace).same_but_values(old(workspace)),
        final(workspace).values().len() == old(workspace).values().len() + 1,
        final(workspace).values().drop_last() == old(workspace).values(),
        final(workspace).values().last() matches Value::Symbol(symbol) && symbol.referred_name@ == r.name()
            && resolves_as(symbol.resolution, old(workspace).resolved(r.name()), r.name()),
{
    let name = r.as_string();
    let resolution = workspace.try_get_any(name.as_str());
    let ghost found = resolution;
    let v = Value::Symbol(SymbolicReference { referred_name: r.as_name(), resolution: resolution });
    proof {
        if let GeneralSymbol::Variable(d) = found {
            assert(v.cells() =~= seq![d.cell]);
        }
    }
    workspace.push_value(v);
    assert(workspace.values().drop_last() =~= old(workspace).values());
    Ok(())
}

/// Pushes a name with what it stands for at this time, for a function
/// that takes the name and not its value.
pub fn execute_identifier_by_reference(r: &ReferenceNode, workspace: &mut WorkSpace) -> (done: Result<(), String>)
    requires
        old(workspace).wf(),
    ensures
        done is Ok,
        final(workspace).wf(),
        final(workspace).same_but_values(old(workspace)),
        final(workspace).values().len() == old(workspace).values().len() + 1,
        final(workspace).values().drop_last() == old(workspace).values(),
        final(workspace).values().last() matches Value::Symbol(symbol) && symbol.referred_name@ == r.name()
            && resolves_as(symbol.resolution, old(workspace).resolved(r.name()), r.name()),
{
    execute_identifier_by_value(r, workspace)
}

/// Which argument of which call a value on the stack is: the name of
/// what is called, the number of its arguments, and the place of this
/// one among them, counted from zero.
#[derive(Debug)]
pub struct ArgumentDescription {
    pub function_name: Name,
    pub argument_count: usize,
    pub argument_number: usize,
}

/// What is done to a value that is an argument of a call.
pub enum Rule {
    /// It is left as it is: the argument goes by reference, or nothing
    /// that takes so many arguments goes by the name.
    Leave,
    /// It is made to fit the datatype of a name.
    Fit(Seq<char>),
    /// It is made a value: a name and a reference give way to what they stand for.
    Unwrap,
    /// It is refused.
    Refuse(Seq<char>),
}

/// The function that a call of a name with a number of arguments is
/// taken to call where its arguments are made ready: the function of
/// the user, if it takes that many, else the first built-in function
/// that does.
pub open spec fn callee(workspace: &WorkSpace, name: Seq<char>, count: nat) -> Option<FunctionDescription> {
    if workspace.user_functions().has(name) && workspace.user_functions().item(name).takes(count) {
        Some(workspace.user_functions().item(name))
    } else {
        match first_taking(workspace.homonyms(name), count, 0) {
            Some(i) => Some(workspace.homonyms(name)[i]),
            None => None,
        }
    }
}

/// What is done to an argument of a call: an argument that goes by
/// value is made to fit the datatype of the formal argument in its
/// place, or made a value where the function takes any number of
/// arguments; one that goes by reference is left as it is.
pub open spec fn rule_for(workspace: &WorkSpace, arg: ArgumentDescription) -> Rule {
    match callee(workspace, arg.function_name@, arg.argument_count as nat) {
        None => Rule::Leave,
        Some(f) => match f.arguments {
            FunctionArgumentList::Fixed(formals) => if arg.argument_number >= formals@.len() {
                Rule::Refuse(incorrect_count_message(f.name@))
            } else if formals@[arg.argument_number as int].mechanism is ByValue {
                Rule::Fit(formals@[arg.argument_number as int].datatype@)
            } else {
                Rule::Leave
            },
            FunctionArgumentList::Varying(mechanism) => if mechanism is ByValue {
                Rule::Unwrap
            } else {
                Rule::Leave
            },
        },
    }
}

/// What is done to an argument of a call, as it is found.
enum Found {
    Leave,
    Fit(String),
    Unwrap,
    Refuse(String),
}

fn rule_of_function(f: &FunctionDescription, arg: &ArgumentDescription) -> (r: Found)
    ensures
        match (
            r,
            match f.arguments {
                FunctionArgumentList::Fixed(formals) => if arg.argument_number >= formals@.len() {
                    Rule::Refuse(incorrect_count_message(f.name@))
                } else if formals@[arg.argument_number as int].mechanism is ByValue {
                    Rule::Fit(formals@[arg.argument_number as int].datatype@)
                } else {
                    Rule::Leave
                },
                FunctionArgumentList::Varying(mechanism) => if mechanism is ByValue {
                    Rule::Unwrap
                } else {
                    Rule::Leave
                },
            },
        ) {
            (Found::Leave, Rule::Leave) => true,
            (Found::Fit(a), Rule::Fit(b)) => a@ == b,
            (Found::Unwrap, Rule::Unwrap) => true,
            (Found::Refuse(a), Rule::Refuse(b)) => a@ == b,
            _ => false,
        },
{
    match &f.arguments {
        FunctionArgumentList::Fixed(formals) => {
            if arg.argument_number >= formals.len() {
                let mut m = String::from_str("Incorrect number of arguments to ");
                m.append(f.name.as_str());
                Found::Refuse(m)
            } else {
                match formals[arg.argument_number].mechanism {
                    ArgumentMechanism::ByValue => Found::Fit(formals[arg.argument_number].datatype.as_string()),
                    _ => Found::Leave,
                }
            }
        },
        FunctionArgumentList::Varying(mechanism) => match mechanism {
            ArgumentMechanism::ByValue => Found::Unwrap,
            _ => Found::Leave,
        },
    }
}

#[verifier::loop_isolation(false)]
fn find_rule(workspace: &WorkSpace, arg: &ArgumentDescription) -> (r: Found)
    requires
        workspace.wf(),
    ensures
        match (r, rule_for(workspace, *arg)) {
            (Found::Leave, Rule::Leave) => true,
            (Found::Fit(a), Rule::Fit(b)) => a@ == b,
            (Found::Unwrap, Rule::Unwrap) => true,
            (Found::Refuse(a), Rule::Refuse(b)) => a@ == b,
            _ => false,
        },
{
    let name = arg.function_name.as_str();
    if let Some(f) = workspace.try_get_user_function(name) {
        if f.is_compatible_function(arg.argument_count) {
            return rule_of_function(f, arg);
        }
    }
    if let Some(list) = workspace.try_get_system_functions(name) {
        let mut i: usize = 0;
        while i < list.len()
            invariant
                i <= list.len(),
                first_taking(list@, arg.argument_count as nat, i as int) == first_taking(
                    list@,
                    arg.argument_count as nat,
                    0,
                ),
            decreases list.len() - i,
        {
            if list[i].is_compatible_function(arg.argument_count) {
                return rule_of_function(&list[i], arg);
            }
            i += 1;
        }
    }
    Found::Leave
}

/// What is said of a selector where a value is asked for.
pub open spec fn selector_refused(workspace: &WorkSpace, v: Value) -> Seq<PieceModel> {
    shown(&workspace.store(), v, Seq::empty(), whole(&workspace.store())) + text(" is not a value"@)
}

/// Whether a workspace is what another becomes, and a result what
/// comes of it, when the value on top of the stack is made a value: a
/// selector is refused; a name comes to what it stands for, and the
/// name of a function to the call of the function, for which the value
/// is taken off; a reference to a cell and a link give way to a copy
/// of what they stand for; any other value stays.
pub open spec fn unwrapped(before: &WorkSpace, after: &WorkSpace, r: Result<Option<Name>, Vec<Piece>>) -> bool {
    let top = before.values().last();
    let under = before.values().drop_last();
    let from = before.store().cells().len() as nat;
    match top {
        Value::Selector(_) => r matches Err(e) && piece_models(e@) == selector_refused(before, top)
            && after.values() == under && after.store() == before.store(),
        Value::Symbol(symbol) => match symbol.resolution {
            GeneralSymbol::Variable(d) => r matches Ok(None) && after.values().len() == before.values().len()
                && after.values().drop_last() == under && copies(
                &before.store(),
                &after.store(),
                from,
                before.store().value_at(d.cell),
                after.values().last(),
                DEPTH as nat,
            ),
            GeneralSymbol::Datatype(n) => r matches Ok(None) && after.values().len() == before.values().len()
                && after.values().drop_last() == under && spells(&after.store(), after.values().last(), n@),
            GeneralSymbol::Selector(n) => if before.selectors().has(n@) {
                &&& r matches Ok(None)
                &&& after.values().len() == before.values().len()
                &&& after.values().drop_last() == under
                &&& after.values().last() matches Value::Selector(s)
                &&& s.member@ == before.selectors().item(n@).member@
                &&& names_alike(s.structures@, before.selectors().item(n@).structures@)
            } else {
                r matches Err(e) && piece_models(e@) == text(not_found_message(n@)) && after.values() == under
            },
            GeneralSymbol::Function(n) => r matches Ok(Some(f)) && f@ == n@ && after.values() == under
                && after.store() == before.store(),
            GeneralSymbol::Unresolved(n) => r matches Err(e) && piece_models(e@) == text(not_found_message(n@))
                && after.values() == under && after.store() == before.store(),
        },
        Value::ValueByReference(c) => r matches Ok(None) && after.values().len() == before.values().len()
            && after.values().drop_last() == under && copies(
            &before.store(),
            &after.store(),
            from,
            before.store().value_at(c.cell),
            after.values().last(),
            DEPTH as nat,
        ),
        Value::LogicalLink(e) => r matches Ok(None) && after.values().len() == before.values().len()
            && after.values().drop_last() == under && copies(
            &before.store(),
            &after.store(),
            from,
            before.store().envelopes()[e as int].value,
            after.values().last(),
            DEPTH as nat,
        ),
        _ => r matches Ok(None) && after.values() == before.values() && after.store() == before.store(),
    }
}

/// Whether a workspace is what another becomes, and a result what
/// comes of it, when the value on top of the stack is made to fit the
/// datatype of a name: a copy of what the value becomes for the
/// datatype takes its place; where it does not fit, or there is no such
/// datatype, it is taken off, or left, and the store is as it was.
pub open spec fn fitted(
    before: &WorkSpace,
    after: &WorkSpace,
    datatype: Seq<char>,
    r: Result<Option<Name>, Vec<Piece>>,
) -> bool {
    if !before.datatypes().has(datatype) {
        r matches Err(e) && piece_models(e@) == text(not_found_message(datatype)) && after.values() == before.values()
            && after.store() == before.store()
    } else {
        match coerced(
            &before.store(),
            &before.datatypes(),
            before.datatypes().item(datatype).root(),
            before.values().last(),
        ) {
            Ok(want) => r matches Ok(None) && after.values().len() == before.values().len()
                && after.values().drop_last() == before.values().drop_last() && copies(
                &before.store(),
                &after.store(),
                before.store().cells().len() as nat,
                want,
                after.values().last(),
                DEPTH as nat,
            ),
            Err(m) => r matches Err(e) && piece_models(e@) == m && after.values() == before.values().drop_last()
                && after.store() == before.store(),
        }
    }
}

/// Makes the value on top of the stack ready as an argument of a call:
/// an argument that goes by value is made to fit the datatype of its
/// formal argument, or made a value where the function takes any
/// number of arguments. Hands back the name of a function that is to be
/// called without arguments for the value.
pub fn execute_resolve_parameter(arg: &ArgumentDescription, workspace: &mut WorkSpace) -> (r: Result<
    Option<Name>,
    Vec<Piece>,
>)
    requires
        old(workspace).wf(),
        old(workspace).values().len() > 0,
    ensures
        final(workspace).wf(),
        final(workspace).store().extends(&old(workspace).store()),
        final(workspace).frames() == old(workspace).frames(),
        final(workspace).variables() == old(workspace).variables(),
        final(workspace).datatypes() == old(workspace).datatypes(),
        final(workspace).selectors() == old(workspace).selectors(),
        final(workspace).user_functions() == old(workspace).user_functions(),
        final(workspace).system_functions() == old(workspace).system_functions(),
        final(workspace).last_value() == old(workspace).last_value(),
        match rule_for(old(workspace), *arg) {
            Rule::Leave => r matches Ok(None) && final(workspace).values() == old(workspace).values() && final(workspace).store() == old(workspace).store(),
            Rule::Refuse(m) => r matches Err(e) && piece_models(e@) == text(m) && final(workspace).values() == old(workspace).values() && final(workspace).store() == old(workspace).store(),
            Rule::Fit(datatype) => fitted(old(workspace), final(workspace), datatype, r),
            Rule::Unwrap => unwrapped(old(workspace), final(workspace), r),
        },
{
    match find_rule(workspace, arg) {
        Found::Leave => Ok(None),
        Found::Refuse(m) => Err(say(m)),
        Found::Fit(datatype) => {
            if workspace.try_get_datatype(datatype.as_str()).is_none() {
                let mut m = datatype;
                m.append(" not found");
                return Err(say(m));
            }
            let v = workspace.pop_value();
            match workspace.coerce_value(datatype.as_str(), &v) {
                Ok(w) => {
                    workspace.push_value(w);
                    assert(workspace.values().drop_last() =~= old(workspace).values().drop_last());
                    Ok(None)
                },
                Err(e) => Err(e),
            }
        },
        Found::Unwrap => {
            let v = workspace.pop_value();
            let ghost under = workspace.values();
            match v {
                Value::Selector(_) => {
                    let mut e = display(workspace.as_store(), &v);
                    let ghost shown_before = piece_models(e@);
                    e.push(Piece::Text(String::from_str(" is not a value")));
                    assert(piece_models(e@) =~= shown_before + text(" is not a value"@));
                    Err(e)
                },
                Value::Symbol(symbol) => match evaluate_identifier_by_value(&symbol, workspace) {
                    Ok(Identified::Value(w)) => {
                        workspace.push_value(w);
                        assert(workspace.values().drop_last() =~= under);
                        Ok(None)
                    },
                    Ok(Identified::Call(f)) => Ok(Some(f)),
                    Err(e) => Err(say(e)),
                },
                Value::ValueByReference(c) => {
                    assert(v.cells()[0] == c.cell);
                    let held = workspace.as_store().get(c.cell).duplicate();
                    proof {
                        lemma_alike_cells(held, workspace.store().value_at(c.cell));
                    }
                    let w = workspace.copy_value(&held);
                    proof {
                        lemma_copies_of_alike(
                            &old(workspace).store(),
                            &workspace.store(),
                            old(workspace).store().cells().len() as nat,
                            held,
                            old(workspace).store().value_at(c.cell),
                            w,
                            DEPTH as nat,
                        );
                    }
                    workspace.push_value(w);
                    assert(workspace.values().drop_last() =~= under);
                    Ok(None)
                },
                Value::LogicalLink(e) => {
                    let held = workspace.as_store().get_envelope(e).duplicate();
                    proof {
                        lemma_alike_cells(held, workspace.store().envelopes()[e as int].value);
                    }
                    let w = workspace.copy_value(&held);
                    proof {
                        lemma_copies_of_alike(
                            &old(workspace).store(),
                            &workspace.store(),
                            old(workspace).store().cells().len() as nat,
                            held,
                            old(workspace).store().envelopes()[e as int].value,
                            w,
                            DEPTH as nat,
                        );
                    }
                    workspace.push_value(w);
                    assert(workspace.values().drop_last() =~= under);
                    Ok(None)
                },
                other => {
                    workspace.push_value(other);
                    assert(workspace.values() =~= old(workspace).values());
                    Ok(None)
                },
            }
        },
    }
}

/// What a built-in function leaves on the stack: what it returned, or
/// the empty value where it returned nothing, if it is one that returns
/// a value; and nothing if it is not.
pub open spec fn left_by(class: FunctionClass, result: Option<Value>) -> Seq<Value> {
    if class.returns_value() {
        seq![
            match result {
                Some(v) => v,
                None => Value::Empty,
            },
        ]
    } else {
        Seq::empty()
    }
}

/// Ends the call of a built-in function: pushes what it returned, if
/// it is one that returns a value. The stack is then one deeper than it
/// was for such a function, and as deep as it was for any other.
pub fn push_result(class: FunctionClass, result: Option<Value>, workspace: &mut WorkSpace)
    requires
        old(workspace).wf(),
        result matches Some(v) ==> old(workspace).store().holds(v),
    ensures
        final(workspace).wf(),
        final(workspace).same_but_values(old(workspace)),
        final(workspace).values() == old(workspace).values() + left_by(class, result),
        final(workspace).values().len() == old(workspace).values().len() + if class.returns_value() {
            1int
        } else {
            0int
        },
{
    if class.is_value_returning() {
        let v = match result {
            Some(v) => v,
            None => Value::Empty,
        };
        workspace.push_value(v);
        assert(workspace.values() =~= old(workspace).values() + left_by(class, result));
    } else {
        assert(workspace.values() =~= old(workspace).values() + left_by(class, result));
    }
}

} // verus!
