//! The definition of datatypes and functions.

use vstd::prelude::*;
use crate::parser::tree::{DefinitionNode, DefinitionType, SequenceDefinition, StructureDefinition};
use crate::symbols::datatype::RootDataType;
use crate::symbols::metadata::{
    FormalArgument,
    FunctionArgumentList,
    FunctionBody,
    FunctionDescription,
    FunctionImplementation,
    MetaAlternate,
    MetaDataType,
    MetaDataTypeName,
    MetaSequence,
    MetaStructure,
    MetaStructureMember,
    SelectorDescription,
};
use crate::symbols::name::Name;
use crate::text::lower;
use crate::workspace::WorkSpace;
use super::system_functions::table::arguments_model;
use super::value::display::{piece_models, say, shown, text, whole, Piece, PieceModel};
use super::value::{names_alike, GeneralSymbol, Value};

verus! {

/// The message for a name that stands for something already.
pub open spec fn already_defined_message(name: Seq<char>) -> Seq<char> {
    name + " is already defined"@
}

/// The message for the name of a function that stands for something already.
pub open spec fn already_exists_message(name: Seq<char>) -> Seq<char> {
    name + " already exists"@
}

/// The labels of a function as plain data.
pub open spec fn label_models(labels: Seq<(String, u32)>) -> Seq<(Seq<char>, u32)> {
    Seq::new(labels.len(), |i: int| (labels[i].0@, labels[i].1))
}

/// Whether a function is a copy of another.
pub open spec fn same_function(a: FunctionDescription, b: FunctionDescription) -> bool {
    &&& a.name@ == b.name@
    &&& arguments_model(a.arguments) == arguments_model(b.arguments)
    &&& match (a.local_variables, b.local_variables) {
        (Some(x), Some(y)) => names_alike(x@, y@),
        (None, None) => true,
        _ => false,
    }
    &&& match (a.return_value, b.return_value) {
        (Some(x), Some(y)) => x@ == y@,
        (None, None) => true,
        _ => false,
    }
    &&& a.help_text@ == b.help_text@
    &&& match (a.implementation_class, b.implementation_class) {
        (FunctionImplementation::System(x), FunctionImplementation::System(y)) => x == y,
        (FunctionImplementation::User(x), FunctionImplementation::User(y)) => x.executable.wf()
            && x.executable.same_program(&y.executable) && label_models(x.labels@) == label_models(y.labels@),
        _ => false,
    }
}

/// A copy of a function. The copy of a function of the user shares the
/// nodes of its body.
pub fn copy_function(f: &FunctionDescription) -> (r: FunctionDescription)
    requires
        f.implementation_class matches FunctionImplementation::User(body) ==> body.executable.wf(),
    ensures
        same_function(r, *f),
{
    let arguments = match &f.arguments {
        FunctionArgumentList::Fixed(list) => {
            let mut copy: Vec<FormalArgument> = Vec::new();
            let mut i: usize = 0;
            while i < list.len()
                invariant
                    i <= list.len(),
                    copy@.len() == i,
                    forall|k: int|
                        0 <= k < i ==> (#[trigger] copy@[k]).name@ == list@[k].name@ && copy@[k].mechanism
                            == list@[k].mechanism && copy@[k].datatype@ == list@[k].datatype@,
                decreases list.len() - i,
            {
                copy.push(
                    FormalArgument {
                        name: list[i].name.clone(),
                        mechanism: list[i].mechanism,
                        datatype: list[i].datatype.clone(),
                    },
                );
                i += 1;
            }
            let r = FunctionArgumentList::Fixed(copy);
            assert(arguments_model(r)->Fixed_0 =~= arguments_model(f.arguments)->Fixed_0);
            r
        },
        FunctionArgumentList::Varying(m) => FunctionArgumentList::Varying(*m),
    };
    let local_variables = match &f.local_variables {
        Some(list) => {
            let mut copy: Vec<Name> = Vec::new();
            let mut i: usize = 0;
            while i < list.len()
                invariant
                    i <= list.len(),
                    copy@.len() == i,
                    forall|k: int| 0 <= k < i ==> (#[trigger] copy@[k])@ == list@[k]@,
                decreases list.len() - i,
            {
                copy.push(list[i].clone());
                i += 1;
            }
            Some(copy)
        },
        None => None,
    };
    let implementation_class = match &f.implementation_class {
        FunctionImplementation::System(c) => FunctionImplementation::System(*c),
        FunctionImplementation::User(body) => {
            let mut labels: Vec<(String, u32)> = Vec::new();
            let mut i: usize = 0;
            while i < body.labels.len()
                invariant
                    i <= body.labels.len(),
                    labels@.len() == i,
                    forall|k: int|
                        0 <= k < i ==> (#[trigger] labels@[k]).0@ == body.labels@[k].0@ && labels@[k].1
                            == body.labels@[k].1,
                decreases body.labels.len() - i,
            {
                labels.push((body.labels[i].0.clone(), body.labels[i].1));
                i += 1;
            }
            assert(label_models(labels@) =~= label_models(body.labels@));
            FunctionImplementation::User(FunctionBody { executable: body.executable.duplicate(), labels: labels })
        },
    };
    FunctionDescription {
        name: f.name.clone(),
        arguments: arguments,
        local_variables: local_variables,
        return_value: match &f.return_value {
            Some(t) => Some(t.clone()),
            None => None,
        },
        implementation_class: implementation_class,
        help_text: f.help_text.clone(),
    }
}

/// The name that a value names a datatype by: the name of a name.
pub open spec fn named_by(v: Value) -> Option<Seq<char>> {
    match v {
        Value::Symbol(symbol) => match symbol.resolution {
            GeneralSymbol::Datatype(n) => Some(n@),
            GeneralSymbol::Function(n) => Some(n@),
            GeneralSymbol::Selector(n) => Some(n@),
            _ => Some(symbol.referred_name@),
        },
        _ => None,
    }
}

/// What is said of a value that names no datatype.
pub open spec fn names_nothing(workspace: &WorkSpace, v: Value) -> Seq<PieceModel> {
    shown(&workspace.store(), v, Seq::empty(), whole(&workspace.store())) + text(" is not the name of a datatype"@)
}

/// The first of the top `count` values of a stack, from the top down
/// from `i` below it, that names no datatype.
pub open spec fn first_unnamed(values: Seq<Value>, count: int, i: int) -> Option<int>
    decreases count - i,
{
    if i < 0 || i >= count {
        None
    } else if named_by(values[values.len() - 1 - i]) is None {
        Some(i)
    } else {
        first_unnamed(values, count, i + 1)
    }
}

/// Defines a datatype that is one of several: takes the names of the
/// alternatives from the stack, the last one first.
#[verifier::loop_isolation(false)]
fn execute_alternate_definition(name: &String, alternates: &Vec<usize>, workspace: &mut WorkSpace) -> (r: Result<
    (),
    Vec<Piece>,
>)
    requires
        old(workspace).wf(),
        old(workspace).values().len() >= alternates@.len(),
    ensures
        final(workspace).wf(),
        final(workspace).last_value() == old(workspace).last_value(),
        final(workspace).store() == old(workspace).store(),
        final(workspace).variables() == old(workspace).variables(),
        final(workspace).frames() == old(workspace).frames(),
        final(workspace).system_functions() == old(workspace).system_functions(),
        final(workspace).user_functions() == old(workspace).user_functions(),
        final(workspace).selectors() == old(workspace).selectors(),
        match first_unnamed(old(workspace).values(), alternates@.len() as int, 0) {
            Some(i) => {
                &&& r matches Err(e)
                &&& piece_models(e@) == names_nothing(
                    old(workspace),
                    old(workspace).values()[old(workspace).values().len() - 1 - i],
                )
                &&& final(workspace).values() == old(workspace).values().take(
                    old(workspace).values().len() - 1 - i,
                )
                &&& final(workspace).datatypes() == old(workspace).datatypes()
            },
            None => {
                &&& r is Ok
                &&& final(workspace).values() == old(workspace).values().take(
                    old(workspace).values().len() - alternates@.len(),
                )
                &&& final(workspace).datatypes().has(name@)
                &&& final(workspace).datatypes().item(name@).name() == name@
                &&& final(workspace).datatypes().item(name@).root() matches RootDataType::Alternate(a)
                &&& a.name@ == name@
                &&& a.members@.len() == alternates@.len()
                &&& forall|i: int|
                    0 <= i < alternates@.len() ==> Some((#[trigger] a.members@[i])@) == named_by(
                        old(workspace).values()[old(workspace).values().len() - 1 - i],
                    )
                &&& forall|other: Seq<char>|
                    lower(other) != lower(name@) ==> final(workspace).datatypes().has(other) == old(workspace).datatypes().has(other) && (old(workspace).datatypes().has(other) ==> final(workspace).datatypes().item(other) == old(workspace).datatypes().item(other))
            },
        },
{
    let ghost stack = old(workspace).values();
    let ghost count = alternates@.len() as int;
    let mut members: Vec<MetaDataTypeName> = Vec::new();
    let mut i: usize = 0;
    assert(stack.take(stack.len() as int) =~= stack);
    while i < alternates.len()
        invariant
            i <= alternates.len(),
            workspace.wf(),
            workspace.same_but_values(old(workspace)),
            workspace.values() == stack.take(stack.len() - i),
            members@.len() == i,
            first_unnamed(stack, count, i as int) == first_unnamed(stack, count, 0),
            forall|k: int| 0 <= k < i ==> Some((#[trigger] members@[k])@) == named_by(stack[stack.len() - 1 - k]),
        decreases alternates.len() - i,
    {
        let v = workspace.pop_value();
        assert(v == stack[stack.len() - 1 - i]);
        assert(workspace.values() =~= stack.take(stack.len() - 1 - i));
        let member = match &v {
            Value::Symbol(symbol) => match &symbol.resolution {
                GeneralSymbol::Datatype(n) => MetaDataTypeName::from_str(n.as_str()),
                GeneralSymbol::Function(n) => MetaDataTypeName::from_str(n.as_str()),
                GeneralSymbol::Selector(n) => MetaDataTypeName::from_str(n.as_str()),
                _ => MetaDataTypeName::from_string(&symbol.as_string()),
            },
            _ => {
                let mut e = super::value::display::display(workspace.as_store(), &v);
                let ghost before = piece_models(e@);
                e.push(Piece::Text(String::from_str(" is not the name of a datatype")));
                assert(piece_models(e@) =~= before + text(" is not the name of a datatype"@));
                return Err(e);
            },
        };
        members.push(member);
        i += 1;
    }
    let datatype = MetaDataType::from_string(
        name,
        RootDataType::Alternate(MetaAlternate::new(name.as_str(), members)),
    );
    workspace.add_datatype(name.as_str(), datatype);
    Ok(())
}

/// The selectors that there are when a structure with fields has been
/// defined: a selector for each field, which lists the structure
/// behind the structures that it listed already.
pub open spec fn selects(workspace: &WorkSpace, name: Seq<char>, field: Seq<char>) -> bool {
    &&& workspace.selectors().has(field)
    &&& workspace.selectors().item(field).structures@.len() > 0
    &&& workspace.selectors().item(field).structures@.last()@ == name
}

fn execute_sequence_definition(name: &String, def: &SequenceDefinition, workspace: &mut WorkSpace)
    requires
        old(workspace).wf(),
    ensures
        final(workspace).wf(),
        final(workspace).same_but_tables(old(workspace)),
        final(workspace).system_functions() == old(workspace).system_functions(),
        final(workspace).user_functions() == old(workspace).user_functions(),
        final(workspace).selectors() == old(workspace).selectors(),
        final(workspace).datatypes().has(name@),
        final(workspace).datatypes().item(name@).name() == name@,
        final(workspace).datatypes().item(name@).root() matches RootDataType::Sequence(d) && d.name@ == name@
            && d.lower_index_bound == def.lower_bound && d.upper_index_bound == def.upper_bound && d.member_type@
            == def.root_datatype_name@,
        forall|other: Seq<char>|
            lower(other) != lower(name@) ==> final(workspace).datatypes().has(other) == old(workspace).datatypes().has(other) && (old(workspace).datatypes().has(other) ==> final(workspace).datatypes().item(
                other,
            ) == old(workspace).datatypes().item(other)),
{
    let datatype = MetaDataType::from_string(
        name,
        RootDataType::Sequence(
            MetaSequence {
                name: Name::from_string(name),
                lower_index_bound: def.lower_bound,
                upper_index_bound: def.upper_bound,
                member_type: MetaDataTypeName::from_string(&def.root_datatype_name.as_string()),
            },
        ),
    );
    workspace.add_datatype(name.as_str(), datatype);
}

/// Defines a structure: for each field the selector of its name lists
/// the structure, and the datatype is added.
fn execute_structure_definition(name: &String, def: &StructureDefinition, workspace: &mut WorkSpace)
    requires
        old(workspace).wf(),
    ensures
        final(workspace).wf(),
        final(workspace).same_but_tables(old(workspace)),
        final(workspace).system_functions() == old(workspace).system_functions(),
        final(workspace).user_functions() == old(workspace).user_functions(),
        final(workspace).datatypes().has(name@),
        final(workspace).datatypes().item(name@).name() == name@,
        final(workspace).datatypes().item(name@).root() matches RootDataType::Structure(d) && d.name@ == name@
            && d.members@.len() == def.members@.len() && forall|i: int|
            0 <= i < def.members@.len() ==> (#[trigger] d.members@[i]).name@ == def.members@[i].name@
                && d.members@[i].data_type@ == def.members@[i].datatype@,
        forall|other: Seq<char>|
            lower(other) != lower(name@) ==> final(workspace).datatypes().has(other) == old(workspace).datatypes().has(other) && (old(workspace).datatypes().has(other) ==> final(workspace).datatypes().item(
                other,
            ) == old(workspace).datatypes().item(other)),
        forall|i: int| 0 <= i < def.members@.len() ==> selects(final(workspace), name@, #[trigger] def.members@[i].name@),
{
    let mut members: Vec<MetaStructureMember> = Vec::new();
    let mut i: usize = 0;
    while i < def.members.len()
        invariant
            i <= def.members.len(),
            workspace.wf(),
            workspace.same_but_tables(old(workspace)),
            workspace.system_functions() == old(workspace).system_functions(),
            workspace.user_functions() == old(workspace).user_functions(),
            workspace.datatypes() == old(workspace).datatypes(),
            members@.len() == i,
            forall|k: int|
                0 <= k < i ==> (#[trigger] members@[k]).name@ == def.members@[k].name@ && members@[k].data_type@
                    == def.members@[k].datatype@,
            forall|k: int| 0 <= k < i ==> selects(workspace, name@, #[trigger] def.members@[k].name@),
        decreases def.members.len() - i,
    {
        let field = &def.members[i];
        members.push(
            MetaStructureMember {
                name: field.name.clone(),
                data_type: MetaDataTypeName::from_string(&field.datatype.as_string()),
            },
        );
        let ghost before = *workspace;
        let mut structures: Vec<Name> = match workspace.try_get_selector(field.name.as_str()) {
            Some(selector) => copy_names(&selector.structures),
            None => Vec::new(),
        };
        structures.push(Name::from_string(name));
        workspace.add_selector(
            field.name.as_str(),
            SelectorDescription { member: Name::from_name(&field.name), structures: structures },
        );
        proof {
            assert forall|k: int| 0 <= k < i + 1 implies selects(workspace, name@, #[trigger] def.members@[k].name@) by {
                if k < i {
                    assert(selects(&before, name@, def.members@[k].name@));
                    if lower(def.members@[k].name@) == lower(field.name@) {
                        assert(workspace.selectors().has(def.members@[k].name@));
                        assert(workspace.selectors().item(def.members@[k].name@) == workspace.selectors().item(
                            field.name@,
                        ));
                    }
                }
            }
        }
        i += 1;
    }
    let datatype = MetaDataType::from_string(
        name,
        RootDataType::Structure(MetaStructure { name: Name::from_string(name), members: members }),
    );
    workspace.add_datatype(name.as_str(), datatype);
}

fn copy_names(names: &Vec<Name>) -> (r: Vec<Name>)
    ensures
        names_alike(r@, names@),
{
    let mut r: Vec<Name> = Vec::new();
    let mut i: usize = 0;
    while i < names.len()
        invariant
            i <= names.len(),
            r@.len() == i,
            forall|k: int| 0 <= k < i ==> (#[trigger] r@[k])@ == names@[k]@,
        decreases names.len() - i,
    {
        r.push(names[i].clone());
        i += 1;
    }
    r
}

/// Defines a function of the user, under a name that stands for nothing yet.
fn execute_function_definition(name: &String, def: &FunctionDescription, workspace: &mut WorkSpace) -> (r: Result<
    (),
    Vec<Piece>,
>)
    requires
        old(workspace).wf(),
        def.implementation_class matches FunctionImplementation::User(body) ==> body.executable.wf(),
    ensures
        final(workspace).wf(),
        final(workspace).same_but_tables(old(workspace)),
        final(workspace).system_functions() == old(workspace).system_functions(),
        final(workspace).datatypes() == old(workspace).datatypes(),
        final(workspace).selectors() == old(workspace).selectors(),
        if old(workspace).resolved(name@) is Unresolved {
            &&& r is Ok
            &&& final(workspace).user_functions().has(name@)
            &&& same_function(final(workspace).user_functions().item(name@), *def)
            &&& forall|other: Seq<char>|
                lower(other) != lower(name@) ==> final(workspace).user_functions().has(other) == old(workspace).user_functions().has(other) && (old(workspace).user_functions().has(other) ==> final(workspace).user_functions().item(other) == old(workspace).user_functions().item(other))
        } else {
            &&& r matches Err(e)
            &&& piece_models(e@) == text(already_exists_message(name@))
            &&& final(workspace).user_functions() == old(workspace).user_functions()
        },
{
    match workspace.try_get_any(name.as_str()) {
        GeneralSymbol::Unresolved(_) => {
            workspace.add_user_function(name.as_str(), copy_function(def));
            Ok(())
        },
        _ => {
            let mut m = name.clone();
            m.append(" already exists");
            Err(say(m))
        },
    }
}

/// Defines what a definition defines: a datatype that is one of
/// several, a sequence or a structure, or a function. The name must not
/// stand for a datatype, a function of the user, a selector or a global
/// variable already.
pub fn execute_definition(d: &DefinitionNode, workspace: &mut WorkSpace) -> (r: Result<(), Vec<Piece>>)
    requires
        old(workspace).wf(),
        d.class() matches DefinitionType::Alternate(list) ==> old(workspace).values().len() >= list@.len(),
        d.class() matches DefinitionType::Function(f) ==> (f.implementation_class matches FunctionImplementation::User(
            body,
        ) ==> body.executable.wf()),
    ensures
        final(workspace).wf(),
        final(workspace).store() == old(workspace).store(),
        final(workspace).variables() == old(workspace).variables(),
        final(workspace).frames() == old(workspace).frames(),
        final(workspace).system_functions() == old(workspace).system_functions(),
        if old(workspace).defines(d.name()) {
            &&& r matches Err(e)
            &&& piece_models(e@) == text(already_defined_message(d.name()))
            &&& final(workspace).values() == old(workspace).values()
            &&& final(workspace).datatypes() == old(workspace).datatypes()
            &&& final(workspace).user_functions() == old(workspace).user_functions()
            &&& final(workspace).selectors() == old(workspace).selectors()
        } else {
            match d.class() {
                DefinitionType::Alternate(list) => match first_unnamed(
                    old(workspace).values(),
                    list@.len() as int,
                    0,
                ) {
                    Some(i) => {
                        &&& r matches Err(e)
                        &&& piece_models(e@) == names_nothing(
                            old(workspace),
                            old(workspace).values()[old(workspace).values().len() - 1 - i],
                        )
                    },
                    None => {
                        &&& r is Ok
                        &&& final(workspace).datatypes().has(d.name())
                        &&& final(workspace).datatypes().item(d.name()).root() matches RootDataType::Alternate(a)
                        &&& a.members@.len() == list@.len()
                        &&& forall|i: int|
                            0 <= i < list@.len() ==> Some((#[trigger] a.members@[i])@) == named_by(
                                old(workspace).values()[old(workspace).values().len() - 1 - i],
                            )
                    },
                },
                DefinitionType::Function(f) => if old(workspace).resolved(d.name()) is Unresolved {
                    &&& r is Ok
                    &&& final(workspace).user_functions().has(d.name())
                    &&& same_function(final(workspace).user_functions().item(d.name()), f)
                } else {
                    &&& r matches Err(e)
                    &&& piece_models(e@) == text(already_exists_message(d.name()))
                },
                DefinitionType::Sequence(def) => {
                    &&& r is Ok
                    &&& final(workspace).datatypes().has(d.name())
                    &&& final(workspace).datatypes().item(d.name()).root() matches RootDataType::Sequence(t)
                    &&& t.lower_index_bound == def.lower_bound
                    &&& t.upper_index_bound == def.upper_bound
                    &&& t.member_type@ == def.root_datatype_name@
                },
                DefinitionType::Structure(def) => {
                    &&& r is Ok
                    &&& final(workspace).datatypes().has(d.name())
                    &&& final(workspace).datatypes().item(d.name()).root() matches RootDataType::Structure(t)
                    &&& t.members@.len() == def.members@.len()
                    &&& forall|i: int|
                        0 <= i < def.members@.len() ==> (#[trigger] t.members@[i]).name@ == def.members@[i].name@
                            && t.members@[i].data_type@ == def.members@[i].datatype@
                    &&& forall|i: int|
                        0 <= i < def.members@.len() ==> selects(
                            final(workspace),
                            d.name(),
                            #[trigger] def.members@[i].name@,
                        )
                },
            }
        },
{
    let name = d.as_string();
    if workspace.contains_any(name.as_str()) {
        let mut m = name;
        m.append(" is already defined");
        return Err(say(m));
    }
    match d.get() {
        DefinitionType::Alternate(alternates) => execute_alternate_definition(&name, alternates, workspace),
        DefinitionType::Function(function_definition) => execute_function_definition(
            &name,
            function_definition,
            workspace,
        ),
        DefinitionType::Sequence(sequence_definition) => {
            execute_sequence_definition(&name, sequence_definition, workspace);
            Ok(())
        },
        DefinitionType::Structure(structure_definition) => {
            execute_structure_definition(&name, structure_definition, workspace);
            Ok(())
        },
    }
}

} // verus!
