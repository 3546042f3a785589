use ppl::execution::construction::construct;
use ppl::execution::definition::execute_definition;
use ppl::execution::dispatch::{
    assemble_argument_list, choose_operation, execute_identifier_by_value, execute_value, take_values, Candidate,
};
use ppl::execution::functions::prepare_udf;
use ppl::execution::runtime::invocation::ExecutionState;
use ppl::execution::selection::{
    evaluate_identifier_by_value, execute_selection_by_reference, execute_selection_by_reference_internal,
    execute_selector, Identified,
};
use ppl::execution::statements::{execute_exec_return, execute_function_return, execute_statement_end, Ended};
use ppl::execution::system_functions::assignment::{assign, noncopy, validate_value};
use ppl::execution::system_functions::control::{branch, cbranch, cgoto, goto};
use ppl::execution::value::coercion::coerce;
use ppl::execution::value::copy::copy;
use ppl::execution::value::display::{display, Piece};
use ppl::execution::value::sequence::SequenceInstance;
use ppl::execution::value::structure::{SelectorInstance, StructureInstance, StructureInstanceMember};
use ppl::execution::value::{CellReference, GeneralSymbol, Store, SymbolicReference, Value};
use ppl::lexical::{Lexer, Token, TokenType};
use ppl::parser::tree::{DefinitionNode, DefinitionType, Literal, ReferenceNode, SequenceDefinition, StructureDefinition, StructureMemberDescription};
use ppl::parser::Parser;
use ppl::symbols::datatype::{is_an_instance_of, is_assignable_to, RootDataType};
use ppl::symbols::metadata::{
    ArgumentMechanism, FormalArgument, FunctionArgumentList, FunctionBody, FunctionDescription,
    FunctionImplementation, MetaDataType, MetaDataTypeName, MetaSequence, SelectorDescription, VariableDescription,
};
use ppl::symbols::name::Name;
use ppl::workspace::WorkSpace;

fn shown(store: &Store, v: &Value) -> String {
    let mut out = String::new();
    for piece in display(store, v) {
        match piece {
            Piece::Text(t) => out += t.as_str(),
            Piece::Real(bits) => out += format!("{}", f32::from_bits(bits)).as_str(),
            Piece::Double(bits) => out += format!("{}", f64::from_bits(bits)).as_str(),
            Piece::Function(name) => out += name.as_str(),
        }
    }
    out
}

fn said(pieces: Vec<Piece>) -> String {
    let mut out = String::new();
    for piece in pieces {
        match piece {
            Piece::Text(t) => out += t.as_str(),
            Piece::Real(bits) => out += format!("{}", f32::from_bits(bits)).as_str(),
            Piece::Double(bits) => out += format!("{}", f64::from_bits(bits)).as_str(),
            Piece::Function(name) => out += name.as_str(),
        }
    }
    out
}

fn variable(ws: &WorkSpace, name: &str) -> Value {
    let d = ws.try_get_variable(name).unwrap();
    Value::Symbol(SymbolicReference { referred_name: Name::from_str(name), resolution: GeneralSymbol::Variable(d) })
}

fn unresolved(name: &str) -> Value {
    Value::Symbol(SymbolicReference {
        referred_name: Name::from_str(name),
        resolution: GeneralSymbol::Unresolved(Name::from_str(name)),
    })
}

fn tuple(ws: &mut WorkSpace, items: Vec<Value>) -> Value {
    ws.construct_value("tuple", &items).map_err(said).unwrap()
}

fn cells_of(v: &Value) -> Vec<usize> {
    match v {
        Value::Sequence(s) => s.as_values().clone(),
        Value::Structure(s) => s.as_values().iter().map(|m| m.cell).collect(),
        other => panic!("{:?}", other),
    }
}

fn with_values(mut tokens: Vec<Token>) -> Vec<Token> {
    for t in tokens.iter_mut() {
        match &mut t.token_type {
            TokenType::Real(l) | TokenType::Double(l) => {
                let v: f64 = t.string_value.parse().unwrap();
                l.bits = Some(v.to_bits());
                let _ = (v as f32).to_bits();
            },
            _ => {},
        }
    }
    tokens
}

fn function(ws: &WorkSpace, name: &str, source: &str) -> FunctionDescription {
    let tokens = with_values(Lexer::tokenize(source, ws).unwrap());
    let executable = Parser::new(source, ws).parse(&tokens).unwrap();
    for node in 0..executable.get_next_node_index() {
        if let ppl::parser::tree::Node::Definition(d) = executable.get_node(node) {
            if let DefinitionType::Function(f) = d.get() {
                assert_eq!(name, f.name.as_string());
                return ppl::execution::definition::copy_function(f);
            }
        }
    }
    panic!("no function");
}

#[test]
fn cells_that_share_an_envelope_share_their_value() {
    let mut store = Store::new();
    let a = store.new_cell(Value::Int(1));
    let b = store.new_cell_sharing(a);
    let c = store.new_cell(Value::Int(1));
    assert_eq!(store.envelope_of(a), store.envelope_of(b));
    assert_ne!(store.envelope_of(a), store.envelope_of(c));
    store.set(b, Value::Int(99));
    assert!(matches!(store.get(a), Value::Int(99)));
    assert!(matches!(store.get(b), Value::Int(99)));
    assert!(matches!(store.get(c), Value::Int(1)));
    assert_eq!(3, store.cell_count());
    assert_eq!(2, store.envelope_count());
}

#[test]
fn a_copy_has_cells_of_its_own() {
    let mut ws = WorkSpace::new();
    let inner = tuple(&mut ws, vec![Value::Int(1), Value::Int(2)]);
    let outer = tuple(&mut ws, vec![inner, Value::Int(3)]);
    let copied = ws.copy_value(&outer);
    assert_eq!("[[1, 2], 3]", shown(ws.as_store(), &copied));
    let original_cells = cells_of(&outer);
    let copied_cells = cells_of(&copied);
    assert_eq!(2, copied_cells.len());
    assert!(copied_cells.iter().all(|c| !original_cells.contains(c)));
    ws.set_cell(original_cells[1], Value::Int(30));
    assert_eq!("[[1, 2], 30]", shown(ws.as_store(), &outer));
    assert_eq!("[[1, 2], 3]", shown(ws.as_store(), &copied));
    let inner_copy = ws.as_store().get(copied_cells[0]).duplicate();
    let inner_cells = cells_of(&inner_copy);
    ws.set_cell(inner_cells[0], Value::Int(10));
    assert_eq!("[[10, 2], 3]", shown(ws.as_store(), &copied));
    assert_eq!("[[1, 2], 30]", shown(ws.as_store(), &outer));
}

#[test]
fn a_copy_of_a_reference_shares_the_envelope() {
    let mut store = Store::new();
    let target = store.new_cell(Value::Int(5));
    let holder = store.new_cell(Value::ValueByReference(CellReference {
        datatype: MetaDataTypeName::from_str("int"),
        cell: target,
    }));
    let sequence = Value::Sequence(SequenceInstance::new(MetaDataTypeName::from_str("tuple"), 1, vec![holder]));
    let copied = copy(&mut store, &sequence);
    let cell = cells_of(&copied)[0];
    assert_ne!(holder, cell);
    assert_eq!(store.envelope_of(holder), store.envelope_of(cell));
}

#[test]
fn values_are_shown_as_text() {
    let mut ws = WorkSpace::new();
    assert_eq!("true", shown(ws.as_store(), &Value::Bool(true)));
    assert_eq!("false", shown(ws.as_store(), &Value::Bool(false)));
    assert_eq!("-42", shown(ws.as_store(), &Value::Int(-42)));
    assert_eq!("Q", shown(ws.as_store(), &Value::Char('Q')));
    assert_eq!("", shown(ws.as_store(), &Value::Empty));
    let text = ws.make_string("I AM A CHARACTER STRING");
    assert_eq!("I AM A CHARACTER STRING", shown(ws.as_store(), &text));
    let list = tuple(&mut ws, vec![Value::Int(1), Value::Int(2), Value::Int(3)]);
    assert_eq!("[1, 2, 3]", shown(ws.as_store(), &list));
    let empty = tuple(&mut ws, Vec::new());
    assert_eq!("[]", shown(ws.as_store(), &empty));
    let selector = Value::Selector(SelectorInstance {
        member: Name::from_str("rp"),
        structures: vec![Name::from_str("complex"), Name::from_str("polar")],
    });
    assert_eq!("rp from {complex, polar}", shown(ws.as_store(), &selector));
    assert!(matches!(&display(ws.as_store(), &Value::Real(1.5_f32.to_bits()))[0], Piece::Real(b) if *b == 1.5_f32.to_bits()));
    assert!(matches!(&display(ws.as_store(), &Value::Double(1.5_f64.to_bits()))[0], Piece::Double(b) if *b == 1.5_f64.to_bits()));
}

#[test]
fn a_value_that_holds_itself_is_shown_with_dots() {
    let mut ws = WorkSpace::new();
    let list = tuple(&mut ws, vec![Value::Int(1), Value::Int(2), Value::Int(3)]);
    let y = ws.add_variable("y", list);
    let second = cells_of(ws.as_store().get(y))[1];
    let envelope = ws.as_store().envelope_of(y);
    ws.set_cell(second, Value::LogicalLink(envelope));
    let held = ws.as_store().get(y).duplicate();
    let result = ws.copy_value(&held);
    assert_eq!("[1, [1, ..., 3], 3]", shown(ws.as_store(), &result));
    assert_eq!("[1, ..., 3]", shown(ws.as_store(), &variable(&ws, "y")));
    ws.set_cell(second, Value::Int(99));
    assert_eq!("[1, 99, 3]", shown(ws.as_store(), &variable(&ws, "y")));
}

#[test]
fn a_link_to_itself_is_shown_with_dots() {
    let mut store = Store::new();
    let a = store.new_cell(Value::Empty);
    let e = store.envelope_of(a);
    store.set(a, Value::LogicalLink(e));
    assert_eq!("...", shown(&store, &Value::LogicalLink(e)));
}

#[test]
fn an_index_is_within_the_bounds_or_an_error() {
    let s = SequenceInstance::new(MetaDataTypeName::from_str("row"), -10, vec![0, 1, 2]);
    assert_eq!(Ok(0), s.check_and_normalize_index(-10));
    assert_eq!(Ok(2), s.check_and_normalize_index(-8));
    assert_eq!(Err(String::from("-7 is out of bounds")), s.check_and_normalize_index(-7));
    assert_eq!(Err(String::from("-11 is out of bounds")), s.check_and_normalize_index(-11));
    assert_eq!(Err(String::from("2147483647 is out of bounds")), s.check_and_normalize_index(i32::MAX));
    let empty = SequenceInstance::new(MetaDataTypeName::from_str("row"), 1, Vec::new());
    assert_eq!(Err(String::from("1 is out of bounds")), empty.check_and_normalize_index(1));
    assert_eq!(3, s.length());
    assert_eq!(-10, s.lower_bound());
    assert_eq!(None, s.upper_bound());
    assert!(SequenceInstance::bounded(MetaDataTypeName::from_str("row"), 1, Some(4), vec![0, 1, 2]).is_none());
    let bounded = SequenceInstance::bounded(MetaDataTypeName::from_str("row"), 1, Some(3), vec![0, 1, 2]).unwrap();
    assert_eq!(Some(3), bounded.upper_bound());
}

fn define_sequence(ws: &mut WorkSpace, name: &str, lower: i32, upper: Option<i32>, member: &str) {
    let definition = DefinitionNode::from_string(
        &String::from(name),
        DefinitionType::Sequence(SequenceDefinition::from_string(&String::from(member), lower, upper)),
    );
    execute_definition(&definition, ws).map_err(said).unwrap();
}

fn define_structure(ws: &mut WorkSpace, name: &str, fields: &[(&str, &str)]) {
    let members = fields
        .iter()
        .map(|(n, t)| StructureMemberDescription { name: Name::from_str(n), datatype: Name::from_str(t) })
        .collect();
    let definition = DefinitionNode::from_string(
        &String::from(name),
        DefinitionType::Structure(StructureDefinition { members: members }),
    );
    execute_definition(&definition, ws).map_err(said).unwrap();
}

#[test]
fn a_sequence_with_bounds_takes_exactly_its_cells() {
    let mut ws = WorkSpace::new();
    define_sequence(&mut ws, "row", 1, Some(4), "int");
    let four = vec![Value::Int(1), Value::Int(2), Value::Int(3), Value::Int(4)];
    let made = ws.construct_value("row", &four).map_err(said).unwrap();
    assert_eq!("[1, 2, 3, 4]", shown(ws.as_store(), &made));
    match &made {
        Value::Sequence(s) => {
            assert_eq!(4, s.length());
            assert_eq!(1, s.lower_bound());
            assert_eq!(Some(4), s.upper_bound());
            assert_eq!("row", s.as_string());
        },
        other => panic!("{:?}", other),
    }
    let three = vec![Value::Int(1), Value::Int(2), Value::Int(3)];
    assert_eq!(Err(String::from("row requires 4 elements")), ws.construct_value("row", &three).map_err(said).map(|_| ()));
    let five = vec![Value::Int(1), Value::Int(2), Value::Int(3), Value::Int(4), Value::Int(5)];
    assert_eq!(Err(String::from("row requires 4 elements")), ws.construct_value("row", &five).map_err(said).map(|_| ()));
}

#[test]
fn the_values_of_a_sequence_are_made_to_fit() {
    let mut ws = WorkSpace::new();
    define_sequence(&mut ws, "marks", 1, None, "int");
    let made = ws
        .construct_value("marks", &vec![Value::Real(3.9_f32.to_bits()), Value::Bool(true), Value::Char('7')])
        .map_err(said)
        .unwrap();
    assert_eq!("[3, 1, 7]", shown(ws.as_store(), &made));
    let cells_before = ws.as_store().cell_count();
    let r = ws.construct_value("marks", &vec![Value::Int(1), Value::Char('x')]);
    assert!(r.is_err());
    assert_eq!(cells_before, ws.as_store().cell_count());
    define_sequence(&mut ws, "lost", 1, None, "nothing");
    assert_eq!(
        Err(String::from("Datatype nothing is no longer defined")),
        ws.construct_value("lost", &vec![Value::Int(1)]).map_err(said).map(|_| ())
    );
}

#[test]
fn a_structure_takes_a_value_for_each_field() {
    let mut ws = WorkSpace::new();
    define_structure(&mut ws, "complex", &[("rp", "int"), ("ip", "int")]);
    let made = ws.construct_value("complex", &vec![Value::Int(3), Value::Int(59)]).map_err(said).unwrap();
    assert_eq!("[rp:3, ip:59]", shown(ws.as_store(), &made));
    assert_eq!(
        Err(String::from("complex has 2 members, but only 1 values were provided")),
        ws.construct_value("complex", &vec![Value::Int(3)]).map_err(said).map(|_| ())
    );
    assert!(ws.try_get_selector("rp").is_some());
    assert_eq!("complex", ws.try_get_selector("IP").unwrap().structures[0].as_string());
    define_structure(&mut ws, "polar", &[("rp", "int"), ("angle", "int")]);
    let names: Vec<String> = ws.try_get_selector("rp").unwrap().structures.iter().map(|n| n.as_string()).collect();
    assert_eq!(vec!["complex", "polar"], names);
}

#[test]
fn numbers_truth_values_and_characters_are_made_from_one_value() {
    let mut ws = WorkSpace::new();
    assert!(matches!(ws.construct_value("int", &vec![Value::Real(2.5_f32.to_bits())]), Ok(Value::Int(2))));
    assert!(matches!(ws.construct_value("bool", &vec![Value::Int(1)]), Ok(Value::Bool(true))));
    assert!(matches!(ws.construct_value("char", &vec![Value::Char('c')]), Ok(Value::Char('c'))));
    assert!(matches!(ws.construct_value("dbl", &vec![Value::Int(2)]), Ok(Value::Double(b)) if b == 2.0_f64.to_bits()));
    assert!(matches!(ws.construct_value("real", &vec![Value::Int(2)]), Ok(Value::Real(b)) if b == 2.0_f32.to_bits()));
    assert_eq!(
        Err(String::from("int() takes 1 argument")),
        ws.construct_value("int", &vec![Value::Int(1), Value::Int(2)]).map_err(said).map(|_| ())
    );
    assert_eq!(
        Err(String::from("general is not a constructor")),
        ws.construct_value("general", &vec![Value::Int(1)]).map_err(said).map(|_| ())
    );
    assert_eq!(
        Err(String::from("arith is not a constructor")),
        ws.construct_value("arith", &vec![Value::Int(1)]).map_err(said).map(|_| ())
    );
    let t = ws.try_get_datatype("int").unwrap();
    let mut store = Store::new();
    let types = ppl::symbols::SymbolTable::new();
    assert!(matches!(construct(t, &vec![Value::Int(4)], &mut store, &types), Ok(Value::Int(4))));
}

fn root_of<'a>(ws: &'a WorkSpace, name: &str) -> &'a RootDataType {
    ws.try_get_datatype(name).unwrap().root_data_type()
}

#[test]
fn datatypes_accept_what_is_theirs() {
    let mut ws = WorkSpace::new();
    define_sequence(&mut ws, "row", 1, Some(2), "int");
    let row = ws.construct_value("row", &vec![Value::Int(1), Value::Int(2)]).map_err(said).unwrap();
    let text = ws.make_string("abc");
    let types = ws.as_datatypes();
    let root = |name: &str| root_of(&ws, name);
    assert_eq!(Ok(true), is_an_instance_of(&Value::Int(3), root("int"), types));
    assert_eq!(Ok(false), is_an_instance_of(&Value::Real(3.0_f32.to_bits()), root("int"), types));
    assert_eq!(Ok(true), is_an_instance_of(&Value::Real(3.0_f32.to_bits()), root("real"), types));
    assert_eq!(Ok(false), is_an_instance_of(&Value::Real(3.0_f32.to_bits()), root("dbl"), types));
    assert_eq!(Ok(true), is_an_instance_of(&Value::Int(3), root("arith"), types));
    assert_eq!(Ok(true), is_an_instance_of(&Value::Double(1.0_f64.to_bits()), root("arith"), types));
    assert_eq!(Ok(false), is_an_instance_of(&Value::Bool(true), root("arith"), types));
    assert_eq!(Ok(true), is_an_instance_of(&Value::Bool(true), root("atomic"), types));
    assert_eq!(Ok(true), is_an_instance_of(&Value::Bool(true), root("general"), types));
    assert_eq!(Ok(true), is_an_instance_of(&row, root("row"), types));
    assert_eq!(Ok(true), is_an_instance_of(&row, root("sequence"), types));
    assert_eq!(Ok(false), is_an_instance_of(&row, root("v.sequence"), types));
    assert_eq!(Ok(true), is_an_instance_of(&text, root("v.sequence"), types));
    assert_eq!(Ok(true), is_an_instance_of(&text, root("string"), types));
    assert_eq!(Ok(false), is_an_instance_of(&row, root("string"), types));
    assert_eq!(Ok(false), is_an_instance_of(&row, root("structure"), types));
    assert_eq!(Ok(true), is_assignable_to(&Value::Real(3.0_f32.to_bits()), root("int"), types));
    assert_eq!(Ok(true), is_assignable_to(&Value::Int(3), root("dbl"), types));
    assert_eq!(Ok(true), is_assignable_to(&Value::Char('7'), root("int"), types));
    assert_eq!(Ok(false), is_assignable_to(&Value::Char('x'), root("int"), types));
    assert_eq!(Ok(true), is_assignable_to(&Value::Int(1), root("bool"), types));
    assert_eq!(Ok(false), is_assignable_to(&Value::Int(2), root("bool"), types));
    assert_eq!(Ok(true), is_assignable_to(&Value::Real(1.0_f32.to_bits()), root("bool"), types));
    assert_eq!(Ok(true), is_assignable_to(&Value::Char('T'), root("bool"), types));
    assert_eq!(Ok(false), is_assignable_to(&Value::Char('x'), root("bool"), types));
    assert_eq!(Ok(true), is_assignable_to(&Value::Bool(true), root("char"), types));
    assert_eq!(Ok(false), is_assignable_to(&Value::Int(1), root("char"), types));
    let missing = RootDataType::Sequence(MetaSequence {
        name: Name::from_str("gone"),
        lower_index_bound: 1,
        upper_index_bound: None,
        member_type: MetaDataTypeName::from_str("int"),
    });
    assert_eq!(Ok(false), is_an_instance_of(&row, &missing, types));
}

#[test]
fn an_alternate_of_a_missing_datatype_is_an_error() {
    let mut ws = WorkSpace::new();
    let symbol = |name: &str| {
        Value::Symbol(SymbolicReference {
            referred_name: Name::from_str(name),
            resolution: GeneralSymbol::Datatype(Name::from_str(name)),
        })
    };
    ws.push_value(symbol("int"));
    ws.push_value(unresolved("nowhere"));
    let definition = DefinitionNode::from_string(&String::from("either"), DefinitionType::Alternate(vec![0, 1]));
    execute_definition(&definition, &mut ws).map_err(said).unwrap();
    assert_eq!(0, ws.get_value_stack_size());
    let root = ws.try_get_datatype("either").unwrap().root_data_type();
    match root {
        RootDataType::Alternate(a) => {
            let names: Vec<String> = a.members.iter().map(|m| m.as_string()).collect();
            assert_eq!(vec!["nowhere", "int"], names);
        },
        other => panic!("{:?}", other),
    }
    assert_eq!(
        Err(String::from("Datatype nowhere not found")),
        is_an_instance_of(&Value::Int(1), root, ws.as_datatypes())
    );
}

#[test]
fn a_name_is_defined_once() {
    let mut ws = WorkSpace::new();
    define_sequence(&mut ws, "row", 1, None, "real");
    let again = DefinitionNode::from_string(
        &String::from("ROW"),
        DefinitionType::Sequence(SequenceDefinition::from_string(&String::from("int"), 1, None)),
    );
    assert_eq!(Err(String::from("ROW is already defined")), execute_definition(&again, &mut ws).map_err(said));
    ws.add_variable("x", Value::Int(1));
    let taken = DefinitionNode::from_string(
        &String::from("x"),
        DefinitionType::Structure(StructureDefinition { members: Vec::new() }),
    );
    assert_eq!(Err(String::from("x is already defined")), execute_definition(&taken, &mut ws).map_err(said));
    ws.remove("row");
    assert!(ws.try_get_datatype("row").is_none());
    assert!(execute_definition(&again, &mut ws).is_ok());
    assert!(ws.try_get_datatype("row").is_some());
}

#[test]
fn a_function_is_defined_under_a_name_that_is_free() {
    let mut ws = WorkSpace::new();
    let f = function(&ws, "double", "$double(n)\ndouble_n+n\n$");
    let definition = DefinitionNode::from_string(&String::from("double"), DefinitionType::Function(f));
    execute_definition(&definition, &mut ws).map_err(said).unwrap();
    assert!(ws.try_get_user_function("DOUBLE").is_some());
    assert_eq!(Ok(Candidate::User), choose_operation(&ws, "double", 1));
    let g = function(&ws, "print", "$print(n)\nprint_n\n$");
    let definition = DefinitionNode::from_string(&String::from("print"), DefinitionType::Function(g));
    assert_eq!(Err(String::from("print already exists")), execute_definition(&definition, &mut ws).map_err(said));
}

#[test]
fn assignment_copies_the_value() {
    let mut ws = WorkSpace::new();
    let list = tuple(&mut ws, vec![Value::Int(1), Value::Int(2)]);
    let returned = assign(&unresolved("a"), &list, &mut ws).map_err(said).unwrap();
    assert_eq!("[1, 2]", shown(ws.as_store(), &returned));
    assert_eq!("[1, 2]", shown(ws.as_store(), &variable(&ws, "a")));
    let a = ws.try_get_variable("a").unwrap().cell;
    let kept = ws.as_store().get(a).duplicate();
    assert!(cells_of(&kept).iter().all(|c| !cells_of(&list).contains(c)));
    ws.set_cell(cells_of(&list)[0], Value::Int(100));
    assert_eq!("[1, 2]", shown(ws.as_store(), &variable(&ws, "a")));
    let target = variable(&ws, "a");
    assign(&target, &Value::Int(7), &mut ws).map_err(said).unwrap();
    assert_eq!("7", shown(ws.as_store(), &variable(&ws, "a")));
    assert_eq!(a, ws.try_get_variable("A").unwrap().cell);
}

#[test]
fn assignment_reaches_every_alias() {
    let mut ws = WorkSpace::new();
    let a = ws.add_variable("a", Value::Int(1));
    let shared = {
        let cell = ws.new_cell(Value::Empty);
        cell
    };
    let _ = shared;
    let target = variable(&ws, "a");
    let reference = Value::ValueByReference(CellReference { datatype: MetaDataTypeName::from_str("general"), cell: a });
    assign(&reference, &Value::Int(5), &mut ws).map_err(said).unwrap();
    assert_eq!("5", shown(ws.as_store(), &target));
}

#[test]
fn assignment_to_a_cell_makes_the_value_fit_its_datatype() {
    let mut ws = WorkSpace::new();
    let a = ws.add_variable("a", Value::Int(1));
    let as_int = Value::ValueByReference(CellReference { datatype: MetaDataTypeName::from_str("int"), cell: a });
    assign(&as_int, &Value::Real(7.9_f32.to_bits()), &mut ws).map_err(said).unwrap();
    assert!(matches!(ws.as_store().get(a), Value::Int(7)));
    assert!(assign(&as_int, &Value::Char('x'), &mut ws).is_err());
    assert!(matches!(ws.as_store().get(a), Value::Int(7)));
    let nowhere = Value::ValueByReference(CellReference { datatype: MetaDataTypeName::from_str("nowhere"), cell: a });
    assert_eq!(Err(String::from("nowhere not found")), assign(&nowhere, &Value::Int(1), &mut ws).map_err(said).map(|_| ()));
    let text = ws.make_string("abc");
    assert_eq!(
        Err(String::from("Unable to cast to INT")),
        assign(&as_int, &text, &mut ws).map_err(said).map(|_| ())
    );
}

#[test]
fn only_what_is_a_value_can_be_assigned() {
    let mut ws = WorkSpace::new();
    ws.add_variable("a", Value::Int(1));
    let target = variable(&ws, "a");
    let selector = Value::Selector(SelectorInstance { member: Name::from_str("rp"), structures: Vec::new() });
    assert_eq!(Err(String::from("rp is not a value")), assign(&target, &selector, &mut ws).map_err(said).map(|_| ()));
    assert_eq!(Err(String::from("b not found")), assign(&target, &unresolved("b"), &mut ws).map_err(said).map(|_| ()));
    assert_eq!(Err(String::from("rp is not a value")), validate_value(&selector));
    assert_eq!(Ok(()), validate_value(&Value::Int(1)));
    let function = Value::Symbol(SymbolicReference {
        referred_name: Name::from_str("print"),
        resolution: GeneralSymbol::Function(Name::from_str("print")),
    });
    assert_eq!(
        Err(String::from("Only variables can be the target of assign")),
        assign(&function, &Value::Int(1), &mut ws).map_err(said).map(|_| ())
    );
}

#[test]
fn a_link_shows_what_the_other_holds() {
    let mut ws = WorkSpace::new();
    ws.add_variable("x", Value::Int(1));
    let x = variable(&ws, "x");
    noncopy(&unresolved("r"), &x, &mut ws).unwrap();
    assert_eq!("1", shown(ws.as_store(), &variable(&ws, "r")));
    assign(&x, &Value::Int(2), &mut ws).map_err(said).unwrap();
    assert_eq!("2", shown(ws.as_store(), &variable(&ws, "r")));
    ws.add_variable("y", Value::Int(10));
    let r = variable(&ws, "r");
    let y = variable(&ws, "y");
    noncopy(&r, &y, &mut ws).unwrap();
    assert_eq!("10", shown(ws.as_store(), &variable(&ws, "r")));
    assert_eq!("2", shown(ws.as_store(), &variable(&ws, "x")));
}

#[test]
fn a_link_is_made_to_variables_and_cells_only() {
    let mut ws = WorkSpace::new();
    ws.add_variable("x", Value::Int(1));
    let x = variable(&ws, "x");
    assert_eq!(Err(String::from("b not found")), noncopy(&x, &unresolved("b"), &mut ws).map(|_| ()));
    let function = Value::Symbol(SymbolicReference {
        referred_name: Name::from_str("print"),
        resolution: GeneralSymbol::Function(Name::from_str("print")),
    });
    assert_eq!(Err(String::from("Only variables can be the target of assign")), noncopy(&function, &x, &mut ws).map(|_| ()));
    assert_eq!(Err(String::from("Only variables can be the target of assign")), noncopy(&x, &function, &mut ws).map(|_| ()));
    let cell = ws.try_get_variable("x").unwrap().cell;
    let text = ws.make_string("abc");
    let t = ws.add_variable("t", text);
    let as_int = Value::ValueByReference(CellReference { datatype: MetaDataTypeName::from_str("int"), cell: cell });
    let to_text = Value::ValueByReference(CellReference { datatype: MetaDataTypeName::from_str("string"), cell: t });
    assert_eq!(Err(String::from("Incompatible datatype")), noncopy(&as_int, &to_text, &mut ws).map(|_| ()));
    let as_nothing = Value::ValueByReference(CellReference { datatype: MetaDataTypeName::from_str("nowhere"), cell: cell });
    assert_eq!(Err(String::from("nowhere not found")), noncopy(&as_nothing, &to_text, &mut ws).map(|_| ()));
    let as_general = Value::ValueByReference(CellReference { datatype: MetaDataTypeName::from_str("general"), cell: cell });
    assert!(noncopy(&as_general, &to_text, &mut ws).is_ok());
    assert_eq!("abc", shown(ws.as_store(), &variable(&ws, "x")));
}

#[test]
fn a_value_is_made_to_fit_a_datatype() {
    let mut ws = WorkSpace::new();
    let x = ws.add_variable("x", Value::Real(2.75_f32.to_bits()));
    let by_name = variable(&ws, "x");
    assert!(matches!(ws.coerce_value("int", &by_name), Ok(Value::Int(2))));
    let by_reference = Value::ValueByReference(CellReference { datatype: MetaDataTypeName::from_str("real"), cell: x });
    assert!(matches!(ws.coerce_value("dbl", &by_reference), Ok(Value::Double(b)) if b == 2.75_f64.to_bits()));
    let envelope = ws.as_store().envelope_of(x);
    assert!(matches!(ws.coerce_value("general", &Value::LogicalLink(envelope)), Ok(Value::Real(b)) if b == 2.75_f32.to_bits()));
    assert_eq!(Err(String::from("y not found")), ws.coerce_value("int", &unresolved("y")).map_err(said).map(|_| ()));
    let selector = Value::Selector(SelectorInstance { member: Name::from_str("rp"), structures: Vec::new() });
    assert_eq!(Err(String::from("rp is not a value")), ws.coerce_value("int", &selector).map_err(said).map(|_| ()));
    assert!(matches!(ws.coerce_value("arith", &Value::Bool(true)), Ok(Value::Bool(true))));
    let text = ws.make_string("abc");
    assert_eq!(Err(String::from("Cannot convert value")), ws.coerce_value("arith", &text).map_err(said).map(|_| ()));
    define_sequence(&mut ws, "row", 1, None, "int");
    define_sequence(&mut ws, "column", 1, None, "int");
    let row = ws.construct_value("row", &vec![Value::Int(1)]).map_err(said).unwrap();
    assert_eq!(
        Err(String::from("Cannot convert value from row to column")),
        ws.coerce_value("column", &row).map_err(said).map(|_| ())
    );
    assert_eq!(
        Err(String::from("Cannot convert value 12 to row")),
        ws.coerce_value("row", &Value::Int(12)).map_err(said).map(|_| ())
    );
    let fitted = ws.coerce_value("row", &row).map_err(said).unwrap();
    assert_eq!("[1]", shown(ws.as_store(), &fitted));
    assert!(cells_of(&fitted)[0] != cells_of(&row)[0]);
    let t = ws.try_get_datatype("int").unwrap();
    let mut store = Store::new();
    let types = ppl::symbols::SymbolTable::new();
    assert!(matches!(coerce(t.root_data_type(), &Value::Bool(true), &mut store, &types), Ok(Value::Int(1))));
}

#[test]
fn an_index_selects_a_cell_of_a_sequence() {
    let mut ws = WorkSpace::new();
    define_sequence(&mut ws, "row", 5, None, "int");
    let row = ws.construct_value("row", &vec![Value::Int(10), Value::Int(20)]).map_err(said).unwrap();
    let cells = cells_of(&row);
    let x = ws.add_variable("x", row);
    let cells_x = cells_of(ws.as_store().get(x));
    let _ = cells;
    let base = variable(&ws, "x");
    execute_selection_by_reference_internal(&base, &Value::Int(6), &mut ws).map_err(said).unwrap();
    match ws.pop_value() {
        Value::ValueByReference(r) => {
            assert_eq!(cells_x[1], r.cell);
            assert_eq!("int", r.datatype.as_string());
        },
        other => panic!("{:?}", other),
    }
    assert_eq!(
        Err(String::from("7 is out of bounds")),
        execute_selection_by_reference_internal(&base, &Value::Int(7), &mut ws).map_err(said)
    );
    assert_eq!(
        Err(String::from("4 is out of bounds")),
        execute_selection_by_reference_internal(&base, &Value::Int(4), &mut ws).map_err(said)
    );
    assert_eq!(
        Err(String::from("12 is not indexable")),
        execute_selection_by_reference_internal(&Value::Int(12), &Value::Int(1), &mut ws).map_err(said)
    );
    assert_eq!(
        Err(String::from("nothing not found")),
        execute_selection_by_reference_internal(&unresolved("nothing"), &Value::Int(1), &mut ws).map_err(said)
    );
    ws.push_value(variable(&ws, "x"));
    ws.push_value(Value::Int(5));
    execute_selection_by_reference(&mut ws).map_err(said).unwrap();
    assert_eq!(1, ws.get_value_stack_size());
    assert!(matches!(ws.pop_value(), Value::ValueByReference(r) if r.cell == cells_x[0]));
}

#[test]
fn a_selector_selects_a_field_of_a_structure() {
    let mut ws = WorkSpace::new();
    define_structure(&mut ws, "complex", &[("rp", "int"), ("ip", "int")]);
    let made = ws.construct_value("complex", &vec![Value::Int(3), Value::Int(59)]).map_err(said).unwrap();
    let fields = cells_of(&made);
    let x = ws.add_variable("x", made);
    let fields_x = cells_of(ws.as_store().get(x));
    let _ = fields;
    let selector = SelectorInstance::from_description(ws.try_get_selector("ip").unwrap());
    let base = variable(&ws, "x");
    execute_selection_by_reference_internal(&base, &Value::Selector(selector), &mut ws).map_err(said).unwrap();
    assert!(matches!(ws.pop_value(), Value::ValueByReference(r) if r.cell == fields_x[1] && r.datatype.as_string() == "int"));
    assert_eq!(
        Err(String::from("1 is not a field selector")),
        execute_selection_by_reference_internal(&base, &Value::Int(1), &mut ws).map_err(said)
    );
    let other = SelectorInstance { member: Name::from_str("angle"), structures: vec![Name::from_str("complex")] };
    assert_eq!(
        Err(String::from("complex does not have a field angle")),
        execute_selection_by_reference_internal(&base, &Value::Selector(other), &mut ws).map_err(said)
    );
    let description = SelectorDescription { member: Name::from_str("rp"), structures: vec![Name::from_str("complex")] };
    ws.push_value(variable(&ws, "x"));
    execute_selector(&description, &vec![0], &mut ws).unwrap();
    assert!(matches!(ws.pop_value(), Value::Int(3)));
    ws.push_value(Value::ValueByReference(CellReference { datatype: MetaDataTypeName::from_str("complex"), cell: x }));
    execute_selector(&description, &vec![0], &mut ws).unwrap();
    assert!(matches!(ws.pop_value(), Value::ValueByReference(r) if r.cell == fields_x[0]));
    ws.push_value(Value::Int(1));
    assert_eq!(Err(String::from("Selectors can only target a structure")), execute_selector(&description, &vec![0], &mut ws));
    assert_eq!(
        Err(String::from("Selectors can only operate on one structure")),
        execute_selector(&description, &vec![0, 1], &mut ws)
    );
    let missing = SelectorDescription { member: Name::from_str("angle"), structures: vec![Name::from_str("complex")] };
    ws.push_value(variable(&ws, "x"));
    assert_eq!(Err(String::from("complex does not have a angle field")), execute_selector(&missing, &vec![0], &mut ws));
}

#[test]
fn a_name_comes_to_what_it_stands_for() {
    let mut ws = WorkSpace::new();
    ws.add_variable("x", Value::Int(4));
    let x = match variable(&ws, "x") {
        Value::Symbol(s) => s,
        _ => unreachable!(),
    };
    assert!(matches!(evaluate_identifier_by_value(&x, &mut ws), Ok(Identified::Value(Value::Int(4)))));
    let datatype = SymbolicReference {
        referred_name: Name::from_str("int"),
        resolution: GeneralSymbol::Datatype(Name::from_str("int")),
    };
    match evaluate_identifier_by_value(&datatype, &mut ws) {
        Ok(Identified::Value(v)) => assert_eq!("int", shown(ws.as_store(), &v)),
        other => panic!("{:?}", other),
    }
    let function = SymbolicReference {
        referred_name: Name::from_str("version"),
        resolution: GeneralSymbol::Function(Name::from_str("version")),
    };
    assert!(matches!(evaluate_identifier_by_value(&function, &mut ws), Ok(Identified::Call(n)) if n.as_string() == "version"));
    let nothing = SymbolicReference {
        referred_name: Name::from_str("zz"),
        resolution: GeneralSymbol::Unresolved(Name::from_str("zz")),
    };
    assert_eq!(Err(String::from("zz not found")), evaluate_identifier_by_value(&nothing, &mut ws).map(|_| ()));
}

#[test]
fn a_call_chooses_by_the_number_of_arguments() {
    let mut ws = WorkSpace::new();
    assert!(matches!(choose_operation(&ws, "+", 2), Ok(Candidate::System(0))));
    assert!(matches!(choose_operation(&ws, "+", 1), Ok(Candidate::System(1))));
    assert!(matches!(choose_operation(&ws, "add", 2), Ok(Candidate::System(_))));
    assert_eq!(Err(String::from("Wrong number of arguments to function +")), choose_operation(&ws, "+", 3));
    assert_eq!(Err(String::from("Function 'nothing' not found")), choose_operation(&ws, "nothing", 0));
    assert_eq!(Ok(Candidate::Datatype), choose_operation(&ws, "int", 1));
    assert_eq!(Ok(Candidate::Datatype), choose_operation(&ws, "TUPLE", 3));
    define_structure(&mut ws, "complex", &[("rp", "int")]);
    assert_eq!(Ok(Candidate::Selector), choose_operation(&ws, "rp", 1));
    assert!(matches!(choose_operation(&ws, "print", 5), Ok(Candidate::System(_))));
}

#[test]
fn the_built_in_functions_are_there_from_the_start() {
    let ws = WorkSpace::new();
    for name in ["_", "__", "+", "-", "*", "/", "^", "=", "#", "<", "<=", ">", ">=", "&", "!", "==", "goto", "-->", "print", "iformat", "erase", "help", "stop", "trace", "exec", "exit"] {
        assert!(ws.try_get_function(name).is_some(), "{}", name);
    }
    assert_eq!("assign", ws.try_get_function("_").unwrap().name.as_string());
    assert_eq!("noncopy", ws.try_get_function("__").unwrap().name.as_string());
    assert!(ws.is_n_ary("+", 2));
    assert!(ws.is_n_ary("+", 1));
    assert!(!ws.is_n_ary("+", 3));
    assert!(ws.try_get_function("nothing").is_none());
    for name in ppl::symbols::metadata::get_system_datatypes() {
        assert!(ws.try_get_datatype(name.as_str()).is_some(), "{}", name);
    }
    assert!(matches!(ws.try_get_datatype("v.sequence").unwrap().root_data_type(), RootDataType::BuiltinAlternate(_)));
    assert!(matches!(ws.try_get_datatype("string").unwrap().root_data_type(), RootDataType::Sequence(s) if s.member_type.as_string() == "char" && s.lower_index_bound == 1 && s.upper_index_bound.is_none()));
    assert!(ws.is_feature_set(ppl::workspace::optional_features::Feature::LineNames));
    assert!(ws.is_feature_set(ppl::workspace::optional_features::Feature::StringEscapes));
    let plain = WorkSpace::empty();
    assert!(plain.try_get_function("+").is_none());
    assert!(plain.try_get_datatype("int").is_none());
}

#[test]
fn everything_can_be_removed_and_comes_back_as_at_the_start() {
    let mut ws = WorkSpace::new();
    ws.add_variable("x", Value::Int(1));
    define_sequence(&mut ws, "row", 1, None, "int");
    assert!(ws.contains_any("x"));
    ws.remove("x");
    assert!(!ws.contains_any("x"));
    ws.remove("+");
    assert!(ws.try_get_function("+").is_some());
    ws.add_variable("y", Value::Int(1));
    ws.remove_all();
    assert!(!ws.contains_any("y"));
    assert!(!ws.contains_any("row"));
    assert!(ws.try_get_function("+").is_some());
    assert!(ws.try_get_datatype("int").is_some());
    assert!(matches!(choose_operation(&ws, "+", 1), Ok(Candidate::System(1))));
}

#[test]
fn the_arguments_of_a_call_come_off_the_stack_in_order() {
    let mut ws = WorkSpace::new();
    for i in 1..=4 {
        ws.push_value(Value::Int(i));
    }
    let taken = take_values(&mut ws, 3);
    assert!(matches!(taken[..], [Value::Int(2), Value::Int(3), Value::Int(4)]));
    assert_eq!(1, ws.get_value_stack_size());
    let f = ppl::execution::definition::copy_function(ws.try_get_function("_").unwrap());
    assert_eq!(
        Err(String::from("Incorrect number of arguments to assign")),
        assemble_argument_list(&f, &vec![0], &mut ws).map(|_| ())
    );
    assert_eq!(1, ws.get_value_stack_size());
    ws.push_value(Value::Int(9));
    let arguments = assemble_argument_list(&f, &vec![0, 1], &mut ws).unwrap();
    assert!(matches!(arguments[..], [Value::Int(1), Value::Int(9)]));
    assert_eq!(0, ws.get_value_stack_size());
}

#[test]
fn literals_and_names_are_pushed() {
    let mut ws = WorkSpace::new();
    execute_value(&Literal::Int(5), &mut ws).unwrap();
    assert!(matches!(ws.pop_value(), Value::Int(5)));
    execute_value(&Literal::Text(String::from("dog")), &mut ws).unwrap();
    let text = ws.pop_value();
    assert_eq!("dog", shown(ws.as_store(), &text));
    ws.add_variable("x", Value::Int(1));
    execute_identifier_by_value(&ReferenceNode::from_str("X"), &mut ws).unwrap();
    assert!(matches!(ws.pop_value(), Value::Symbol(s) if matches!(s.resolution, GeneralSymbol::Variable(_)) && s.referred_name.as_string() == "X"));
    execute_identifier_by_value(&ReferenceNode::from_str("int"), &mut ws).unwrap();
    assert!(matches!(ws.pop_value(), Value::Symbol(s) if matches!(s.resolution, GeneralSymbol::Datatype(_))));
    execute_identifier_by_value(&ReferenceNode::from_str("print"), &mut ws).unwrap();
    assert!(matches!(ws.pop_value(), Value::Symbol(s) if matches!(s.resolution, GeneralSymbol::Function(_))));
    execute_identifier_by_value(&ReferenceNode::from_str("zz"), &mut ws).unwrap();
    assert!(matches!(ws.pop_value(), Value::Symbol(s) if matches!(s.resolution, GeneralSymbol::Unresolved(_))));
}

fn fixed(arguments: Vec<(&str, ArgumentMechanism)>) -> FunctionArgumentList {
    FunctionArgumentList::Fixed(
        arguments
            .into_iter()
            .map(|(n, m)| FormalArgument {
                name: Name::from_str(n),
                mechanism: m,
                datatype: MetaDataTypeName::from_str("general"),
            })
            .collect(),
    )
}

fn user_function(ws: &WorkSpace, name: &str, arguments: FunctionArgumentList, locals: Vec<&str>, labels: Vec<(&str, u32)>) -> FunctionDescription {
    let source = "a_1\nb_2";
    let tokens = Lexer::tokenize(source, ws).unwrap();
    let executable = Parser::new(source, ws).parse(&tokens).unwrap();
    FunctionDescription {
        name: Name::from_str(name),
        arguments: arguments,
        local_variables: if locals.is_empty() { None } else { Some(locals.into_iter().map(Name::from_str).collect()) },
        return_value: None,
        implementation_class: FunctionImplementation::User(FunctionBody {
            executable: executable,
            labels: labels.into_iter().map(|(n, l)| (String::from(n), l)).collect(),
        }),
        help_text: String::new(),
    }
}

#[test]
fn a_function_starts_with_its_arguments_locals_and_labels() {
    let mut ws = WorkSpace::new();
    let x = ws.add_variable("x", Value::Int(1));
    let list = tuple(&mut ws, vec![Value::Int(1), Value::Int(2)]);
    let y = ws.add_variable("y", list);
    let f = user_function(
        &ws,
        "cbr",
        fixed(vec![("a", ArgumentMechanism::ByReference), ("b", ArgumentMechanism::ByValue), ("c", ArgumentMechanism::ByReference)]),
        vec!["i"],
        vec![("again", 3)],
    );
    let actuals = vec![variable(&ws, "x"), variable(&ws, "y"), Value::Int(5)];
    ws.push_value(Value::Int(0));
    assert!(matches!(prepare_udf(&f, &actuals, &mut ws), Ok(Value::Empty)));
    let frame = ws.current_invocation().unwrap();
    assert_eq!(1, frame.get_base_stack_size());
    assert_eq!(0, frame.next_index());
    assert_eq!(ExecutionState::NotExecuting, frame.get_execution_state());
    assert_eq!("cbr", frame.get_fib().as_ref().unwrap().function_name.as_string());
    assert_eq!(x, ws.try_get_variable("a").unwrap().cell);
    let b = ws.try_get_variable("b").unwrap().cell;
    assert_ne!(y, b);
    let c = ws.try_get_variable("c").unwrap().cell;
    assert!(matches!(ws.as_store().get(c), Value::Int(5)));
    assert!(matches!(ws.as_store().get(ws.try_get_variable("cbr").unwrap().cell), Value::Empty));
    assert!(matches!(ws.as_store().get(ws.try_get_variable("i").unwrap().cell), Value::Empty));
    assert!(matches!(ws.as_store().get(ws.try_get_variable("again").unwrap().cell), Value::Int(3)));
    assert!(!ws.is_interrupted());
    let a = variable(&ws, "a");
    assign(&a, &Value::Int(34), &mut ws).map_err(said).unwrap();
    ws.end_invocation();
    assert_eq!("34", shown(ws.as_store(), &variable(&ws, "x")));
    assert!(ws.try_get_variable("a").is_none());
}

#[test]
fn an_argument_by_value_is_a_copy() {
    let mut ws = WorkSpace::new();
    let list = tuple(&mut ws, vec![Value::Int(1), Value::Int(2)]);
    ws.add_variable("y", list);
    let f = user_function(&ws, "cbv", fixed(vec![("b", ArgumentMechanism::ByValue)]), Vec::new(), Vec::new());
    let actuals = vec![variable(&ws, "y")];
    prepare_udf(&f, &actuals, &mut ws).unwrap();
    let b = ws.try_get_variable("b").unwrap().cell;
    let held = ws.as_store().get(b).duplicate();
    match held {
        Value::Symbol(s) => assert!(matches!(s.resolution, GeneralSymbol::Variable(_))),
        other => {
            let inner = cells_of(&other)[0];
            ws.set_cell(inner, Value::Int(50));
            ws.end_invocation();
            assert_eq!("[1, 2]", shown(ws.as_store(), &variable(&ws, "y")));
        },
    }
}

#[test]
fn a_function_with_any_number_of_arguments_cannot_be_entered() {
    let mut ws = WorkSpace::new();
    let f = user_function(&ws, "many", FunctionArgumentList::Varying(ArgumentMechanism::ByValue), Vec::new(), Vec::new());
    assert_eq!(
        Err(String::from("Variable length argument lists are not supported for user function many")),
        prepare_udf(&f, &Vec::new(), &mut ws).map(|_| ())
    );
    assert!(ws.current_invocation().is_none());
}

#[test]
fn a_function_without_statements_is_not_entered() {
    let mut ws = WorkSpace::new();
    let mut f = user_function(&ws, "nothing", fixed(Vec::new()), Vec::new(), Vec::new());
    f.implementation_class = FunctionImplementation::User(FunctionBody {
        executable: ppl::execution::runtime::executable::Executable::new(""),
        labels: Vec::new(),
    });
    assert!(matches!(prepare_udf(&f, &Vec::new(), &mut ws), Ok(Value::Empty)));
    assert!(ws.current_invocation().is_none());
}

#[test]
fn a_function_returns_the_variable_of_its_name() {
    let mut ws = WorkSpace::new();
    let f = user_function(&ws, "bar", fixed(Vec::new()), Vec::new(), Vec::new());
    prepare_udf(&f, &Vec::new(), &mut ws).unwrap();
    execute_function_return(&mut ws).unwrap();
    assert!(ws.current_invocation().is_none());
    assert!(matches!(ws.pop_value(), Value::Empty));
    prepare_udf(&f, &Vec::new(), &mut ws).unwrap();
    let bar = variable(&ws, "bar");
    assign(&bar, &Value::Int(1976), &mut ws).map_err(said).unwrap();
    execute_function_return(&mut ws).unwrap();
    assert!(matches!(ws.pop_value(), Value::Int(1976)));
    assert_eq!(0, ws.get_value_stack_size());
}

#[test]
fn the_end_of_a_statement_keeps_its_value() {
    let mut ws = WorkSpace::new();
    let source = "a_1\nb_2";
    let tokens = Lexer::tokenize(source, &ws).unwrap();
    let executable = Parser::new(source, &ws).parse(&tokens).unwrap();
    ws.push_value(Value::Int(100));
    ws.start_immediate_mode(executable);
    assert!(matches!(execute_statement_end(&mut ws), Ok(Ended::Done)));
    assert!(ws.get_last_statement_value().is_none());
    ws.push_value(Value::Int(7));
    assert!(matches!(execute_statement_end(&mut ws), Ok(Ended::Done)));
    assert!(matches!(ws.get_last_statement_value(), Some(Value::Int(7))));
    assert_eq!(1, ws.get_value_stack_size());
    ws.push_value(Value::Int(8));
    ws.push_value(Value::Int(9));
    assert!(matches!(execute_statement_end(&mut ws), Ok(Ended::Done)));
    assert!(matches!(ws.get_last_statement_value(), Some(Value::Int(9))));
    assert_eq!(1, ws.get_value_stack_size());
    ws.add_variable("x", Value::Int(3));
    ws.push_value(variable(&ws, "x"));
    assert!(matches!(execute_statement_end(&mut ws), Ok(Ended::Done)));
    assert!(matches!(ws.get_last_statement_value(), Some(Value::Int(3))));
    ws.push_value(unresolved("zz"));
    assert_eq!(Err(String::from("zz not found")), execute_statement_end(&mut ws).map(|_| ()));
    let selector = Value::Selector(SelectorInstance { member: Name::from_str("rp"), structures: Vec::new() });
    ws.push_value(selector);
    assert_eq!(Err(String::from("rp is not a value")), execute_statement_end(&mut ws).map(|_| ()));
    ws.push_value(Value::Symbol(SymbolicReference {
        referred_name: Name::from_str("version"),
        resolution: GeneralSymbol::Function(Name::from_str("version")),
    }));
    assert!(matches!(execute_statement_end(&mut ws), Ok(Ended::Call(n)) if n.as_string() == "version"));
    execute_exec_return(&mut ws).unwrap();
    assert!(ws.current_invocation().is_none());
    assert_eq!(2, ws.get_value_stack_size());
}

#[test]
fn a_jump_is_made_at_the_end_of_the_statement() {
    let mut ws = WorkSpace::new();
    let source = "a_1\nb_2\nc_3";
    let tokens = Lexer::tokenize(source, &ws).unwrap();
    let executable = Parser::new(source, &ws).parse(&tokens).unwrap();
    ws.start_immediate_mode(executable);
    branch(&Value::Int(2), &mut ws).unwrap();
    assert_eq!(Some(2), ws.current_invocation().unwrap().get_pending_goto_index());
    assert_eq!(0, ws.current_invocation().unwrap().next_index());
    execute_statement_end(&mut ws).unwrap();
    assert_eq!(None, ws.current_invocation().unwrap().get_pending_goto_index());
    assert_eq!(2, ws.current_invocation().unwrap().next_index());
    cbranch(&Value::Bool(false), &Value::Int(0), &mut ws).unwrap();
    assert_eq!(None, ws.current_invocation().unwrap().get_pending_goto_index());
    cbranch(&Value::Bool(true), &Value::Int(0), &mut ws).unwrap();
    assert_eq!(Some(0), ws.current_invocation().unwrap().get_pending_goto_index());
    assert!(branch(&Value::Empty, &mut ws).is_err());
    assert!(cbranch(&Value::Empty, &Value::Int(0), &mut ws).is_err());
}

#[test]
fn a_jump_to_a_line_needs_a_function() {
    let mut ws = WorkSpace::new();
    assert_eq!(
        Err(String::from("--> can only be used in immediate mode to resume a stopped function")),
        goto(&Value::Int(1), &mut ws)
    );
    let source = "a_1";
    let tokens = Lexer::tokenize(source, &ws).unwrap();
    let executable = Parser::new(source, &ws).parse(&tokens).unwrap();
    ws.start_immediate_mode(executable);
    assert!(goto(&Value::Int(1), &mut ws).is_err());
    assert!(ws.current_invocation().is_none());
    cgoto(&Value::Bool(false), &Value::Int(1), &mut ws).unwrap();
    assert!(matches!(ws.pop_value(), Value::Bool(false)));
}

#[test]
fn a_stopped_function_is_resumed_at_a_line() {
    let mut ws = WorkSpace::new();
    let f = function(&ws, "three", "$three\nthree_1\nthree_2\nthree_3\n$");
    prepare_udf(&f, &Vec::new(), &mut ws).unwrap();
    let (second, first) = {
        let executable = ws.current_invocation().unwrap().as_executable();
        (
            executable.get_statement_by_line_number(2).unwrap().as_first_node_index(),
            executable.get_statement_by_line_number(1).unwrap().as_first_node_index(),
        )
    };
    assert!(first < second);
    assert!(matches!(ppl::sequencer::next_step(&mut ws), Step::Run(_)));
    goto(&Value::Int(2), &mut ws).unwrap();
    assert!(matches!(ws.pop_value(), Value::Int(2)));
    assert_eq!(Some(second), ws.current_invocation().unwrap().get_pending_goto_index());
    ws.interrupt();
    assert!(matches!(ppl::sequencer::next_step(&mut ws), Step::Interrupted));
    assert!(!ws.is_interrupted());
    assert_eq!(ExecutionState::Stopped, ws.current_invocation().unwrap().get_execution_state());
    let source = "-->1";
    let _ = source;
    let immediate = ppl::execution::runtime::executable::Executable::new("");
    ws.start_immediate_mode(immediate);
    goto(&Value::Int(1), &mut ws).unwrap();
    let frame = ws.current_invocation().unwrap();
    assert!(frame.get_fib().is_some());
    assert_eq!(ExecutionState::Resumed, frame.get_execution_state());
    assert_eq!(first, frame.next_index());
    assert_eq!(None, frame.get_pending_goto_index());
}

use ppl::sequencer::Step;

#[test]
fn a_variable_description_names_a_cell() {
    let mut ws = WorkSpace::new();
    let cell = ws.add_variable("v", Value::Int(1));
    let d: VariableDescription = ws.try_get_variable("V").unwrap();
    assert_eq!(cell, d.cell);
    assert!(ws.try_get_variable("w").is_none());
    let t = MetaDataType::from_str("mine", RootDataType::Int);
    ws.add_datatype("mine", t);
    assert!(matches!(ws.resolve_datatype("MINE"), Ok(RootDataType::Int)));
    assert_eq!(Err(String::from("nowhere not found")), ws.resolve_datatype("nowhere").map(|_| ()));
    let s = StructureInstance::from_string(
        &String::from("pair"),
        vec![StructureInstanceMember { name: Name::from_str("a"), datatype: MetaDataTypeName::from_str("int"), cell: cell }],
    );
    assert_eq!(1, s.length());
    assert_eq!("pair", s.as_string());
}

#[test]
fn a_value_that_comes_twice_in_a_pass_is_shown_once() {
    let mut ws = WorkSpace::new();
    let inner = tuple(&mut ws, vec![Value::Int(7), Value::Int(8)]);
    let x = ws.add_variable("x", inner);
    let shared = ws.as_store().envelope_of(x);
    let outer = tuple(&mut ws, vec![Value::Int(0), Value::Int(0), Value::Int(9)]);
    let y = ws.add_variable("y", outer);
    let cells = cells_of(ws.as_store().get(y));
    ws.set_cell(cells[0], Value::LogicalLink(shared));
    ws.set_cell(cells[1], Value::LogicalLink(shared));
    assert_eq!("[[7, 8], ..., 9]", shown(ws.as_store(), &variable(&ws, "y")));
    assert_eq!("[7, 8]", shown(ws.as_store(), &variable(&ws, "x")));
    assert_eq!("[[7, 8], ..., 9]", shown(ws.as_store(), &variable(&ws, "y")));
    let both = vec![variable(&ws, "x"), variable(&ws, "y"), Value::Int(1)];
    assert_eq!("[7, 8][..., ..., 9]1", said(ppl::execution::value::display::display_all(ws.as_store(), &both)));
    let numbers = vec![Value::Int(1), Value::Int(1)];
    assert_eq!("11", said(ppl::execution::value::display::display_all(ws.as_store(), &numbers)));
}

#[test]
fn frames_that_have_no_node_left_are_ended() {
    let mut ws = WorkSpace::new();
    assert!(matches!(ppl::sequencer::next_step(&mut ws), Step::Finished));
    let f = function(&ws, "three", "$three\nthree_1\nthree_2\nthree_3\n$");
    prepare_udf(&f, &Vec::new(), &mut ws).unwrap();
    ws.start_immediate_mode(ppl::execution::runtime::executable::Executable::new(""));
    ws.start_immediate_mode(ppl::execution::runtime::executable::Executable::new(""));
    assert_eq!(3, ws.frame_count());
    assert!(matches!(ppl::sequencer::next_step(&mut ws), Step::Run(0)));
    assert_eq!(1, ws.frame_count());
    let frame = ws.current_invocation().unwrap();
    assert!(frame.get_fib().is_some());
    assert_eq!(ExecutionState::Executing, frame.get_execution_state());
    assert_eq!(Some(0), frame.current_index());
    assert_eq!(1, frame.next_index());
    ws.interrupt();
    ws.start_immediate_mode(ppl::execution::runtime::executable::Executable::new(""));
    assert!(matches!(ppl::sequencer::next_step(&mut ws), Step::Interrupted));
    assert_eq!(2, ws.frame_count());
    assert!(ws.current_invocation().unwrap().get_fib().is_none());
    assert!(!ws.is_interrupted());
    assert!(matches!(ppl::sequencer::next_step(&mut ws), Step::Finished));
    assert_eq!(2, ws.frame_count());
    let mut only = WorkSpace::new();
    only.start_immediate_mode(ppl::execution::runtime::executable::Executable::new(""));
    assert!(matches!(ppl::sequencer::next_step(&mut only), Step::Finished));
    assert_eq!(0, only.frame_count());
}

#[test]
fn the_frame_that_ran_a_node_tells_the_line_of_a_traced_statement() {
    let mut ws = WorkSpace::new();
    let source = "a_1\nb_2";
    let tokens = Lexer::tokenize(source, &ws).unwrap();
    let mut executable = Parser::new(source, &ws).parse(&tokens).unwrap();
    executable.set_trace(1, true);
    let last_of_second = executable.get_statement(2).unwrap().as_last_node_index();
    ws.start_immediate_mode(executable);
    let mut told = Vec::new();
    loop {
        match ppl::sequencer::next_step(&mut ws) {
            Step::Run(k) => {
                let depth = ws.frame_count();
                if let Some(line) = ws.finish_frame(depth, true) {
                    told.push((k, line));
                }
                assert_eq!(ExecutionState::NotExecuting, ws.current_invocation().unwrap().get_execution_state());
            },
            Step::Finished => break,
            other => panic!("{:?}", other),
        }
    }
    assert_eq!(vec![(last_of_second, 2)], told);
    let tokens = Lexer::tokenize(source, &ws).unwrap();
    let mut executable = Parser::new(source, &ws).parse(&tokens).unwrap();
    executable.set_trace(0, true);
    let last_of_first = executable.get_statement(1).unwrap().as_last_node_index();
    ws.start_immediate_mode(executable);
    for k in 0..=last_of_first {
        assert!(matches!(ppl::sequencer::next_step(&mut ws), Step::Run(n) if n == k));
        let told = ws.finish_frame(1, k < last_of_first);
        assert_eq!(None, told);
    }
    assert_eq!(ExecutionState::Stopped, ws.current_invocation().unwrap().get_execution_state());
    assert_eq!(None, ws.finish_frame(0, true));
    assert_eq!(None, ws.finish_frame(2, true));
}

#[test]
fn a_jump_is_made_only_from_a_function_that_runs_or_has_stopped() {
    let mut ws = WorkSpace::new();
    let f = function(&ws, "three", "$three\nthree_1\nthree_2\nthree_3\n$");
    prepare_udf(&f, &Vec::new(), &mut ws).unwrap();
    let state = ws.current_invocation().unwrap().get_execution_state();
    assert!(state != ExecutionState::Stopped && state != ExecutionState::Executing);
    let values = ws.get_value_stack_size();
    assert_eq!(Err(String::from("internal error")), goto(&Value::Int(2), &mut ws));
    assert_eq!(Err(String::from("internal error")), cgoto(&Value::Bool(true), &Value::Int(2), &mut ws));
    assert_eq!(1, ws.frame_count());
    assert_eq!(values, ws.get_value_stack_size());
    assert_eq!(state, ws.current_invocation().unwrap().get_execution_state());
    assert_eq!(0, ws.current_invocation().unwrap().next_index());
    assert_eq!(None, ws.current_invocation().unwrap().get_pending_goto_index());
    assert!(matches!(ppl::sequencer::next_step(&mut ws), Step::Run(0)));
    let last = {
        let executable = ws.current_invocation().unwrap().as_executable();
        let line = executable.get_function_return_line_number().unwrap();
        executable.get_statement_by_line_number(line).unwrap().as_first_node_index()
    };
    goto(&Value::Int(77), &mut ws).unwrap();
    assert_eq!(Some(last), ws.current_invocation().unwrap().get_pending_goto_index());
    assert!(matches!(ws.pop_value(), Value::Int(77)));
}

#[test]
fn a_frame_of_a_function_is_sent_to_a_line() {
    let mut ws = WorkSpace::new();
    let f = function(&ws, "three", "$three\nthree_1\nthree_2\nthree_3\n$");
    prepare_udf(&f, &Vec::new(), &mut ws).unwrap();
    let mut frame = ws.pop_frame();
    let (second, last, last_line) = {
        let executable = frame.as_executable();
        let line = executable.get_function_return_line_number().unwrap();
        (
            executable.get_statement_by_line_number(2).unwrap().as_first_node_index(),
            executable.get_statement_by_line_number(line).unwrap().as_first_node_index(),
            line,
        )
    };
    assert_eq!(Ok(Some(2)), frame.set_next_node_by_line_number(2));
    assert_eq!(second, frame.next_index());
    assert_eq!(Ok(Some(last_line)), frame.set_next_node_by_line_number(99));
    assert_eq!(last, frame.next_index());
    let source = "a_1";
    let tokens = Lexer::tokenize(source, &ws).unwrap();
    let mut immediate = ppl::execution::runtime::invocation::Invocation::new(Parser::new(source, &ws).parse(&tokens).unwrap(), 0);
    assert_eq!(
        Err(String::from("--> can only be used inside functions or to resume a stopped function")),
        immediate.set_next_node_by_line_number(1)
    );
    assert_eq!(0, immediate.next_index());
}

#[test]
fn what_a_pass_has_shown_is_marked_until_the_next_pass() {
    let mut ws = WorkSpace::new();
    let inner = tuple(&mut ws, vec![Value::Int(7), Value::Int(8)]);
    let x = ws.add_variable("x", inner);
    let shared = ws.as_store().envelope_of(x);
    let outer = tuple(&mut ws, vec![Value::Int(0), Value::Int(9)]);
    let y = ws.add_variable("y", outer);
    let cells = cells_of(ws.as_store().get(y));
    ws.set_cell(cells[0], Value::LogicalLink(shared));
    ws.start_pass();
    assert!(!ws.as_store().is_marked(shared));
    let first = variable(&ws, "x");
    assert_eq!("[7, 8]", said(ws.display_value(&first)));
    assert!(ws.as_store().is_marked(shared));
    let second = variable(&ws, "y");
    assert_eq!("[..., 9]", said(ws.display_value(&second)));
    assert_eq!("...", said(ws.display_value(&first)));
    assert_eq!("[7, 8]", shown(ws.as_store(), &first));
    assert_eq!("[[7, 8], 9]", shown(ws.as_store(), &second));
    ws.start_pass();
    assert!(!ws.as_store().is_marked(shared));
    assert_eq!("[[7, 8], 9]", said(ws.display_value(&second)));
    ws.start_pass();
    let both = vec![variable(&ws, "x"), variable(&ws, "y"), Value::Int(1)];
    assert_eq!("[7, 8][..., 9]1", said(ws.display_values(&both)));
    assert_eq!("...", said(ws.display_value(&first)));
    let mut store = Store::new();
    let a = store.new_cell(Value::Int(5));
    let e = store.envelope_of(a);
    assert!(!store.is_marked(e));
    assert!(store.visit(e));
    assert!(store.is_marked(e));
    assert!(!store.visit(e));
    assert!(matches!(store.get(a), Value::Int(5)));
    store.start_pass();
    assert!(!store.is_marked(e));
}

#[test]
fn a_mark_tells_whether_a_value_was_visited_in_the_pass() {
    let mut counter = ppl::execution::value::recursion_detector::PassCounter::new();
    let mut mark = ppl::execution::value::recursion_detector::Cycle::new(&counter);
    assert!(mark.has_not_been_processed(&counter));
    assert!(!mark.has_not_been_processed(&counter));
    ppl::execution::value::recursion_detector::Cycle::start(&mut counter);
    assert!(mark.has_not_been_processed(&counter));
    assert!(!mark.has_not_been_processed(&counter));
}
