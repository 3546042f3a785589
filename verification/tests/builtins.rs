use ppl::execution::dispatch::{execute_resolve_parameter, push_result, ArgumentDescription};
use ppl::execution::system_functions::assignment::{assign, noncopy};
use ppl::execution::evaluation::{conclude, next_read, ReadStep};
use ppl::execution::functions::prepare_udf;
use ppl::execution::runtime::invocation::ExecutionState;
use ppl::execution::system_functions::metadata;
use ppl::execution::value::display::{display, display_all, Piece};
use ppl::execution::value::structure::SelectorInstance;
use ppl::execution::value::{CellReference, GeneralSymbol, Store, SymbolicReference, Value};
use ppl::lexical::Lexer;
use ppl::parser::tree::{
    DefinitionNode, DefinitionType, Node, SequenceDefinition, StructureDefinition, StructureMemberDescription,
};
use ppl::parser::Parser;
use ppl::sequencer::{next_step, Step};
use ppl::symbols::metadata::{
    FunctionClass, FunctionDescription, FunctionImplementation, MetaDataTypeName, SystemFunction,
};
use ppl::symbols::name::Name;
use ppl::workspace::debug::DebugOption;
use ppl::workspace::optional_features::Feature;
use ppl::workspace::options::{OptionKey, Options};
use ppl::workspace::{Flag, WorkSpace};

fn joined(pieces: Vec<Piece>) -> String {
    let mut out = String::new();
    for piece in pieces {
        match piece {
            Piece::Text(t) => out += t.as_str(),
            Piece::Real(bits) => out += format!("{}", f32::from_bits(bits)).as_str(),
            Piece::Double(bits) => out += format!("{}", f64::from_bits(bits)).as_str(),
            Piece::Function(name) => out += name.as_str(),
        }
    }
    out
}

fn shown(ws: &WorkSpace, v: &Value) -> String {
    joined(display(ws.as_store(), v))
}

fn symbol(name: &str, resolution: GeneralSymbol) -> Value {
    Value::Symbol(SymbolicReference { referred_name: Name::from_str(name), resolution: resolution })
}

fn function_name(name: &str) -> Value {
    symbol(name, GeneralSymbol::Function(Name::from_str(name)))
}

fn datatype_name(name: &str) -> Value {
    symbol(name, GeneralSymbol::Datatype(Name::from_str(name)))
}

fn unresolved(name: &str) -> Value {
    symbol(name, GeneralSymbol::Unresolved(Name::from_str(name)))
}

fn variable(ws: &WorkSpace, name: &str) -> Value {
    symbol(name, GeneralSymbol::Variable(ws.try_get_variable(name).unwrap()))
}

fn define_function(ws: &mut WorkSpace, source: &str) -> FunctionDescription {
    let tokens = Lexer::tokenize(source, ws).unwrap();
    let executable = Parser::new(source, ws).parse(&tokens).unwrap();
    for node in 0..executable.get_next_node_index() {
        if let Node::Definition(d) = executable.get_node(node) {
            if let DefinitionType::Function(f) = d.get() {
                let copy = ppl::execution::definition::copy_function(f);
                ws.add_user_function(f.name.as_str(), ppl::execution::definition::copy_function(f));
                return copy;
            }
        }
    }
    panic!("no function");
}

fn stops_of(ws: &WorkSpace, name: &str) -> Vec<bool> {
    match &ws.try_get_user_function(name).unwrap().implementation_class {
        FunctionImplementation::User(body) => (1..=body.executable.get_statement_count())
            .map(|i| body.executable.get_statement(i).unwrap().is_stop_set())
            .collect(),
        _ => panic!("not a function of the user"),
    }
}

fn traces_of(ws: &WorkSpace, name: &str) -> Vec<bool> {
    match &ws.try_get_user_function(name).unwrap().implementation_class {
        FunctionImplementation::User(body) => (1..=body.executable.get_statement_count())
            .map(|i| body.executable.get_statement(i).unwrap().is_trace_set())
            .collect(),
        _ => panic!("not a function of the user"),
    }
}

#[test]
fn a_value_names_what_it_is_shown_as() {
    let mut ws = WorkSpace::new();
    let text = ws.make_string("row");
    assert_eq!(Some(String::from("row")), metadata::as_text(ws.as_store(), &text));
    assert_eq!(Some(String::from("12")), metadata::as_text(ws.as_store(), &Value::Int(12)));
    assert_eq!(Some(String::from("print")), metadata::as_text(ws.as_store(), &function_name("print")));
    assert_eq!(Some(String::from("zz")), metadata::as_text(ws.as_store(), &unresolved("zz")));
    let x = ws.add_variable("x", Value::Int(5));
    assert_eq!(Some(String::from("x")), metadata::as_text(ws.as_store(), &variable(&ws, "x")));
    let reference = Value::ValueByReference(CellReference { datatype: MetaDataTypeName::from_str("int"), cell: x });
    assert_eq!(Some(String::from("5")), metadata::as_text(ws.as_store(), &reference));
    assert_eq!(None, metadata::as_text(ws.as_store(), &Value::Real(1.5_f32.to_bits())));
}

#[test]
fn values_have_lengths_and_lower_bounds() {
    let mut ws = WorkSpace::new();
    assert!(matches!(metadata::length(&Value::Empty), Ok(Value::Int(0))));
    assert!(matches!(metadata::length(&Value::Int(7)), Ok(Value::Int(1))));
    let text = ws.make_string("abcd");
    assert!(matches!(metadata::length(&text), Ok(Value::Int(4))));
    let selector = Value::Selector(SelectorInstance { member: Name::from_str("rp"), structures: Vec::new() });
    assert_eq!(Err(String::from("Length is undefined for selectors")), metadata::length(&selector).map(|_| ()));
    assert!(matches!(metadata::lower_bound(&text), Ok(Value::Int(1))));
    assert!(matches!(metadata::lower_bound(&Value::Int(9)), Ok(Value::Int(1))));
    let definition = DefinitionNode::from_string(
        &String::from("row"),
        DefinitionType::Sequence(SequenceDefinition::from_string(&String::from("int"), -10, None)),
    );
    ppl::execution::definition::execute_definition(&definition, &mut ws).map_err(joined).unwrap();
    let row = ws.construct_value("row", &vec![Value::Int(1)]).map_err(joined).unwrap();
    assert!(matches!(metadata::lower_bound(&row), Ok(Value::Int(-10))));
    assert!(matches!(metadata::true_value(), Ok(Value::Bool(true))));
    assert!(matches!(metadata::false_value(), Ok(Value::Bool(false))));
}

#[test]
fn the_kind_of_a_value_has_a_name() {
    let mut ws = WorkSpace::new();
    for (v, name) in [
        (Value::Empty, "Null"),
        (Value::Bool(true), "Bool"),
        (Value::Int(1), "Int"),
        (Value::Real(0), "Real"),
        (Value::Double(0), "Dbl"),
        (Value::Char('c'), "Char"),
    ] {
        let t = metadata::get_type(&v, &mut ws).unwrap();
        assert_eq!(name, shown(&ws, &t));
    }
    let text = ws.make_string("abc");
    let t = metadata::get_type(&text, &mut ws).unwrap();
    assert_eq!("string", shown(&ws, &t));
    ws.add_variable("x", Value::Int(1));
    let x = variable(&ws, "x");
    let t = metadata::get_type(&x, &mut ws).unwrap();
    assert_eq!("Int", shown(&ws, &t));
    assert_eq!(Err(String::from("Not a user datatype")), metadata::get_type(&function_name("print"), &mut ws).map(|_| ()));
    let v = metadata::version(&mut ws).unwrap();
    assert_eq!("PPL T0.0", shown(&ws, &v));
}

#[test]
fn a_value_is_of_a_datatype_that_is_named() {
    let mut ws = WorkSpace::new();
    let name = ws.make_string("int");
    assert!(matches!(metadata::is_an_instance_of(&Value::Int(31), &name, &ws), Ok(Value::Bool(true))));
    assert!(matches!(metadata::is_an_instance_of(&Value::Real(0), &datatype_name("int"), &ws), Ok(Value::Bool(false))));
    assert!(matches!(metadata::is_an_instance_of(&Value::Real(0), &datatype_name("REAL"), &ws), Ok(Value::Bool(true))));
    assert!(matches!(metadata::is_an_instance_of(&Value::Double(0), &datatype_name("dbl"), &ws), Ok(Value::Bool(true))));
    assert!(matches!(metadata::is_an_instance_of(&Value::Double(0), &datatype_name("real"), &ws), Ok(Value::Bool(false))));
    assert_eq!(
        Err(String::from("Datatype nowhere not found")),
        metadata::is_an_instance_of(&Value::Int(1), &unresolved("nowhere"), &ws).map(|_| ())
    );
}

#[test]
fn names_are_forgotten() {
    let mut ws = WorkSpace::new();
    ws.add_variable("x", Value::Int(1));
    ws.add_variable("y", Value::Int(2));
    ws.add_variable("z", Value::Int(3));
    let names = vec![variable(&ws, "x"), unresolved("y"), unresolved("nothing")];
    metadata::erase(&names, &mut ws).unwrap();
    assert!(!ws.contains_any("x"));
    assert!(!ws.contains_any("y"));
    assert!(ws.contains_any("z"));
    assert!(ws.try_get_datatype("int").is_some());
    metadata::erase(&Vec::new(), &mut ws).unwrap();
    assert!(!ws.contains_any("z"));
    assert!(ws.try_get_datatype("int").is_some());
    assert!(ws.try_get_function("+").is_some());
}

#[test]
fn features_and_debug_options_are_switched_by_name() {
    let mut ws = WorkSpace::new();
    let (off, on, clear, set) = (ws.make_string("OFF"), ws.make_string("on"), ws.make_string("Clear"), ws.make_string("SET"));
    let escapes = ws.make_string("StringEscapes");
    let parse = ws.make_string("Parse");
    let r = metadata::feature(&off, &escapes, &mut ws).unwrap();
    assert_eq!("", shown(&ws, &r));
    assert!(!ws.is_feature_set(Feature::StringEscapes));
    assert!(ws.is_feature_set(Feature::LineNames));
    metadata::feature(&on, &escapes, &mut ws).unwrap();
    assert!(ws.is_feature_set(Feature::StringEscapes));
    metadata::feature(&clear, &escapes, &mut ws).unwrap();
    assert!(!ws.is_feature_set(Feature::StringEscapes));
    metadata::feature(&set, &escapes, &mut ws).unwrap();
    assert!(ws.is_feature_set(Feature::StringEscapes));
    assert_eq!(Err(String::from("Matching variant not found")), metadata::feature(&on, &parse, &mut ws).map(|_| ()));
    assert_eq!(Err(String::from("Parse is not a valid feature operation")), metadata::feature(&parse, &escapes, &mut ws).map(|_| ()));
    assert!(!ws.is_debug_set(DebugOption::Parse));
    metadata::debug(&on, &parse, &mut ws).unwrap();
    assert!(ws.is_debug_set(DebugOption::Parse));
    metadata::debug(&off, &parse, &mut ws).unwrap();
    assert!(!ws.is_debug_set(DebugOption::Parse));
    assert_eq!(Err(String::from("Matching variant not found")), metadata::debug(&on, &escapes, &mut ws));
    assert_eq!(Err(String::from("Parse is not a valid debug operation")), metadata::debug(&parse, &parse, &mut ws));
    let features = metadata::show_features(&mut ws).unwrap();
    assert!(shown(&ws, &features).contains("StringEscapes"));
    let options = metadata::show_debug(&mut ws).unwrap();
    assert!(shown(&ws, &options).contains("Parse"));
}

#[test]
fn sequences_are_joined() {
    let mut ws = WorkSpace::new();
    let left = ws.make_string("dog");
    let right = ws.make_string("cat");
    let mut store = Store::new();
    let a = ppl::execution::value::sequence::SequenceInstance::construct_string_sequence("ab", &mut store);
    let b = ppl::execution::value::sequence::SequenceInstance::construct_string_sequence("cd", &mut store);
    let joined_text = metadata::concat(&a, &b, &mut store).map_err(joined).unwrap();
    assert_eq!("abcd", joined(display(&store, &joined_text)));
    assert_eq!("ab", joined(display(&store, &a)));
    let tuple = Value::Sequence(ppl::execution::value::sequence::SequenceInstance::new(
        MetaDataTypeName::from_str("tuple"),
        1,
        Vec::new(),
    ));
    assert_eq!(
        Err(String::from("Both sequences must be of the same type")),
        metadata::concat(&a, &tuple, &mut store).map_err(joined).map(|_| ())
    );
    assert_eq!(
        Err(String::from("7 is not a variadic sequence")),
        metadata::concat(&a, &Value::Int(7), &mut store).map_err(joined).map(|_| ())
    );
    assert_eq!(
        Err(String::from("true is not a variadic sequence")),
        metadata::concat(&Value::Bool(true), &a, &mut store).map_err(joined).map(|_| ())
    );
    let _ = (left, right);
}

#[test]
fn a_sequence_is_made_of_copies_of_a_value() {
    let mut ws = WorkSpace::new();
    let name = ws.make_string("tuple");
    let made = metadata::make(&name, &Value::Int(3), &Value::Int(7), &mut ws).map_err(joined).unwrap();
    assert_eq!("[7, 7, 7]", shown(&ws, &made));
    let none = metadata::make(&name, &Value::Int(-2), &Value::Int(7), &mut ws).map_err(joined).unwrap();
    assert_eq!("[]", shown(&ws, &none));
    let text = metadata::make(&datatype_name("string"), &Value::Int(2), &Value::Char('x'), &mut ws).map_err(joined).unwrap();
    assert_eq!("xx", shown(&ws, &text));
    assert_eq!(
        Err(String::from("Invalid CHAR")),
        metadata::make(&datatype_name("string"), &Value::Int(2), &Value::Int(1), &mut ws).map_err(joined).map(|_| ())
    );
    assert_eq!(
        Err(String::from("int is not a sequence")),
        metadata::make(&datatype_name("int"), &Value::Int(2), &Value::Int(1), &mut ws).map_err(joined).map(|_| ())
    );
    assert_eq!(
        Err(String::from("nowhere not found")),
        metadata::make(&unresolved("nowhere"), &Value::Int(2), &Value::Int(1), &mut ws).map_err(joined).map(|_| ())
    );
    assert_eq!(
        Err(String::from("Unable to cast to INT")),
        metadata::make(&name, &Value::Empty, &Value::Int(1), &mut ws).map_err(joined).map(|_| ())
    );
    let definition = DefinitionNode::from_string(
        &String::from("pair"),
        DefinitionType::Sequence(SequenceDefinition::from_string(&String::from("int"), 1, Some(2))),
    );
    ppl::execution::definition::execute_definition(&definition, &mut ws).map_err(joined).unwrap();
    assert_eq!(
        Err(String::from("pair requires 2 elements")),
        metadata::make(&datatype_name("pair"), &Value::Int(3), &Value::Int(1), &mut ws).map_err(joined).map(|_| ())
    );
    assert!(metadata::make(&datatype_name("pair"), &Value::Int(2), &Value::Int(1), &mut ws).is_ok());
}

#[test]
fn a_function_becomes_an_operator() {
    let mut ws = WorkSpace::new();
    define_function(&mut ws, "$remain(a,b)\nremain_a-b*(a/b)\n$");
    define_function(&mut ws, "$twice(a)\ntwice_a+a\n$");
    let sign = ws.make_string("\\");
    metadata::binary(&sign, &function_name("remain"), &mut ws).unwrap();
    assert_eq!("remain", ws.try_get_user_function("\\").unwrap().name.as_string());
    assert_eq!(
        Err(String::from("twice is not a binary function")),
        metadata::binary(&sign, &function_name("twice"), &mut ws)
    );
    assert_eq!(Err(String::from("nothing not found")), metadata::binary(&sign, &unresolved("nothing"), &mut ws));
    let other = ws.make_string("~");
    metadata::unary(&other, &function_name("twice"), &mut ws).unwrap();
    assert_eq!("twice", ws.try_get_user_function("~").unwrap().name.as_string());
    assert_eq!(Err(String::from("remain is not a unary function")), metadata::unary(&other, &function_name("remain"), &mut ws));
    assert_eq!(Err(String::from("print is not a unary function")), metadata::unary(&other, &function_name("print"), &mut ws));
    let third = ws.make_string("@@");
    metadata::unary(&third, &function_name("minus"), &mut ws).unwrap();
    assert_eq!("minus", ws.try_get_user_function("@@").unwrap().name.as_string());
}

#[test]
fn statements_are_stopped_and_traced_by_line() {
    let mut ws = WorkSpace::new();
    define_function(&mut ws, "$three\nthree_1\nthree_2\nthree_3\n$");
    let count = stops_of(&ws, "three").len();
    assert!(count >= 3);
    assert!(stops_of(&ws, "three").iter().all(|s| !s));
    metadata::stop(&vec![function_name("three"), Value::Int(2)], &mut ws).unwrap();
    let stops = stops_of(&ws, "three");
    assert_eq!(1, stops.iter().filter(|s| **s).count());
    assert!(stops[1]);
    assert!(traces_of(&ws, "three").iter().all(|s| !s));
    metadata::stop(&vec![function_name("three")], &mut ws).unwrap();
    assert!(stops_of(&ws, "three").iter().all(|s| *s));
    metadata::unstop(&vec![function_name("three"), Value::Int(1), Value::Int(3)], &mut ws).unwrap();
    let stops = stops_of(&ws, "three");
    assert!(!stops[0] && stops[1] && !stops[2]);
    metadata::trace(&vec![function_name("three"), Value::Int(3)], &mut ws).unwrap();
    assert!(traces_of(&ws, "three")[2]);
    metadata::untrace(&vec![function_name("three")], &mut ws).unwrap();
    assert!(traces_of(&ws, "three").iter().all(|s| !s));
    assert_eq!(Err(String::from("Stop requires a function name")), metadata::stop(&Vec::new(), &mut ws));
    assert_eq!(Err(String::from("System functions cannot be stopped")), metadata::stop(&vec![function_name("print")], &mut ws));
    assert_eq!(Err(String::from("Function nothing not found")), metadata::stop(&vec![unresolved("nothing")], &mut ws));
    assert_eq!(
        Err(String::from("Invalid line number 99")),
        metadata::stop(&vec![function_name("three"), Value::Int(1), Value::Int(99), Value::Int(3)], &mut ws)
    );
    let stops = stops_of(&ws, "three");
    assert!(stops[0] && stops[1] && !stops[2]);
    assert_eq!(
        Err(String::from("Unable to cast to INT")),
        metadata::stop(&vec![function_name("three"), Value::Empty], &mut ws)
    );
    ws.mark_statements("three", &vec![3], Flag::Stop, true).unwrap();
    assert!(stops_of(&ws, "three")[2]);
}

#[test]
fn a_stopped_statement_stops_a_function_that_is_entered_later() {
    let mut ws = WorkSpace::new();
    define_function(&mut ws, "$three\nthree_1\nthree_2\nthree_3\n$");
    metadata::stop(&vec![function_name("three"), Value::Int(2)], &mut ws).unwrap();
    let f = ppl::execution::definition::copy_function(ws.try_get_user_function("three").unwrap());
    prepare_udf(&f, &Vec::new(), &mut ws).unwrap();
    let second = ws.current_invocation().unwrap().as_executable().get_statement_by_line_number(2).unwrap().as_first_node_index();
    let mut run = Vec::new();
    loop {
        match next_step(&mut ws) {
            Step::Run(k) => {
                run.push(k);
                let mut frame = ws.pop_frame();
                ppl::sequencer::finish(&mut frame, true);
                ws.push_frame(frame);
            },
            Step::StopRequested => break,
            other => panic!("{:?}", other),
        }
    }
    assert_eq!((0..second).collect::<Vec<usize>>(), run);
    assert_eq!(ExecutionState::Stopped, ws.current_invocation().unwrap().get_execution_state());
    let text = conclude(&mut ws, String::from("out"));
    assert!(text.starts_with("out\n@three [2] "), "{:?}", text);
    assert!(text.ends_with("\t"), "{:?}", text);
    assert!(text.contains("three_2"), "{:?}", text);
    assert!(ws.current_invocation().is_some());
}

#[test]
fn an_evaluation_that_was_not_stopped_leaves_nothing() {
    let mut ws = WorkSpace::new();
    ws.push_value(Value::Int(1));
    assert_eq!("done", conclude(&mut ws, String::from("done")));
    assert_eq!(0, ws.get_value_stack_size());
    let source = "a_1";
    let tokens = Lexer::tokenize(source, &ws).unwrap();
    let executable = Parser::new(source, &ws).parse(&tokens).unwrap();
    ws.start_immediate_mode(executable);
    assert!(matches!(next_step(&mut ws), Step::Run(0)));
    let text = conclude(&mut ws, String::from("x"));
    assert_eq!("x\n@[1] a_1\t", text);
    assert!(ws.current_invocation().is_none());
}

#[test]
fn lines_are_read_until_a_definition_ends() {
    assert_eq!(ReadStep::Done, next_read(false, "3+2\n"));
    assert_eq!(ReadStep::Begin, next_read(false, "$fact(n)\n"));
    assert_eq!(ReadStep::Done, next_read(false, "$row=[1:]real\n"));
    assert_eq!(ReadStep::Done, next_read(false, "$"));
    assert_eq!(ReadStep::Done, next_read(false, ""));
    assert_eq!(ReadStep::Continue, next_read(true, "fact_1\n"));
    assert_eq!(ReadStep::Continue, next_read(true, "\n"));
    assert_eq!(ReadStep::Done, next_read(true, "\r\n"));
    assert_eq!(ReadStep::Done, next_read(true, "$\n"));
    assert_eq!(ReadStep::Done, next_read(true, "  $ \r\n"));
    assert_eq!(ReadStep::Continue, next_read(true, "$x\n"));
}

#[test]
fn printed_values_follow_one_another() {
    let mut ws = WorkSpace::new();
    let text = ws.make_string("n=");
    let args = vec![text, Value::Int(1), Value::Bool(true), Value::Char('!')];
    assert_eq!("n=1true!", joined(display_all(ws.as_store(), &args)));
    assert_eq!("", joined(display_all(ws.as_store(), &Vec::new())));
}

#[test]
fn an_argument_by_value_is_made_to_fit() {
    let mut ws = WorkSpace::new();
    let x = ws.add_variable("x", Value::Real(2.5_f32.to_bits()));
    let plus = ArgumentDescription { function_name: Name::from_str("goto"), argument_count: 1, argument_number: 0 };
    ws.push_value(variable(&ws, "x"));
    assert!(matches!(execute_resolve_parameter(&plus, &mut ws), Ok(None)));
    assert!(matches!(ws.pop_value(), Value::Int(2)));
    let assign_target = ArgumentDescription { function_name: Name::from_str("_"), argument_count: 2, argument_number: 0 };
    ws.push_value(variable(&ws, "x"));
    assert!(matches!(execute_resolve_parameter(&assign_target, &mut ws), Ok(None)));
    assert!(matches!(ws.pop_value(), Value::Symbol(_)));
    let assign_value = ArgumentDescription { function_name: Name::from_str("_"), argument_count: 2, argument_number: 1 };
    ws.push_value(variable(&ws, "x"));
    assert!(matches!(execute_resolve_parameter(&assign_value, &mut ws), Ok(None)));
    assert!(matches!(ws.pop_value(), Value::Real(b) if b == 2.5_f32.to_bits()));
    let beyond = ArgumentDescription { function_name: Name::from_str("_"), argument_count: 2, argument_number: 2 };
    ws.push_value(Value::Int(1));
    assert_eq!(
        Err(String::from("Incorrect number of arguments to assign")),
        execute_resolve_parameter(&beyond, &mut ws).map_err(joined).map(|_| ())
    );
    assert_eq!(1, ws.get_value_stack_size());
    let unknown = ArgumentDescription { function_name: Name::from_str("nothing"), argument_count: 1, argument_number: 0 };
    assert!(matches!(execute_resolve_parameter(&unknown, &mut ws), Ok(None)));
    assert!(matches!(ws.pop_value(), Value::Int(1)));
    let bad = ArgumentDescription { function_name: Name::from_str("goto"), argument_count: 1, argument_number: 0 };
    ws.push_value(Value::Empty);
    assert_eq!(Err(String::from("Unable to cast to INT")), execute_resolve_parameter(&bad, &mut ws).map_err(joined).map(|_| ()));
    assert_eq!(0, ws.get_value_stack_size());
    let _ = x;
}

#[test]
fn an_argument_of_a_function_of_many_is_made_a_value() {
    let mut ws = WorkSpace::new();
    let x = ws.add_variable("x", Value::Int(4));
    let printed = ArgumentDescription { function_name: Name::from_str("print"), argument_count: 3, argument_number: 1 };
    ws.push_value(variable(&ws, "x"));
    assert!(matches!(execute_resolve_parameter(&printed, &mut ws), Ok(None)));
    assert!(matches!(ws.pop_value(), Value::Int(4)));
    ws.push_value(Value::ValueByReference(CellReference { datatype: MetaDataTypeName::from_str("int"), cell: x }));
    assert!(matches!(execute_resolve_parameter(&printed, &mut ws), Ok(None)));
    assert!(matches!(ws.pop_value(), Value::Int(4)));
    let envelope = ws.as_store().envelope_of(x);
    ws.push_value(Value::LogicalLink(envelope));
    assert!(matches!(execute_resolve_parameter(&printed, &mut ws), Ok(None)));
    assert!(matches!(ws.pop_value(), Value::Int(4)));
    ws.push_value(Value::Char('c'));
    assert!(matches!(execute_resolve_parameter(&printed, &mut ws), Ok(None)));
    assert!(matches!(ws.pop_value(), Value::Char('c')));
    ws.push_value(function_name("version"));
    assert!(matches!(execute_resolve_parameter(&printed, &mut ws), Ok(Some(n)) if n.as_string() == "version"));
    assert_eq!(0, ws.get_value_stack_size());
    ws.push_value(unresolved("zz"));
    assert_eq!(Err(String::from("zz not found")), execute_resolve_parameter(&printed, &mut ws).map_err(joined).map(|_| ()));
    let selector = Value::Selector(SelectorInstance {
        member: Name::from_str("rp"),
        structures: vec![Name::from_str("complex")],
    });
    ws.push_value(selector);
    assert_eq!(
        Err(String::from("rp from {complex} is not a value")),
        execute_resolve_parameter(&printed, &mut ws).map_err(joined).map(|_| ())
    );
    let stopped = ArgumentDescription { function_name: Name::from_str("stop"), argument_count: 2, argument_number: 0 };
    ws.push_value(function_name("version"));
    assert!(matches!(execute_resolve_parameter(&stopped, &mut ws), Ok(None)));
    assert!(matches!(ws.pop_value(), Value::Symbol(_)));
}

#[test]
fn a_function_that_returns_a_value_leaves_one_on_the_stack() {
    let mut ws = WorkSpace::new();
    ws.push_value(Value::Int(0));
    push_result(FunctionClass::Diadic(SystemFunction::Add), Some(Value::Int(5)), &mut ws);
    assert_eq!(2, ws.get_value_stack_size());
    assert!(matches!(ws.pop_value(), Value::Int(5)));
    push_result(FunctionClass::NullValuedMonadic(SystemFunction::Goto), None, &mut ws);
    assert_eq!(1, ws.get_value_stack_size());
    push_result(FunctionClass::NullValuedVarying(SystemFunction::Print), Some(Value::Int(1)), &mut ws);
    assert_eq!(1, ws.get_value_stack_size());
    push_result(FunctionClass::Nullary(SystemFunction::Version), None, &mut ws);
    assert_eq!(2, ws.get_value_stack_size());
    assert!(matches!(ws.pop_value(), Value::Empty));
    define_function(&mut ws, "$bar\nbar_1976\n$");
    let f = ppl::execution::definition::copy_function(ws.try_get_user_function("bar").unwrap());
    let depth = ws.get_value_stack_size();
    prepare_udf(&f, &Vec::new(), &mut ws).unwrap();
    assert_eq!(depth, ws.current_invocation().unwrap().get_base_stack_size());
    ws.push_value(Value::Int(7));
    ws.push_value(Value::Int(8));
    ppl::execution::statements::execute_statement_end(&mut ws).unwrap();
    assert_eq!(depth, ws.get_value_stack_size());
    ppl::execution::statements::execute_function_return(&mut ws).unwrap();
    assert_eq!(depth + 1, ws.get_value_stack_size());
}

#[test]
fn a_field_linked_to_a_variable_is_given_a_value_of_its_own() {
    let mut ws = WorkSpace::new();
    let definition = DefinitionNode::from_string(
        &String::from("pntr"),
        DefinitionType::Structure(StructureDefinition {
            members: vec![StructureMemberDescription { name: Name::from_str("val"), datatype: Name::from_str("general") }],
        }),
    );
    ppl::execution::definition::execute_definition(&definition, &mut ws).map_err(joined).unwrap();
    ws.add_variable("x", Value::Int(1));
    let made = ws.construct_value("pntr", &vec![Value::Int(0)]).map_err(joined).unwrap();
    let field = match &made {
        Value::Structure(s) => s.as_values()[0].cell,
        other => panic!("{:?}", other),
    };
    let to_field = Value::ValueByReference(CellReference { datatype: MetaDataTypeName::from_str("general"), cell: field });
    let x = variable(&ws, "x");
    noncopy(&to_field, &x, &mut ws).unwrap();
    assert_eq!("[val:1]", shown(&ws, &made));
    assign(&unresolved("r"), &made, &mut ws).map_err(joined).unwrap();
    assert_eq!("[val:1]", shown(&ws, &variable(&ws, "r")));
    let r = ws.try_get_variable("r").unwrap().cell;
    let r_field = match ws.as_store().get(r) {
        Value::Structure(s) => s.as_values()[0].cell,
        other => panic!("{:?}", other),
    };
    let to_r_field =
        Value::ValueByReference(CellReference { datatype: MetaDataTypeName::from_str("general"), cell: r_field });
    assign(&to_r_field, &Value::Int(99), &mut ws).map_err(joined).unwrap();
    assert_eq!("[val:99]", shown(&ws, &variable(&ws, "r")));
    assert_eq!("1", shown(&ws, &variable(&ws, "x")));
}

#[test]
fn a_structure_is_shown_with_the_names_of_its_fields() {
    let mut ws = WorkSpace::new();
    let definition = DefinitionNode::from_string(
        &String::from("complex"),
        DefinitionType::Structure(StructureDefinition {
            members: vec![
                StructureMemberDescription { name: Name::from_str("rp"), datatype: Name::from_str("real") },
                StructureMemberDescription { name: Name::from_str("ip"), datatype: Name::from_str("real") },
            ],
        }),
    );
    ppl::execution::definition::execute_definition(&definition, &mut ws).map_err(joined).unwrap();
    let made = ws
        .construct_value("complex", &vec![Value::Real(3.7_f32.to_bits()), Value::Real(59.0_f32.to_bits())])
        .map_err(joined)
        .unwrap();
    assert_eq!("[rp:3.7, ip:59]", shown(&ws, &made));
    let name = ws.make_string("complex");
    assert!(matches!(metadata::is_an_instance_of(&made, &name, &ws), Ok(Value::Bool(true))));
    let mut five = WorkSpace::new();
    let sum = ppl::execution::system_functions::arithmetic::add(&Value::Int(3), &Value::Int(2), five.as_store(), five.as_datatypes());
    assert!(matches!(sum, Ok(ppl::execution::system_functions::arithmetic::Computed::Value(Value::Int(5)))));
    five.push_value(Value::Int(5));
    assert_eq!("5", shown(&five, &Value::Int(5)));
}

#[test]
fn switches_that_are_listed_are_known_and_off() {
    let mut switches: Options<Feature> = Options::new();
    assert_eq!("", switches.show());
    switches.set(Feature::StringEscapes);
    assert_eq!("StringEscapes - ON", switches.show());
    switches.init(&Feature::every());
    assert_eq!("StringEscapes - OFF\nLineNames - OFF", switches.show());
    assert!(!switches.is_set(&Feature::StringEscapes));
    assert!(!switches.is_set(&Feature::LineNames));
    switches.set(Feature::LineNames);
    switches.init(&vec![Feature::StringEscapes]);
    assert_eq!("StringEscapes - OFF\nLineNames - ON", switches.show());
    switches.clear(Feature::LineNames);
    assert_eq!("StringEscapes - OFF\nLineNames - OFF", switches.show());
    let mut debug: Options<DebugOption> = Options::new();
    debug.clear_str("parse").unwrap();
    assert_eq!("Parse - OFF", debug.show());
    assert_eq!(Err(String::from("Matching variant not found")), debug.clear_str("nothing"));
    assert_eq!("Parse - OFF", debug.show());
    debug.set_str("PARSE").unwrap();
    assert_eq!("Parse - ON", debug.show());
}

#[test]
fn what_is_not_named_is_not_forgotten() {
    let mut ws = WorkSpace::new();
    ws.add_variable("x", Value::Int(1));
    let z = ws.add_variable("z", Value::Int(3));
    define_function(&mut ws, "$three\nthree_1\n$");
    let features = ws.features_text();
    metadata::erase(&vec![unresolved("X"), unresolved("nothing")], &mut ws).unwrap();
    assert!(!ws.contains_any("x"));
    assert_eq!(z, ws.try_get_variable("z").unwrap().cell);
    assert_eq!("3", shown(&ws, &variable(&ws, "z")));
    assert!(ws.try_get_user_function("three").is_some());
    assert!(ws.try_get_datatype("int").is_some());
    assert!(ws.try_get_function("+").is_some());
    assert_eq!(features, ws.features_text());
    metadata::erase(&vec![function_name("three")], &mut ws).unwrap();
    assert!(ws.try_get_user_function("three").is_none());
    assert_eq!(z, ws.try_get_variable("z").unwrap().cell);
}
