use ppl::execution::runtime::executable::Executable;
use ppl::execution::runtime::invocation::{ExecutionState, Invocation};
use ppl::lexical::{get_character_class, pick_line, sanitize_for_display, CharacterClass, Lexer, Token, TokenType};
use ppl::parser::tree::{Literal, Node};
use ppl::parser::Parser;
use ppl::sequencer::{dispatch, finish, Step};
use ppl::symbols::name::Name;
use ppl::symbols::SymbolTable;
use ppl::utility::{IndexSet, SetIterationToken};
use ppl::workspace::optional_features::Feature;
use ppl::workspace::WorkSpace;

fn spellings(tokens: &Vec<Token>) -> Vec<String> {
    tokens.iter().map(|t| t.string_value.clone()).collect()
}

enum Kind {
    Real,
    Other,
}

fn with_values(mut tokens: Vec<Token>) -> Vec<Token> {
    for t in tokens.iter_mut() {
        let kind = if matches!(t.token_type, TokenType::Real(_)) { Kind::Real } else { Kind::Other };
        match &mut t.token_type {
            TokenType::Real(l) | TokenType::Double(l) => {
                let text: String = t.string_value.chars().map(|c| if c == 'd' || c == 'D' { 'e' } else { c }).collect();
                let v: f64 = text.parse().unwrap();
                l.bits = Some(if matches!(kind, Kind::Real) { (v as f32).to_bits() as u64 } else { v.to_bits() });
            },
            _ => {},
        }
    }
    tokens
}

fn parsed(source: &str, ws: &WorkSpace) -> Result<Executable, String> {
    let tokens = with_values(Lexer::tokenize(source, ws)?);
    Parser::new(source, ws).parse(&tokens)
}

#[test]
fn characters_fall_into_classes() {
    assert_eq!(CharacterClass::Alpha, get_character_class('a'));
    assert_eq!(CharacterClass::Alpha, get_character_class('Z'));
    assert_eq!(CharacterClass::Numeric, get_character_class('7'));
    assert_eq!(CharacterClass::Dot, get_character_class('.'));
    assert_eq!(CharacterClass::BackSlash, get_character_class('\\'));
    assert_eq!(CharacterClass::Dollar, get_character_class('$'));
    assert_eq!(CharacterClass::Plus, get_character_class('+'));
    assert_eq!(CharacterClass::Minus, get_character_class('-'));
    assert_eq!(CharacterClass::SingleQuote, get_character_class('\''));
    assert_eq!(CharacterClass::DoubleQuote, get_character_class('"'));
    for c in ['(', ')', '[', ']', ',', ';', '{', '}'] {
        assert_eq!(CharacterClass::Punctuation, get_character_class(c), "{}", c);
    }
    for c in ['*', '>', '=', '<', '^', '_', '&', '#', '/', '@', ':', '!', '~', '?', '%'] {
        assert_eq!(CharacterClass::ComposableOperator, get_character_class(c), "{}", c);
    }
    assert_eq!(CharacterClass::WhiteSpace, get_character_class(' '));
    assert_eq!(CharacterClass::WhiteSpace, get_character_class('\t'));
    assert_eq!(CharacterClass::Newline, get_character_class('\n'));
}

#[test]
fn a_sum_is_three_tokens_and_the_end() {
    let ws = WorkSpace::new();
    let tokens = Lexer::tokenize("3+2", &ws).unwrap();
    assert_eq!(4, tokens.len());
    assert!(matches!(tokens[0].token_type, TokenType::Integer(3)));
    assert!(matches!(&tokens[1].token_type, TokenType::Operator(o) if o == "+"));
    assert!(matches!(tokens[2].token_type, TokenType::Integer(2)));
    assert!(matches!(tokens[3].token_type, TokenType::EOS));
    assert_eq!(vec!["3", "+", "2", ""], spellings(&tokens));
    assert_eq!(1, tokens[0].starting_position.line_number);
    assert_eq!(0, tokens[0].starting_position.index);
    assert_eq!(1, tokens[1].starting_position.index);
    assert_eq!(2, tokens[2].starting_position.index);
}

#[test]
fn identifiers_may_hold_dots_and_digits() {
    let ws = WorkSpace::new();
    let tokens = Lexer::tokenize("sum.of.9.digits_1", &ws).unwrap();
    assert!(matches!(&tokens[0].token_type, TokenType::Identifier(n) if n == "sum.of.9.digits"));
    assert!(matches!(&tokens[1].token_type, TokenType::Operator(o) if o == "_"));
    assert!(matches!(tokens[2].token_type, TokenType::Integer(1)));
    let tokens = Lexer::tokenize("th1.3v", &ws).unwrap();
    assert!(matches!(&tokens[0].token_type, TokenType::Identifier(n) if n == "th1.3v"));
    let tokens = Lexer::tokenize("a.", &ws).unwrap();
    assert!(matches!(&tokens[0].token_type, TokenType::Identifier(n) if n == "a"));
}

#[test]
fn numbers_with_a_fraction_or_an_exponent_are_reals_and_doubles() {
    let ws = WorkSpace::new();
    let tokens = Lexer::tokenize("3.14159 .52 0. 52e-7 1.4d0 9.327863415 1d-10", &ws).unwrap();
    match &tokens[0].token_type {
        TokenType::Real(l) => {
            assert_eq!(3, l.integer_value);
            assert_eq!(14159, l.fraction_value);
            assert_eq!(5, l.fraction_digits);
            assert_eq!(0, l.exponent);
            assert!(!l.is_negative);
            assert_eq!(None, l.bits);
        },
        other => panic!("{:?}", other),
    }
    assert!(matches!(&tokens[1].token_type, TokenType::Real(l) if l.integer_value == 0 && l.fraction_value == 52));
    assert!(matches!(&tokens[2].token_type, TokenType::Real(l) if l.integer_value == 0 && l.fraction_digits == 0));
    assert!(matches!(&tokens[3].token_type, TokenType::Real(l) if l.integer_value == 52 && l.exponent == -7));
    assert!(matches!(&tokens[4].token_type, TokenType::Double(l) if l.integer_value == 1 && l.fraction_value == 4 && l.exponent == 0));
    assert!(matches!(&tokens[5].token_type, TokenType::Double(_)));
    assert!(matches!(&tokens[6].token_type, TokenType::Double(l) if l.exponent == -10));
}

#[test]
fn an_integer_that_does_not_fit_is_an_error() {
    let ws = WorkSpace::new();
    assert!(matches!(Lexer::tokenize("2147483647", &ws).unwrap()[0].token_type, TokenType::Integer(2147483647)));
    let e = Lexer::tokenize("2147483648", &ws).unwrap_err();
    assert!(e.ends_with("integer overflow"), "{}", e);
    assert_eq!(Err(String::from("arithmetic overflow")), Lexer::tokenize("a_99999999999999999999", &ws).map(|_| ()));
    assert_eq!(Err(String::from("integer overflow")), Lexer::tokenize("a_(99999999999+1)", &ws).map(|_| ()));
    assert_eq!(Err(String::from("arithmetic overflow")), Lexer::tokenize("1e99999999999", &ws).map(|_| ()));
}

#[test]
fn text_and_characters() {
    let ws = WorkSpace::new();
    let tokens = Lexer::tokenize("qq_\"HE SAID \"\"FOO\"\".\"", &ws).unwrap();
    assert!(matches!(&tokens[2].token_type, TokenType::String(s) if s == "HE SAID \"FOO\"."));
    let tokens = Lexer::tokenize("c_'Q", &ws).unwrap();
    assert!(matches!(tokens[2].token_type, TokenType::Character('Q')));
    let tokens = Lexer::tokenize("\"a\\nb\"", &ws).unwrap();
    assert!(matches!(&tokens[0].token_type, TokenType::String(s) if s == "a\nb"));
    let tokens = Lexer::tokenize("'\\n", &ws).unwrap();
    assert!(matches!(tokens[0].token_type, TokenType::Character('\\')), "{:?}", tokens);
    assert!(matches!(&tokens[1].token_type, TokenType::Identifier(n) if n == "n"), "{:?}", tokens);
    let e = Lexer::tokenize("'", &ws).unwrap_err();
    assert!(e.ends_with("Missing character following single quote"), "{}", e);
    assert!(Lexer::tokenize("\"abc", &ws).is_err());
}

#[test]
fn escapes_stay_as_they_are_without_the_feature() {
    let mut ws = WorkSpace::new();
    ws.features.clear(Feature::StringEscapes);
    let tokens = Lexer::tokenize("\"a\\nb\"", &ws).unwrap();
    assert!(matches!(&tokens[0].token_type, TokenType::String(s) if s == "a\\nb"));
}

#[test]
fn without_escapes_the_tokens_spell_the_source() {
    let mut ws = WorkSpace::new();
    ws.features.clear(Feature::StringEscapes);
    let source = "x_row(3.56, y[2]) ... a comment\n'c \"text\" (a<=b)&(c#d)";
    let tokens = Lexer::tokenize(source, &ws).unwrap();
    let chars: Vec<char> = source.chars().collect();
    for t in &tokens {
        let start = t.starting_position.n;
        let spelled: String = chars[start..start + t.string_value.chars().count()].iter().collect();
        assert_eq!(spelled, t.string_value);
    }
    let rebuilt: String = spellings(&tokens).concat();
    let bare: String = source.chars().filter(|c| *c != ' ').collect();
    let rebuilt_bare: String = rebuilt.chars().filter(|c| *c != ' ').collect();
    assert_eq!(bare, rebuilt_bare);
}

#[test]
fn punctuation_lines_and_comments() {
    let ws = WorkSpace::new();
    let tokens = Lexer::tokenize("f(a,b)\n... nothing here\nx", &ws).unwrap();
    let kinds: Vec<String> = tokens
        .iter()
        .map(|t| match &t.token_type {
            TokenType::Punctuation(p) => format!("P{}", p),
            TokenType::Identifier(n) => format!("I{}", n),
            TokenType::EOL => String::from("EOL"),
            TokenType::EOS => String::from("EOS"),
            TokenType::Comment => String::from("C"),
            other => format!("{:?}", other),
        })
        .collect();
    assert_eq!(vec!["If", "P(", "Ia", "P,", "Ib", "P)", "EOL", "C", "Ix", "EOS"], kinds);
    assert_eq!(3, tokens[8].starting_position.line_number);
}

#[test]
fn operators_are_the_longest_that_the_workspace_knows() {
    let ws = WorkSpace::new();
    let tokens = Lexer::tokenize("a<=b", &ws).unwrap();
    assert!(matches!(&tokens[1].token_type, TokenType::Operator(o) if o == "<="));
    let tokens = Lexer::tokenize("a==b", &ws).unwrap();
    assert!(matches!(&tokens[1].token_type, TokenType::Operator(o) if o == "=="));
    let tokens = Lexer::tokenize("a__b", &ws).unwrap();
    assert!(matches!(&tokens[1].token_type, TokenType::Operator(o) if o == "__"));
    let tokens = Lexer::tokenize("a-->b", &ws).unwrap();
    assert!(matches!(&tokens[1].token_type, TokenType::Operator(o) if o == "-->"));
    let tokens = Lexer::tokenize("a*-b", &ws).unwrap();
    assert!(matches!(&tokens[1].token_type, TokenType::Operator(o) if o == "*"));
    assert!(matches!(&tokens[2].token_type, TokenType::Operator(o) if o == "-"));
}

#[test]
fn a_sign_behind_an_operator_goes_into_the_number() {
    let ws = WorkSpace::new();
    let tokens = Lexer::tokenize("3*-2", &ws).unwrap();
    assert_eq!(vec!["3", "*", "-2", ""], spellings(&tokens));
    assert!(matches!(tokens[2].token_type, TokenType::Integer(-2)));
    let tokens = Lexer::tokenize("(-2.5)", &ws).unwrap();
    assert_eq!(vec!["(", "-2.5", ")", ""], spellings(&tokens));
    assert!(matches!(&tokens[1].token_type, TokenType::Real(l) if l.is_negative));
    let tokens = Lexer::tokenize("3-2", &ws).unwrap();
    assert_eq!(vec!["3", "-", "2", ""], spellings(&tokens));
    let tokens = Lexer::tokenize("a-2", &ws).unwrap();
    assert_eq!(vec!["a", "-", "2", ""], spellings(&tokens));
}

#[test]
fn a_line_is_picked_by_its_number() {
    let source: Vec<char> = "first\nsecond\nthird".chars().collect();
    assert_eq!("first", pick_line(&source, 1).iter().collect::<String>());
    assert_eq!("second", pick_line(&source, 2).iter().collect::<String>());
    assert_eq!("third", pick_line(&source, 3).iter().collect::<String>());
}

#[test]
fn text_is_made_fit_for_one_line() {
    assert_eq!("a\\nb", sanitize_for_display("a\nb"));
    assert_eq!("a\\nb", ppl::utility::convert_escape_sequences("a\nb  \n"));
    assert_eq!("say \"\"hi\"\"", ppl::utility::convert_escape_sequences("say \"hi\""));
    assert_eq!("a\nb\tc\rd", ppl::lexical::convert_escape_sequences("a\\nb\\tc\\rd"));
    assert_eq!('\t', ppl::lexical::convert_escape_sequence("\\t"));
    assert_eq!('x', ppl::lexical::convert_escape_sequence("\\x"));
}

#[test]
fn names_are_the_same_whatever_their_case() {
    assert!(Name::from_str("Alpha") == Name::from_str("aLPHA"));
    assert!(Name::from_str("alpha") != Name::from_str("alpha1"));
    assert!(Name::from_str("Alpha").is_same(&Name::from_str("ALPHA")));
    assert!(Name::from_str("Alpha").is_named("alpha"));
    assert_eq!("Alpha", Name::from_str("Alpha").as_string());
    assert!(Name::is_name_a_legal_identifier("sum.of.9"));
    assert!(Name::is_name_a_legal_identifier("x"));
    assert!(!Name::is_name_a_legal_identifier("a+b"));
    assert!(!Name::is_name_a_legal_identifier("a b"));
    assert!(!Name::is_name_a_legal_identifier("."));
}

#[test]
fn a_table_finds_names_whatever_their_case() {
    let mut table: SymbolTable<i32> = SymbolTable::new();
    table.add(Name::from_str("First"), 1);
    table.add(Name::from_str("second"), 2);
    assert_eq!(2, table.len());
    assert_eq!(Some(&1), table.try_get("FIRST"));
    assert_eq!(Some(&2), table.try_get("Second"));
    assert_eq!(None, table.try_get("third"));
    table.add(Name::from_str("FIRST"), 10);
    assert_eq!(2, table.len());
    assert_eq!(Some(&10), table.try_get("first"));
    assert!(table.contains_any("SECOND"));
    table.remove("Second");
    assert!(!table.contains_any("second"));
    assert_eq!(Some(&10), table.try_get("first"));
    assert_eq!(vec!["first"], table.get_all_names());
    table.clear();
    assert_eq!(0, table.len());
}

#[test]
fn a_set_of_indices_keeps_runs() {
    let mut set = IndexSet::new();
    assert!(set.is_empty());
    for i in [5, 6, 7, 10, 11, 3] {
        if !set.contains(i) {
            set.add(i);
        }
    }
    assert!(!set.is_empty());
    assert!(set.contains(6));
    assert!(!set.contains(8));
    assert_eq!(3, set.least());
    assert_eq!(11, set.greatest());
    let mut token = SetIterationToken::new();
    let mut seen = Vec::new();
    while let Some(i) = set.next(&mut token) {
        seen.push(i);
    }
    assert_eq!(vec![3, 5, 6, 7, 10, 11], seen);
    let single = IndexSet::new_with_elem(4);
    assert!(single.contains(4));
    assert_eq!(4, single.least());
    set.clear();
    assert!(set.is_empty());
}

#[test]
fn every_node_belongs_to_one_statement() {
    let ws = WorkSpace::new();
    let executable = parsed("a_3+2\nb_a*(a-1)\nc_[1,2,3]", &ws).unwrap();
    assert_eq!(3, executable.get_statement_count());
    let nodes = executable.get_next_node_index();
    assert!(nodes > 0);
    for node in 0..nodes {
        let mut owners = 0;
        for s in 1..=executable.get_statement_count() {
            if executable.get_statement(s).unwrap().as_node_indices().contains(node) {
                owners += 1;
            }
        }
        assert_eq!(1, owners, "node {}", node);
        let number = executable.get_statement_number_from_node_index(node).unwrap();
        assert!(executable.get_statement(number + 1).unwrap().as_node_indices().contains(node));
    }
    assert_eq!(None, executable.get_statement_number_from_node_index(nodes));
}

#[test]
fn a_sum_becomes_two_values_an_operation_and_an_end() {
    let ws = WorkSpace::new();
    let executable = parsed("3+2", &ws).unwrap();
    assert_eq!(1, executable.get_statement_count());
    assert_eq!(4, executable.get_next_node_index());
    assert!(matches!(executable.get_node(0), Node::Value(Literal::Int(3))));
    assert!(matches!(executable.get_node(1), Node::Value(Literal::Int(2))));
    match executable.get_node(2) {
        Node::Operation(op) => {
            assert_eq!("+", op.get_name());
            assert_eq!(&vec![0, 1], op.get_actual_argument_list());
        },
        _ => panic!("no operation"),
    }
    match executable.get_node(3) {
        Node::StatementEnd(root) => assert_eq!(0, *root),
        _ => panic!("no end"),
    }
    let statement = executable.get_statement(1).unwrap();
    assert_eq!(1, statement.as_line_number());
    assert_eq!(0, statement.as_first_node_index());
    assert_eq!(3, statement.as_last_node_index());
    assert!(executable.is_first_executable_node(statement, 0));
    assert!(executable.is_last_executable_node(statement, 3));
    assert!(executable.is_line_number_valid(1));
    assert!(!executable.is_line_number_valid(2));
}

#[test]
fn numbers_with_a_fraction_need_their_value() {
    let ws = WorkSpace::new();
    let source = "x_1.5";
    let tokens = Lexer::tokenize(source, &ws).unwrap();
    assert_eq!(Err(String::from("Number has no value")), Parser::new(source, &ws).parse(&tokens).map(|_| ()).map_err(|e| String::from(e.rsplit('\n').next().unwrap())));
    let executable = parsed(source, &ws).unwrap();
    let mut found = false;
    for node in 0..executable.get_next_node_index() {
        if let Node::Value(Literal::Real(bits)) = executable.get_node(node) {
            assert_eq!(1.5_f32.to_bits(), *bits);
            found = true;
        }
    }
    assert!(found);
}

#[test]
fn a_function_definition_is_one_node_with_a_body() {
    let ws = WorkSpace::new();
    let executable = parsed("$fact(n); i\nfact_1\ni_n\nagain: fact_fact*i\ni_i-1\n(i>0)-->again\n$", &ws).unwrap();
    let mut definitions = 0;
    for node in 0..executable.get_next_node_index() {
        if let Node::Definition(d) = executable.get_node(node) {
            definitions += 1;
            assert_eq!("fact", d.as_string());
            match d.get() {
                ppl::parser::tree::DefinitionType::Function(f) => {
                    assert_eq!("fact", f.name.as_string());
                    assert!(f.is_compatible_function(1));
                    assert!(!f.is_compatible_function(2));
                    assert_eq!(1, f.local_variables.as_ref().map(|l| l.len()).unwrap_or(0));
                    match &f.implementation_class {
                        ppl::symbols::metadata::FunctionImplementation::User(body) => {
                            assert!(body.executable.get_statement_count() >= 5);
                            assert_eq!(1, body.labels.len());
                            assert_eq!("again", body.labels[0].0);
                            assert!(body.executable.get_function_return_line_number().is_some());
                        },
                        _ => panic!("not a function of the user"),
                    }
                },
                _ => panic!("not a function"),
            }
        }
    }
    assert_eq!(1, definitions);
}

#[test]
fn what_is_no_program_is_refused() {
    let ws = WorkSpace::new();
    assert!(parsed("3+", &ws).is_err());
    assert!(parsed("(3", &ws).is_err());
    assert!(parsed("a[1", &ws).is_err());
    assert!(parsed("$f(\nf_1\n$", &ws).is_err());
    let e = parsed("x_(1", &ws).err().unwrap();
    assert!(e.contains("x_(1"), "{}", e);
    assert!(e.contains('^'), "{}", e);
}

#[test]
fn a_stop_fires_at_the_first_node_of_its_statement_only() {
    let ws = WorkSpace::new();
    let mut executable = parsed("a_1\nb_2+3", &ws).unwrap();
    executable.set_stop(1, true);
    let second = executable.get_statement(2).unwrap().as_first_node_index();
    let nodes = executable.get_next_node_index();
    let mut frame = Invocation::new(executable, 0);
    let mut run = Vec::new();
    loop {
        match dispatch(&mut frame, false) {
            Step::Run(k) => {
                run.push(k);
                assert_eq!(ExecutionState::Executing, frame.get_execution_state());
                finish(&mut frame, true);
            },
            Step::StopRequested => break,
            other => panic!("{:?}", other),
        }
    }
    assert_eq!((0..second).collect::<Vec<usize>>(), run);
    assert_eq!(ExecutionState::Stopped, frame.get_execution_state());
    assert_eq!(Step::Finished, dispatch(&mut frame, false));
    frame.set_execution_state(ExecutionState::Resumed);
    frame.set_next_node(second);
    let mut resumed = Vec::new();
    loop {
        match dispatch(&mut frame, false) {
            Step::Run(k) => {
                resumed.push(k);
                finish(&mut frame, true);
            },
            Step::Ended => break,
            other => panic!("{:?}", other),
        }
    }
    assert_eq!((second..nodes).collect::<Vec<usize>>(), resumed);
}

#[test]
fn an_interrupt_stops_the_frame_where_it_is() {
    let ws = WorkSpace::new();
    let executable = parsed("a_1", &ws).unwrap();
    let mut frame = Invocation::new(executable, 0);
    assert_eq!(Step::Run(0), dispatch(&mut frame, false));
    finish(&mut frame, true);
    assert_eq!(Step::Interrupted, dispatch(&mut frame, true));
    assert_eq!(ExecutionState::Stopped, frame.get_execution_state());
    assert_eq!(1, frame.next_index());
}

#[test]
fn a_node_that_fails_leaves_the_frame_stopped() {
    let ws = WorkSpace::new();
    let executable = parsed("a_1", &ws).unwrap();
    let mut frame = Invocation::new(executable, 0);
    assert_eq!(Step::Run(0), dispatch(&mut frame, false));
    assert_eq!(None, finish(&mut frame, false));
    assert_eq!(ExecutionState::Stopped, frame.get_execution_state());
}

#[test]
fn a_traced_statement_is_told_at_its_last_node() {
    let ws = WorkSpace::new();
    let executable = parsed("a_1\nb_2", &ws).unwrap();
    let last_of_first = executable.get_statement(1).unwrap().as_last_node_index();
    let mut frame = Invocation::new(executable, 0);
    let mut told = Vec::new();
    loop {
        match dispatch(&mut frame, false) {
            Step::Run(k) => {
                if let Some(line) = finish(&mut frame, true) {
                    told.push((k, line));
                }
            },
            Step::Ended => break,
            other => panic!("{:?}", other),
        }
    }
    assert!(told.is_empty());
    let _ = last_of_first;
}

fn last_line(e: &str) -> String {
    String::from(e.rsplit('\n').next().unwrap())
}

#[test]
fn a_label_twice_in_a_body_is_refused() {
    let ws = WorkSpace::new();
    let e = parsed("$f(n)\nagain: n_n-1\nAgain: n_n-2\n$", &ws).err().unwrap();
    assert_eq!("Statement label Again is duplicated", e);
    assert!(parsed("$f(n)\nagain: n_n-1\nonce: n_n-2\n$", &ws).is_ok());
}

#[test]
fn a_body_without_a_return_gets_one_behind_its_last_line() {
    let ws = WorkSpace::new();
    let executable = parsed("$f(n)\nn_n+1", &ws).unwrap();
    let mut bodies = 0;
    for node in 0..executable.get_next_node_index() {
        if let Node::Definition(d) = executable.get_node(node) {
            if let ppl::parser::tree::DefinitionType::Function(f) = d.get() {
                if let ppl::symbols::metadata::FunctionImplementation::User(body) = &f.implementation_class {
                    bodies += 1;
                    assert_eq!(2, body.executable.get_statement_count());
                    assert_eq!(Some(2), body.executable.get_function_return_line_number());
                    let last = body.executable.get_statement(2).unwrap();
                    assert_eq!(2, last.as_line_number());
                    assert!(matches!(body.executable.get_node(last.as_first_node_index()), Node::FunctionReturn));
                    assert_eq!(0, body.labels.len());
                }
            }
        }
    }
    assert_eq!(1, bodies);
}

#[test]
fn a_return_must_end_the_tokens() {
    let ws = WorkSpace::new();
    let e = parsed("$f(n)\nn_n+1\n$\nf(2)", &ws).err().unwrap();
    assert_eq!("expected end-of-string", last_line(&e));
}

#[test]
fn the_head_of_a_function_is_checked() {
    let ws = WorkSpace::new();
    assert_eq!("Expected , or )", last_line(&parsed("$f(a b)\na\n$", &ws).err().unwrap()));
    assert_eq!("identifier not found", parsed("$f(a,)\na\n$", &ws).err().unwrap());
    assert_eq!("identifier not found", parsed("$f(a:)\na\n$", &ws).err().unwrap());
    assert_eq!("identifier not found", parsed("$f(a);\na\n$", &ws).err().unwrap());
    assert_eq!("expected function body", last_line(&parsed("$f(a) a", &ws).err().unwrap()));
    assert!(parsed("$f($a:general, b); i, j\na\n$", &ws).is_ok());
}

#[test]
fn blocks_and_conditions_need_their_lines() {
    let ws = WorkSpace::new();
    assert_eq!("newline not found", parsed("if (1>0) {", &ws).err().unwrap());
    assert_eq!("newline not found", parsed("while (1>0) {", &ws).err().unwrap());
    assert_eq!("newline not found", parsed("{ a_1\n}", &ws).err().unwrap());
    assert_eq!("expected }", last_line(&parsed("{\na_1\n", &ws).err().unwrap()));
    assert_eq!("expected newline", last_line(&parsed("a_1 )", &ws).err().unwrap()));
    assert!(parsed("{\na_1\nb_2\n}\n", &ws).is_ok());
}

#[test]
fn a_while_branches_round_its_statement_and_back() {
    let ws = WorkSpace::new();
    let executable = parsed("while (i>0)\ni_i-1", &ws).unwrap();
    let nodes = executable.get_next_node_index();
    let mut round = 0;
    let mut back = 0;
    for node in 0..nodes {
        if let Node::Operation(op) = executable.get_node(node) {
            if op.get_name() == "cbranch" {
                round += 1;
                let arguments = op.get_actual_argument_list();
                assert_eq!(&vec![node - 2, node - 1], arguments);
                match executable.get_node(node - 2) {
                    Node::Operation(not) => assert_eq!("-", not.get_name()),
                    _ => panic!("no condition"),
                }
                match executable.get_node(node - 1) {
                    Node::Value(Literal::Int(target)) => assert_eq!(nodes - 1, *target as usize),
                    _ => panic!("no target"),
                }
                assert!(matches!(executable.get_node(node + 1), Node::StatementEnd(0)));
            }
            if op.get_name() == "branch" {
                back += 1;
                assert_eq!(nodes - 3, node);
                let condition = op.get_actual_argument_list()[0];
                match executable.get_node(node - 1) {
                    Node::Value(Literal::Int(target)) => assert_eq!(condition, *target as usize),
                    _ => panic!("no target"),
                }
            }
        }
    }
    assert_eq!(1, round);
    assert_eq!(1, back);
    assert_eq!(2, executable.get_statement_count());
}

#[test]
fn an_if_branches_round_its_statement() {
    let ws = WorkSpace::new();
    let executable = parsed("if (i>0)\ni_1\nelse\ni_2", &ws).unwrap();
    let nodes = executable.get_next_node_index();
    let mut round = 0;
    let mut over = 0;
    for node in 0..nodes {
        if let Node::Operation(op) = executable.get_node(node) {
            if op.get_name() == "cbranch" {
                round += 1;
                assert_eq!(&vec![node - 2, node - 1], op.get_actual_argument_list());
            }
            if op.get_name() == "branch" {
                over += 1;
                assert_eq!(&vec![node - 1], op.get_actual_argument_list());
                match executable.get_node(node - 1) {
                    Node::Value(Literal::Int(target)) => assert_eq!(nodes - 1, *target as usize),
                    _ => panic!("no target"),
                }
            }
        }
    }
    assert_eq!(1, round);
    assert_eq!(1, over);
    assert_eq!(3, executable.get_statement_count());
}

#[test]
fn a_call_holds_the_nodes_of_its_arguments() {
    let ws = WorkSpace::new();
    let executable = parsed("f(1,2)", &ws).unwrap();
    assert_eq!(4, executable.get_next_node_index());
    match executable.get_node(2) {
        Node::Operation(op) => {
            assert_eq!("f", op.get_name());
            assert_eq!(&vec![0, 1], op.get_actual_argument_list());
        },
        _ => panic!("no call"),
    }
    assert!(matches!(executable.get_node(3), Node::StatementEnd(0)));
    let executable = parsed("g()", &ws).unwrap();
    match executable.get_node(0) {
        Node::Operation(op) => {
            assert_eq!("g", op.get_name());
            assert_eq!(0, op.get_actual_argument_list().len());
        },
        _ => panic!("no call"),
    }
}

#[test]
fn a_tuple_holds_the_nodes_of_its_members() {
    let ws = WorkSpace::new();
    let executable = parsed("[7,8,9]", &ws).unwrap();
    assert_eq!(5, executable.get_next_node_index());
    match executable.get_node(3) {
        Node::Operation(op) => {
            assert_eq!("tuple", op.get_name());
            assert_eq!(&vec![0, 1, 2], op.get_actual_argument_list());
        },
        _ => panic!("no tuple"),
    }
    assert!(matches!(executable.get_node(4), Node::StatementEnd(0)));
}

#[test]
fn names_are_taken_by_value_or_by_reference() {
    let ws = WorkSpace::new();
    let executable = parsed("a_$b", &ws).unwrap();
    match executable.get_node(0) {
        Node::IdentifierByValue(name) => assert_eq!("a", name.as_string()),
        _ => panic!("no name"),
    }
    match executable.get_node(1) {
        Node::IdentifierByReference(name) => assert_eq!("b", name.as_string()),
        _ => panic!("no reference"),
    }
    match executable.get_node(2) {
        Node::Operation(op) => {
            assert_eq!("_", op.get_name());
            assert_eq!(&vec![0, 1], op.get_actual_argument_list());
        },
        _ => panic!("no assignment"),
    }
}

#[test]
fn a_field_is_a_name_and_a_selection() {
    let ws = WorkSpace::new();
    let executable = parsed("p.x", &ws).unwrap();
    let nodes = executable.get_next_node_index();
    let mut selections = 0;
    for node in 1..nodes {
        if let Node::Index(index) = executable.get_node(node) {
            selections += 1;
            assert_eq!(node - 1, index.index_position);
            match executable.get_node(node - 1) {
                Node::IdentifierByValue(name) => assert_eq!("x", name.as_string()),
                _ => panic!("no field"),
            }
        }
    }
    assert!(selections <= 1);
}

#[test]
fn datatypes_are_defined_by_one_node() {
    let ws = WorkSpace::new();
    let executable = parsed("$point = [x:integer, y:real]", &ws).unwrap();
    match executable.get_node(0) {
        Node::Definition(d) => {
            assert_eq!("point", d.as_string());
            match d.get() {
                ppl::parser::tree::DefinitionType::Structure(s) => {
                    assert_eq!(2, s.members.len());
                    assert_eq!("x", s.members[0].name.as_string());
                    assert_eq!("integer", s.members[0].datatype.as_string());
                    assert_eq!("y", s.members[1].name.as_string());
                    assert_eq!("real", s.members[1].datatype.as_string());
                },
                _ => panic!("no structure"),
            }
        },
        _ => panic!("no definition"),
    }
    let executable = parsed("$row = [1:10] integer", &ws).unwrap();
    match executable.get_node(0) {
        Node::Definition(d) => match d.get() {
            ppl::parser::tree::DefinitionType::Sequence(s) => {
                assert_eq!(1, s.lower_bound);
                assert_eq!(Some(10), s.upper_bound);
                assert_eq!("integer", s.root_datatype_name.as_string());
            },
            _ => panic!("no sequence"),
        },
        _ => panic!("no definition"),
    }
    let executable = parsed("$open = [1:] integer", &ws).unwrap();
    match executable.get_node(0) {
        Node::Definition(d) => match d.get() {
            ppl::parser::tree::DefinitionType::Sequence(s) => assert_eq!(None, s.upper_bound),
            _ => panic!("no sequence"),
        },
        _ => panic!("no definition"),
    }
    let executable = parsed("$number = integer ! real ! double", &ws).unwrap();
    assert_eq!(5, executable.get_next_node_index());
    match executable.get_node(3) {
        Node::Definition(d) => match d.get() {
            ppl::parser::tree::DefinitionType::Alternate(names) => assert_eq!(&vec![0, 1, 2], names),
            _ => panic!("no sum"),
        },
        _ => panic!("no definition"),
    }
    match executable.get_node(1) {
        Node::IdentifierByValue(name) => assert_eq!("real", name.as_string()),
        _ => panic!("no name"),
    }
}

#[test]
fn the_arguments_of_a_function_are_kept_as_they_are_given() {
    let ws = WorkSpace::new();
    let executable = parsed("$f($a:integer, b); i, j\na\n$", &ws).unwrap();
    match executable.get_node(0) {
        Node::Definition(d) => match d.get() {
            ppl::parser::tree::DefinitionType::Function(f) => {
                match &f.arguments {
                    ppl::symbols::metadata::FunctionArgumentList::Fixed(arguments) => {
                        assert_eq!(2, arguments.len());
                        assert_eq!("a", arguments[0].name.as_string());
                        assert!(matches!(arguments[0].mechanism, ppl::symbols::metadata::ArgumentMechanism::ByReference));
                        assert_eq!("integer", arguments[0].datatype.as_string());
                        assert_eq!("b", arguments[1].name.as_string());
                        assert!(matches!(arguments[1].mechanism, ppl::symbols::metadata::ArgumentMechanism::ByValue));
                        assert_eq!("general", arguments[1].datatype.as_string());
                    },
                    _ => panic!("no fixed arguments"),
                }
                let locals = f.local_variables.as_ref().unwrap();
                assert_eq!(2, locals.len());
                assert_eq!("i", locals[0].as_string());
                assert_eq!("j", locals[1].as_string());
                assert_eq!("general", f.return_value.as_ref().unwrap().as_string());
                assert_eq!("", f.help_text);
            },
            _ => panic!("no function"),
        },
        _ => panic!("no definition"),
    }
}
