//! The built-in functions there are: under which name each goes, what
//! it is called, what it takes and returns, and what is said of it.

use vstd::prelude::*;
use crate::symbols::metadata::{
    ArgumentMechanism,
    FormalArgument,
    FunctionArgumentList,
    FunctionClass,
    FunctionDescription,
    FunctionImplementation,
    MetaDataTypeName,
    SystemFunction,
};
use crate::symbols::name::Name;
use crate::text::lower;
use crate::workspace::WorkSpace;

verus! {

/// A formal argument as plain data.
pub struct FormalModel {
    pub name: Seq<char>,
    pub mechanism: ArgumentMechanism,
    pub datatype: Seq<char>,
}

/// What a function takes, as plain data.
pub enum ArgumentsModel {
    Fixed(Seq<FormalModel>),
    Varying(ArgumentMechanism),
}

/// A built-in function as plain data: the name it goes by, which may be
/// an operator; what it is called; what it takes; the datatype of what
/// it returns, if it returns anything; which function it is, with how
/// it is called; and what is said of it.
pub struct BuiltinModel {
    pub operator: Seq<char>,
    pub name: Seq<char>,
    pub arguments: ArgumentsModel,
    pub result: Option<Seq<char>>,
    pub class: FunctionClass,
    pub help: Seq<char>,
}

pub open spec fn formal(name: Seq<char>, mechanism: ArgumentMechanism, datatype: Seq<char>) -> FormalModel {
    FormalModel { name: name, mechanism: mechanism, datatype: datatype }
}

pub open spec fn entry(
    operator: Seq<char>,
    name: Seq<char>,
    arguments: ArgumentsModel,
    result: Option<Seq<char>>,
    class: FunctionClass,
    help: Seq<char>,
) -> BuiltinModel {
    BuiltinModel { operator: operator, name: name, arguments: arguments, result: result, class: class, help: help }
}

/// What a list of arguments is as plain data.
pub open spec fn arguments_model(list: FunctionArgumentList) -> ArgumentsModel {
    match list {
        FunctionArgumentList::Fixed(formals) => ArgumentsModel::Fixed(
            Seq::new(
                formals@.len(),
                |i: int| formal(formals@[i].name@, formals@[i].mechanism, formals@[i].datatype@),
            ),
        ),
        FunctionArgumentList::Varying(mechanism) => ArgumentsModel::Varying(mechanism),
    }
}

/// Whether the description of a function is that of a built-in
/// function, which goes by the name `operator`.
pub open spec fn describes(d: FunctionDescription, operator: Seq<char>, m: BuiltinModel) -> bool {
    &&& m.operator == operator
    &&& d.name@ == m.name
    &&& arguments_model(d.arguments) == m.arguments
    &&& d.local_variables is None
    &&& match (d.return_value, m.result) {
        (Some(a), Some(b)) => a@ == b,
        (None, None) => true,
        _ => false,
    }
    &&& d.implementation_class matches FunctionImplementation::System(c)
    &&& c == m.class
    &&& d.help_text@ == m.help
}

fn argument(name: &str, mechanism: ArgumentMechanism, datatype: &str) -> (r: FormalArgument)
    ensures
        r.name@ == name@,
        r.mechanism == mechanism,
        r.datatype@ == datatype@,
{
    FormalArgument { name: Name::from_str(name), mechanism: mechanism, datatype: MetaDataTypeName::from_str(datatype) }
}

fn none() -> (r: FunctionArgumentList)
    ensures
        arguments_model(r) == ArgumentsModel::Fixed(Seq::empty()),
{
    let r = FunctionArgumentList::Fixed(Vec::new());
    assert(arguments_model(r)->Fixed_0 =~= Seq::empty());
    r
}

fn one(a: FormalArgument) -> (r: FunctionArgumentList)
    ensures
        arguments_model(r) == ArgumentsModel::Fixed(seq![formal(a.name@, a.mechanism, a.datatype@)]),
{
    let ghost wanted = seq![formal(a.name@, a.mechanism, a.datatype@)];
    let mut list: Vec<FormalArgument> = Vec::new();
    list.push(a);
    let r = FunctionArgumentList::Fixed(list);
    assert(arguments_model(r)->Fixed_0 =~= wanted);
    r
}

fn two(a: FormalArgument, b: FormalArgument) -> (r: FunctionArgumentList)
    ensures
        arguments_model(r) == ArgumentsModel::Fixed(
            seq![formal(a.name@, a.mechanism, a.datatype@), formal(b.name@, b.mechanism, b.datatype@)],
        ),
{
    let ghost wanted = seq![formal(a.name@, a.mechanism, a.datatype@), formal(b.name@, b.mechanism, b.datatype@)];
    let mut list: Vec<FormalArgument> = Vec::new();
    list.push(a);
    list.push(b);
    let r = FunctionArgumentList::Fixed(list);
    assert(arguments_model(r)->Fixed_0 =~= wanted);
    r
}

fn three(a: FormalArgument, b: FormalArgument, c: FormalArgument) -> (r: FunctionArgumentList)
    ensures
        arguments_model(r) == ArgumentsModel::Fixed(
            seq![
                formal(a.name@, a.mechanism, a.datatype@),
                formal(b.name@, b.mechanism, b.datatype@),
                formal(c.name@, c.mechanism, c.datatype@),
            ],
        ),
{
    let ghost wanted = seq![
        formal(a.name@, a.mechanism, a.datatype@),
        formal(b.name@, b.mechanism, b.datatype@),
        formal(c.name@, c.mechanism, c.datatype@),
    ];
    let mut list: Vec<FormalArgument> = Vec::new();
    list.push(a);
    list.push(b);
    list.push(c);
    let r = FunctionArgumentList::Fixed(list);
    assert(arguments_model(r)->Fixed_0 =~= wanted);
    r
}

fn describe(
    operator: &'static str,
    name: &str,
    arguments: FunctionArgumentList,
    result: Option<&str>,
    class: FunctionClass,
    help: &str,
) -> (r: (&'static str, FunctionDescription))
    ensures
        r.0@ == operator@,
        describes(
            r.1,
            operator@,
            entry(
                operator@,
                name@,
                arguments_model(arguments),
                match result {
                    Some(t) => Some(t@),
                    None => None,
                },
                class,
                help@,
            ),
        ),
{
    (
        operator,
        FunctionDescription {
            name: Name::from_str(name),
            arguments: arguments,
            local_variables: None,
            return_value: match result {
                Some(t) => Some(MetaDataTypeName::from_str(t)),
                None => None,
            },
            implementation_class: FunctionImplementation::System(class),
            help_text: String::from_str(help),
        },
    )
}

/// The functions of arithmetic.
pub open spec fn arithmetic_builtin(k: int) -> Option<BuiltinModel> {
    if k == 0 {
        Some(
            entry(
                "+"@,
                "add"@,
                ArgumentsModel::Fixed(seq![formal("left"@, ArgumentMechanism::ByValue, "arith"@), formal("right"@, ArgumentMechanism::ByValue, "arith"@)]),
                Some("ARITH"@),
                FunctionClass::Diadic(SystemFunction::Add),
                "Add two values"@,
            ),
        )
    }
    else if k == 1 {
        Some(
            entry(
                "+"@,
                "plus"@,
                ArgumentsModel::Fixed(seq![formal("operand"@, ArgumentMechanism::ByValue, "arith"@)]),
                Some("ARITH"@),
                FunctionClass::Monadic(SystemFunction::Plus),
                "Noop"@,
            ),
        )
    }
    else if k == 2 {
        Some(
            entry(
                "-"@,
                "subtract"@,
                ArgumentsModel::Fixed(seq![formal("left"@, ArgumentMechanism::ByValue, "arith"@), formal("right"@, ArgumentMechanism::ByValue, "arith"@)]),
                Some("arith"@),
                FunctionClass::Diadic(SystemFunction::Subtract),
                "Subtract two values"@,
            ),
        )
    }
    else if k == 3 {
        Some(
            entry(
                "-"@,
                "minus"@,
                ArgumentsModel::Fixed(seq![formal("operand"@, ArgumentMechanism::ByValue, "arith"@)]),
                Some("arith"@),
                FunctionClass::Monadic(SystemFunction::Minus),
                "Negate a value"@,
            ),
        )
    }
    else if k == 4 {
        Some(
            entry(
                "*"@,
                "multiply"@,
                ArgumentsModel::Fixed(seq![formal("left"@, ArgumentMechanism::ByValue, "arith"@), formal("right"@, ArgumentMechanism::ByValue, "arith"@)]),
                Some("arith"@),
                FunctionClass::Diadic(SystemFunction::Multiply),
                "Multiply two values"@,
            ),
        )
    }
    else if k == 5 {
        Some(
            entry(
                "/"@,
                "divide"@,
                ArgumentsModel::Fixed(seq![formal("left"@, ArgumentMechanism::ByValue, "arith"@), formal("right"@, ArgumentMechanism::ByValue, "arith"@)]),
                Some("arith"@),
                FunctionClass::Diadic(SystemFunction::Divide),
                "Divide two values"@,
            ),
        )
    }
    else if k == 6 {
        Some(
            entry(
                "^"@,
                "power"@,
                ArgumentsModel::Fixed(seq![formal("left"@, ArgumentMechanism::ByValue, "arith"@), formal("right"@, ArgumentMechanism::ByValue, "arith"@)]),
                Some("ARITH"@),
                FunctionClass::Diadic(SystemFunction::Power),
                "Raise a value to a power"@,
            ),
        )
    }
    else if k == 7 {
        Some(
            entry(
                "add"@,
                "add"@,
                ArgumentsModel::Fixed(seq![formal("left"@, ArgumentMechanism::ByValue, "arith"@), formal("right"@, ArgumentMechanism::ByValue, "arith"@)]),
                Some("ARITH"@),
                FunctionClass::Diadic(SystemFunction::Add),
                "Add two values"@,
            ),
        )
    }
    else if k == 8 {
        Some(
            entry(
                "div"@,
                "div"@,
                ArgumentsModel::Fixed(seq![formal("left"@, ArgumentMechanism::ByValue, "arith"@), formal("right"@, ArgumentMechanism::ByValue, "arith"@)]),
                Some("arith"@),
                FunctionClass::Diadic(SystemFunction::Divide),
                "divide two values"@,
            ),
        )
    }
    else if k == 9 {
        Some(
            entry(
                "minus"@,
                "minus"@,
                ArgumentsModel::Fixed(seq![formal("operand"@, ArgumentMechanism::ByValue, "arith"@)]),
                Some("arith"@),
                FunctionClass::Monadic(SystemFunction::Minus),
                "Negate a value"@,
            ),
        )
    }
    else if k == 10 {
        Some(
            entry(
                "mul"@,
                "mul"@,
                ArgumentsModel::Fixed(seq![formal("left"@, ArgumentMechanism::ByValue, "arith"@), formal("right"@, ArgumentMechanism::ByValue, "arith"@)]),
                Some("arith"@),
                FunctionClass::Diadic(SystemFunction::Multiply),
                "Multiply two values"@,
            ),
        )
    }
    else if k == 11 {
        Some(
            entry(
                "plus"@,
                "plus"@,
                ArgumentsModel::Fixed(seq![formal("operand"@, ArgumentMechanism::ByValue, "arith"@)]),
                Some("arith"@),
                FunctionClass::Monadic(SystemFunction::Plus),
                "Noop"@,
            ),
        )
    }
    else if k == 12 {
        Some(
            entry(
                "power"@,
                "power"@,
                ArgumentsModel::Fixed(seq![formal("left"@, ArgumentMechanism::ByValue, "arith"@), formal("right"@, ArgumentMechanism::ByValue, "arith"@)]),
                Some("ARITH"@),
                FunctionClass::Diadic(SystemFunction::Power),
                "Raise a value to a power"@,
            ),
        )
    }
    else if k == 13 {
        Some(
            entry(
                "sub"@,
                "sub"@,
                ArgumentsModel::Fixed(seq![formal("left"@, ArgumentMechanism::ByValue, "arith"@), formal("right"@, ArgumentMechanism::ByValue, "arith"@)]),
                Some("arith"@),
                FunctionClass::Diadic(SystemFunction::Subtract),
                "Subtract two values"@,
            ),
        )
    }
    else {
        None
    }
}

fn arithmetic_entry(k: usize) -> (r: Option<(&'static str, FunctionDescription)>)
    ensures
        match (r, arithmetic_builtin(k as int)) {
            (Some(p), Some(m)) => p.0@ == m.operator && describes(p.1, p.0@, m),
            (None, None) => true,
            _ => false,
        },
{
    match k {
        0 => Some(
            describe(
                "+",
                "add",
                two(argument("left", ArgumentMechanism::ByValue, "arith"), argument("right", ArgumentMechanism::ByValue, "arith")),
                Some("ARITH"),
                FunctionClass::Diadic(SystemFunction::Add),
                "Add two values",
            ),
        ),
        1 => Some(
            describe(
                "+",
                "plus",
                one(argument("operand", ArgumentMechanism::ByValue, "arith")),
                Some("ARITH"),
                FunctionClass::Monadic(SystemFunction::Plus),
                "Noop",
            ),
        ),
        2 => Some(
            describe(
                "-",
                "subtract",
                two(argument("left", ArgumentMechanism::ByValue, "arith"), argument("right", ArgumentMechanism::ByValue, "arith")),
                Some("arith"),
                FunctionClass::Diadic(SystemFunction::Subtract),
                "Subtract two values",
            ),
        ),
        3 => Some(
            describe(
                "-",
                "minus",
                one(argument("operand", ArgumentMechanism::ByValue, "arith")),
                Some("arith"),
                FunctionClass::Monadic(SystemFunction::Minus),
                "Negate a value",
            ),
        ),
        4 => Some(
            describe(
                "*",
                "multiply",
                two(argument("left", ArgumentMechanism::ByValue, "arith"), argument("right", ArgumentMechanism::ByValue, "arith")),
                Some("arith"),
                FunctionClass::Diadic(SystemFunction::Multiply),
                "Multiply two values",
            ),
        ),
        5 => Some(
            describe(
                "/",
                "divide",
                two(argument("left", ArgumentMechanism::ByValue, "arith"), argument("right", ArgumentMechanism::ByValue, "arith")),
                Some("arith"),
                FunctionClass::Diadic(SystemFunction::Divide),
                "Divide two values",
            ),
        ),
        6 => Some(
            describe(
                "^",
                "power",
                two(argument("left", ArgumentMechanism::ByValue, "arith"), argument("right", ArgumentMechanism::ByValue, "arith")),
                Some("ARITH"),
                FunctionClass::Diadic(SystemFunction::Power),
                "Raise a value to a power",
            ),
        ),
        7 => Some(
            describe(
                "add",
                "add",
                two(argument("left", ArgumentMechanism::ByValue, "arith"), argument("right", ArgumentMechanism::ByValue, "arith")),
                Some("ARITH"),
                FunctionClass::Diadic(SystemFunction::Add),
                "Add two values",
            ),
        ),
        8 => Some(
            describe(
                "div",
                "div",
                two(argument("left", ArgumentMechanism::ByValue, "arith"), argument("right", ArgumentMechanism::ByValue, "arith")),
                Some("arith"),
                FunctionClass::Diadic(SystemFunction::Divide),
                "divide two values",
            ),
        ),
        9 => Some(
            describe(
                "minus",
                "minus",
                one(argument("operand", ArgumentMechanism::ByValue, "arith")),
                Some("arith"),
                FunctionClass::Monadic(SystemFunction::Minus),
                "Negate a value",
            ),
        ),
        10 => Some(
            describe(
                "mul",
                "mul",
                two(argument("left", ArgumentMechanism::ByValue, "arith"), argument("right", ArgumentMechanism::ByValue, "arith")),
                Some("arith"),
                FunctionClass::Diadic(SystemFunction::Multiply),
                "Multiply two values",
            ),
        ),
        11 => Some(
            describe(
                "plus",
                "plus",
                one(argument("operand", ArgumentMechanism::ByValue, "arith")),
                Some("arith"),
                FunctionClass::Monadic(SystemFunction::Plus),
                "Noop",
            ),
        ),
        12 => Some(
            describe(
                "power",
                "power",
                two(argument("left", ArgumentMechanism::ByValue, "arith"), argument("right", ArgumentMechanism::ByValue, "arith")),
                Some("ARITH"),
                FunctionClass::Diadic(SystemFunction::Power),
                "Raise a value to a power",
            ),
        ),
        13 => Some(
            describe(
                "sub",
                "sub",
                two(argument("left", ArgumentMechanism::ByValue, "arith"), argument("right", ArgumentMechanism::ByValue, "arith")),
                Some("arith"),
                FunctionClass::Diadic(SystemFunction::Subtract),
                "Subtract two values",
            ),
        ),
        _ => None,
    }
}

/// The comparisons and the connectives.
pub open spec fn comparison_builtin(k: int) -> Option<BuiltinModel> {
    if k == 0 {
        Some(
            entry(
                "=="@,
                "is_an_instance_of"@,
                ArgumentsModel::Fixed(seq![formal("value"@, ArgumentMechanism::ByValue, "general"@), formal("data_type"@, ArgumentMechanism::ByValue, "string"@)]),
                Some("bool"@),
                FunctionClass::Diadic(SystemFunction::IsAnInstanceOf),
                "Is an instance of a type"@,
            ),
        )
    }
    else if k == 1 {
        Some(
            entry(
                "="@,
                "eq"@,
                ArgumentsModel::Fixed(seq![formal("left"@, ArgumentMechanism::ByValue, "general"@), formal("right"@, ArgumentMechanism::ByValue, "general"@)]),
                Some("bool"@),
                FunctionClass::Diadic(SystemFunction::Eq),
                "Compare two values for equality"@,
            ),
        )
    }
    else if k == 2 {
        Some(
            entry(
                "<"@,
                "less"@,
                ArgumentsModel::Fixed(seq![formal("left"@, ArgumentMechanism::ByValue, "general"@), formal("right"@, ArgumentMechanism::ByValue, "general"@)]),
                Some("bool"@),
                FunctionClass::Diadic(SystemFunction::Less),
                "Compare two values, true if the first is less than the second"@,
            ),
        )
    }
    else if k == 3 {
        Some(
            entry(
                "<="@,
                "lesseq"@,
                ArgumentsModel::Fixed(seq![formal("left"@, ArgumentMechanism::ByValue, "general"@), formal("right"@, ArgumentMechanism::ByValue, "general"@)]),
                Some("bool"@),
                FunctionClass::Diadic(SystemFunction::Lesseq),
                "Compare two values, true if the first is less than or equal to the second"@,
            ),
        )
    }
    else if k == 4 {
        Some(
            entry(
                ">"@,
                "gr"@,
                ArgumentsModel::Fixed(seq![formal("left"@, ArgumentMechanism::ByValue, "general"@), formal("right"@, ArgumentMechanism::ByValue, "general"@)]),
                Some("bool"@),
                FunctionClass::Diadic(SystemFunction::Gr),
                "Compare two values, true if the first is greater than the second"@,
            ),
        )
    }
    else if k == 5 {
        Some(
            entry(
                ">="@,
                "greq"@,
                ArgumentsModel::Fixed(seq![formal("left"@, ArgumentMechanism::ByValue, "general"@), formal("right"@, ArgumentMechanism::ByValue, "general"@)]),
                Some("bool"@),
                FunctionClass::Diadic(SystemFunction::Greq),
                "Compare two values, true if the first is greater than or equal to the second"@,
            ),
        )
    }
    else if k == 6 {
        Some(
            entry(
                "#"@,
                "noteq"@,
                ArgumentsModel::Fixed(seq![formal("left"@, ArgumentMechanism::ByValue, "general"@), formal("right"@, ArgumentMechanism::ByValue, "general"@)]),
                Some("bool"@),
                FunctionClass::Diadic(SystemFunction::Noteq),
                "Compare two values for inequality"@,
            ),
        )
    }
    else if k == 7 {
        Some(
            entry(
                "&"@,
                "and"@,
                ArgumentsModel::Fixed(seq![formal("left"@, ArgumentMechanism::ByValue, "bool"@), formal("right"@, ArgumentMechanism::ByValue, "bool"@)]),
                Some("bool"@),
                FunctionClass::Diadic(SystemFunction::And),
                "Logical and of two values"@,
            ),
        )
    }
    else if k == 8 {
        Some(
            entry(
                "!"@,
                "or"@,
                ArgumentsModel::Fixed(seq![formal("left"@, ArgumentMechanism::ByValue, "bool"@), formal("right"@, ArgumentMechanism::ByValue, "bool"@)]),
                Some("bool"@),
                FunctionClass::Diadic(SystemFunction::Or),
                "Logical or of two values"@,
            ),
        )
    }
    else if k == 9 {
        Some(
            entry(
                "and"@,
                "and"@,
                ArgumentsModel::Fixed(seq![formal("left"@, ArgumentMechanism::ByValue, "bool"@), formal("right"@, ArgumentMechanism::ByValue, "bool"@)]),
                Some("bool"@),
                FunctionClass::Diadic(SystemFunction::And),
                "Logical and of two values"@,
            ),
        )
    }
    else if k == 10 {
        Some(
            entry(
                "eq"@,
                "eq"@,
                ArgumentsModel::Fixed(seq![formal("left"@, ArgumentMechanism::ByValue, "general"@), formal("right"@, ArgumentMechanism::ByValue, "general"@)]),
                Some("bool"@),
                FunctionClass::Diadic(SystemFunction::Eq),
                "Compare two values for equality"@,
            ),
        )
    }
    else if k == 11 {
        Some(
            entry(
                "gr"@,
                "gr"@,
                ArgumentsModel::Fixed(seq![formal("left"@, ArgumentMechanism::ByValue, "general"@), formal("right"@, ArgumentMechanism::ByValue, "general"@)]),
                Some("bool"@),
                FunctionClass::Diadic(SystemFunction::Gr),
                "Compare two values, true if the first is greater than the second"@,
            ),
        )
    }
    else if k == 12 {
        Some(
            entry(
                "greq"@,
                "greq"@,
                ArgumentsModel::Fixed(seq![formal("left"@, ArgumentMechanism::ByValue, "general"@), formal("right"@, ArgumentMechanism::ByValue, "general"@)]),
                Some("bool"@),
                FunctionClass::Diadic(SystemFunction::Greq),
                "Compare two values, true if the first is greater than or equal to the second"@,
            ),
        )
    }
    else if k == 13 {
        Some(
            entry(
                "instance"@,
                "instance"@,
                ArgumentsModel::Fixed(seq![formal("value"@, ArgumentMechanism::ByValue, "general"@), formal("data_type"@, ArgumentMechanism::ByValue, "string"@)]),
                Some("bool"@),
                FunctionClass::Diadic(SystemFunction::IsAnInstanceOf),
                "Is an instance of a type"@,
            ),
        )
    }
    else if k == 14 {
        Some(
            entry(
                "less"@,
                "less"@,
                ArgumentsModel::Fixed(seq![formal("left"@, ArgumentMechanism::ByValue, "general"@), formal("right"@, ArgumentMechanism::ByValue, "general"@)]),
                Some("bool"@),
                FunctionClass::Diadic(SystemFunction::Less),
                "Compare two values, true if the first is less than the second"@,
            ),
        )
    }
    else if k == 15 {
        Some(
            entry(
                "lesseq"@,
                "lesseq"@,
                ArgumentsModel::Fixed(seq![formal("left"@, ArgumentMechanism::ByValue, "general"@), formal("right"@, ArgumentMechanism::ByValue, "general"@)]),
                Some("bool"@),
                FunctionClass::Diadic(SystemFunction::Lesseq),
                "Compare two values, true if the first is less than or equal to the second"@,
            ),
        )
    }
    else if k == 16 {
        Some(
            entry(
                "noteq"@,
                "noteq"@,
                ArgumentsModel::Fixed(seq![formal("left"@, ArgumentMechanism::ByValue, "general"@), formal("right"@, ArgumentMechanism::ByValue, "general"@)]),
                Some("bool"@),
                FunctionClass::Diadic(SystemFunction::Noteq),
                "Compare two values for inequality"@,
            ),
        )
    }
    else if k == 17 {
        Some(
            entry(
                "or"@,
                "or"@,
                ArgumentsModel::Fixed(seq![formal("left"@, ArgumentMechanism::ByValue, "bool"@), formal("right"@, ArgumentMechanism::ByValue, "bool"@)]),
                Some("bool"@),
                FunctionClass::Diadic(SystemFunction::Or),
                "Logical or of two values"@,
            ),
        )
    }
    else {
        None
    }
}

fn comparison_entry(k: usize) -> (r: Option<(&'static str, FunctionDescription)>)
    ensures
        match (r, comparison_builtin(k as int)) {
            (Some(p), Some(m)) => p.0@ == m.operator && describes(p.1, p.0@, m),
            (None, None) => true,
            _ => false,
        },
{
    match k {
        0 => Some(
            describe(
                "==",
                "is_an_instance_of",
                two(argument("value", ArgumentMechanism::ByValue, "general"), argument("data_type", ArgumentMechanism::ByValue, "string")),
                Some("bool"),
                FunctionClass::Diadic(SystemFunction::IsAnInstanceOf),
                "Is an instance of a type",
            ),
        ),
        1 => Some(
            describe(
                "=",
                "eq",
                two(argument("left", ArgumentMechanism::ByValue, "general"), argument("right", ArgumentMechanism::ByValue, "general")),
                Some("bool"),
                FunctionClass::Diadic(SystemFunction::Eq),
                "Compare two values for equality",
            ),
        ),
        2 => Some(
            describe(
                "<",
                "less",
                two(argument("left", ArgumentMechanism::ByValue, "general"), argument("right", ArgumentMechanism::ByValue, "general")),
                Some("bool"),
                FunctionClass::Diadic(SystemFunction::Less),
                "Compare two values, true if the first is less than the second",
            ),
        ),
        3 => Some(
            describe(
                "<=",
                "lesseq",
                two(argument("left", ArgumentMechanism::ByValue, "general"), argument("right", ArgumentMechanism::ByValue, "general")),
                Some("bool"),
                FunctionClass::Diadic(SystemFunction::Lesseq),
                "Compare two values, true if the first is less than or equal to the second",
            ),
        ),
        4 => Some(
            describe(
                ">",
                "gr",
                two(argument("left", ArgumentMechanism::ByValue, "general"), argument("right", ArgumentMechanism::ByValue, "general")),
                Some("bool"),
                FunctionClass::Diadic(SystemFunction::Gr),
                "Compare two values, true if the first is greater than the second",
            ),
        ),
        5 => Some(
            describe(
                ">=",
                "greq",
                two(argument("left", ArgumentMechanism::ByValue, "general"), argument("right", ArgumentMechanism::ByValue, "general")),
                Some("bool"),
                FunctionClass::Diadic(SystemFunction::Greq),
                "Compare two values, true if the first is greater than or equal to the second",
            ),
        ),
        6 => Some(
            describe(
                "#",
                "noteq",
                two(argument("left", ArgumentMechanism::ByValue, "general"), argument("right", ArgumentMechanism::ByValue, "general")),
                Some("bool"),
                FunctionClass::Diadic(SystemFunction::Noteq),
                "Compare two values for inequality",
            ),
        ),
        7 => Some(
            describe(
                "&",
                "and",
                two(argument("left", ArgumentMechanism::ByValue, "bool"), argument("right", ArgumentMechanism::ByValue, "bool")),
                Some("bool"),
                FunctionClass::Diadic(SystemFunction::And),
                "Logical and of two values",
            ),
        ),
        8 => Some(
            describe(
                "!",
                "or",
                two(argument("left", ArgumentMechanism::ByValue, "bool"), argument("right", ArgumentMechanism::ByValue, "bool")),
                Some("bool"),
                FunctionClass::Diadic(SystemFunction::Or),
                "Logical or of two values",
            ),
        ),
        9 => Some(
            describe(
                "and",
                "and",
                two(argument("left", ArgumentMechanism::ByValue, "bool"), argument("right", ArgumentMechanism::ByValue, "bool")),
                Some("bool"),
                FunctionClass::Diadic(SystemFunction::And),
                "Logical and of two values",
            ),
        ),
        10 => Some(
            describe(
                "eq",
                "eq",
                two(argument("left", ArgumentMechanism::ByValue, "general"), argument("right", ArgumentMechanism::ByValue, "general")),
                Some("bool"),
                FunctionClass::Diadic(SystemFunction::Eq),
                "Compare two values for equality",
            ),
        ),
        11 => Some(
            describe(
                "gr",
                "gr",
                two(argument("left", ArgumentMechanism::ByValue, "general"), argument("right", ArgumentMechanism::ByValue, "general")),
                Some("bool"),
                FunctionClass::Diadic(SystemFunction::Gr),
                "Compare two values, true if the first is greater than the second",
            ),
        ),
        12 => Some(
            describe(
                "greq",
                "greq",
                two(argument("left", ArgumentMechanism::ByValue, "general"), argument("right", ArgumentMechanism::ByValue, "general")),
                Some("bool"),
                FunctionClass::Diadic(SystemFunction::Greq),
                "Compare two values, true if the first is greater than or equal to the second",
            ),
        ),
        13 => Some(
            describe(
                "instance",
                "instance",
                two(argument("value", ArgumentMechanism::ByValue, "general"), argument("data_type", ArgumentMechanism::ByValue, "string")),
                Some("bool"),
                FunctionClass::Diadic(SystemFunction::IsAnInstanceOf),
                "Is an instance of a type",
            ),
        ),
        14 => Some(
            describe(
                "less",
                "less",
                two(argument("left", ArgumentMechanism::ByValue, "general"), argument("right", ArgumentMechanism::ByValue, "general")),
                Some("bool"),
                FunctionClass::Diadic(SystemFunction::Less),
                "Compare two values, true if the first is less than the second",
            ),
        ),
        15 => Some(
            describe(
                "lesseq",
                "lesseq",
                two(argument("left", ArgumentMechanism::ByValue, "general"), argument("right", ArgumentMechanism::ByValue, "general")),
                Some("bool"),
                FunctionClass::Diadic(SystemFunction::Lesseq),
                "Compare two values, true if the first is less than or equal to the second",
            ),
        ),
        16 => Some(
            describe(
                "noteq",
                "noteq",
                two(argument("left", ArgumentMechanism::ByValue, "general"), argument("right", ArgumentMechanism::ByValue, "general")),
                Some("bool"),
                FunctionClass::Diadic(SystemFunction::Noteq),
                "Compare two values for inequality",
            ),
        ),
        17 => Some(
            describe(
                "or",
                "or",
                two(argument("left", ArgumentMechanism::ByValue, "bool"), argument("right", ArgumentMechanism::ByValue, "bool")),
                Some("bool"),
                FunctionClass::Diadic(SystemFunction::Or),
                "Logical or of two values",
            ),
        ),
        _ => None,
    }
}

/// The functions for finding faults.
pub open spec fn debugging_builtin(k: int) -> Option<BuiltinModel> {
    if k == 0 {
        Some(
            entry(
                "break"@,
                "break"@,
                ArgumentsModel::Fixed(Seq::empty()),
                None,
                FunctionClass::NullValuedNullary(SystemFunction::Breakpoint),
                "Interrupts the currently executing function"@,
            ),
        )
    }
    else if k == 1 {
        Some(
            entry(
                "debug"@,
                "debug"@,
                ArgumentsModel::Fixed(Seq::empty()),
                Some("string"@),
                FunctionClass::Nullary(SystemFunction::ShowDebug),
                "Display debug options"@,
            ),
        )
    }
    else if k == 2 {
        Some(
            entry(
                "debug"@,
                "debug"@,
                ArgumentsModel::Fixed(seq![formal("operation"@, ArgumentMechanism::ByValue, "string"@), formal("option"@, ArgumentMechanism::ByValue, "string"@)]),
                None,
                FunctionClass::NullValuedDiadic(SystemFunction::Debug),
                "{\"SET\" | \"CLEAR\"} debug options {\"LEX\" | \"PARSE\"}"@,
            ),
        )
    }
    else if k == 3 {
        Some(
            entry(
                "stack.usage"@,
                "stack.usage"@,
                ArgumentsModel::Fixed(Seq::empty()),
                Some("int"@),
                FunctionClass::Nullary(SystemFunction::StackUsage),
                "Returns the amount of stack space consumed by the function, in kilobytes"@,
            ),
        )
    }
    else if k == 4 {
        Some(
            entry(
                "stop"@,
                "stop"@,
                ArgumentsModel::Varying(ArgumentMechanism::ByReference),
                None,
                FunctionClass::NullValuedVarying(SystemFunction::Stop),
                "Sets breakpoints at the specified lines in the designated function."@,
            ),
        )
    }
    else if k == 5 {
        Some(
            entry(
                "trace"@,
                "trace"@,
                ArgumentsModel::Varying(ArgumentMechanism::ByReference),
                None,
                FunctionClass::NullValuedVarying(SystemFunction::Trace),
                "Trace execution of the specified function."@,
            ),
        )
    }
    else if k == 6 {
        Some(
            entry(
                "unstop"@,
                "unstop"@,
                ArgumentsModel::Varying(ArgumentMechanism::ByReference),
                None,
                FunctionClass::NullValuedVarying(SystemFunction::Unstop),
                "Removes breakpoints from the designated function"@,
            ),
        )
    }
    else if k == 7 {
        Some(
            entry(
                "untrace"@,
                "untrace"@,
                ArgumentsModel::Varying(ArgumentMechanism::ByReference),
                None,
                FunctionClass::NullValuedVarying(SystemFunction::Untrace),
                "Cease tracing execution of the specified function."@,
            ),
        )
    }
    else {
        None
    }
}

fn debugging_entry(k: usize) -> (r: Option<(&'static str, FunctionDescription)>)
    ensures
        match (r, debugging_builtin(k as int)) {
            (Some(p), Some(m)) => p.0@ == m.operator && describes(p.1, p.0@, m),
            (None, None) => true,
            _ => false,
        },
{
    match k {
        0 => Some(
            describe(
                "break",
                "break",
                none(),
                None,
                FunctionClass::NullValuedNullary(SystemFunction::Breakpoint),
                "Interrupts the currently executing function",
            ),
        ),
        1 => Some(
            describe(
                "debug",
                "debug",
                none(),
                Some("string"),
                FunctionClass::Nullary(SystemFunction::ShowDebug),
                "Display debug options",
            ),
        ),
        2 => Some(
            describe(
                "debug",
                "debug",
                two(argument("operation", ArgumentMechanism::ByValue, "string"), argument("option", ArgumentMechanism::ByValue, "string")),
                None,
                FunctionClass::NullValuedDiadic(SystemFunction::Debug),
                "{\"SET\" | \"CLEAR\"} debug options {\"LEX\" | \"PARSE\"}",
            ),
        ),
        3 => Some(
            describe(
                "stack.usage",
                "stack.usage",
                none(),
                Some("int"),
                FunctionClass::Nullary(SystemFunction::StackUsage),
                "Returns the amount of stack space consumed by the function, in kilobytes",
            ),
        ),
        4 => Some(
            describe(
                "stop",
                "stop",
                FunctionArgumentList::Varying(ArgumentMechanism::ByReference),
                None,
                FunctionClass::NullValuedVarying(SystemFunction::Stop),
                "Sets breakpoints at the specified lines in the designated function.",
            ),
        ),
        5 => Some(
            describe(
                "trace",
                "trace",
                FunctionArgumentList::Varying(ArgumentMechanism::ByReference),
                None,
                FunctionClass::NullValuedVarying(SystemFunction::Trace),
                "Trace execution of the specified function.",
            ),
        ),
        6 => Some(
            describe(
                "unstop",
                "unstop",
                FunctionArgumentList::Varying(ArgumentMechanism::ByReference),
                None,
                FunctionClass::NullValuedVarying(SystemFunction::Unstop),
                "Removes breakpoints from the designated function",
            ),
        ),
        7 => Some(
            describe(
                "untrace",
                "untrace",
                FunctionArgumentList::Varying(ArgumentMechanism::ByReference),
                None,
                FunctionClass::NullValuedVarying(SystemFunction::Untrace),
                "Cease tracing execution of the specified function.",
            ),
        ),
        _ => None,
    }
}

/// The functions on datatypes, functions and the workspace.
pub open spec fn metadata_builtin(k: int) -> Option<BuiltinModel> {
    if k == 0 {
        Some(
            entry(
                "?"@,
                "display"@,
                ArgumentsModel::Fixed(seq![formal("function"@, ArgumentMechanism::ByReference, "general"@)]),
                Some("string"@),
                FunctionClass::Monadic(SystemFunction::Display),
                "Display the source text of a function"@,
            ),
        )
    }
    else if k == 1 {
        Some(
            entry(
                "%"@,
                "relocate"@,
                ArgumentsModel::Fixed(seq![formal("line"@, ArgumentMechanism::ByValue, "arith"@)]),
                Some("ARITH"@),
                FunctionClass::Monadic(SystemFunction::Relocate),
                "Designates a relocatable line number"@,
            ),
        )
    }
    else if k == 2 {
        Some(
            entry(
                "binary"@,
                "binary"@,
                ArgumentsModel::Fixed(seq![formal("operator"@, ArgumentMechanism::ByValue, "string"@), formal("function"@, ArgumentMechanism::ByReference, "general"@)]),
                None,
                FunctionClass::NullValuedDiadic(SystemFunction::Binary),
                "Associates the operator with a diadic function"@,
            ),
        )
    }
    else if k == 3 {
        Some(
            entry(
                "display"@,
                "display"@,
                ArgumentsModel::Fixed(seq![formal("function"@, ArgumentMechanism::ByReference, "general"@)]),
                Some("string"@),
                FunctionClass::Monadic(SystemFunction::Display),
                "Display the source text of a function"@,
            ),
        )
    }
    else if k == 4 {
        Some(
            entry(
                "edit"@,
                "edit"@,
                ArgumentsModel::Varying(ArgumentMechanism::ByReference),
                Some("general"@),
                FunctionClass::Varying(SystemFunction::Edit),
                "Edit a definition"@,
            ),
        )
    }
    else if k == 5 {
        Some(
            entry(
                "erase"@,
                "erase"@,
                ArgumentsModel::Varying(ArgumentMechanism::ByReference),
                None,
                FunctionClass::NullValuedVarying(SystemFunction::Erase),
                "Causes the meanings of the identifiers to be erased from the system. Everything is erased if called with no arguments."@,
            ),
        )
    }
    else if k == 6 {
        Some(
            entry(
                "false"@,
                "false"@,
                ArgumentsModel::Fixed(Seq::empty()),
                Some("bool"@),
                FunctionClass::Nullary(SystemFunction::FalseValue),
                "Boolean value of false"@,
            ),
        )
    }
    else if k == 7 {
        Some(
            entry(
                "help"@,
                "help"@,
                ArgumentsModel::Varying(ArgumentMechanism::ByReference),
                Some("string"@),
                FunctionClass::Varying(SystemFunction::Help),
                "Use HELP(\"<item>\") for more information"@,
            ),
        )
    }
    else if k == 8 {
        Some(
            entry(
                "l.bound"@,
                "l.bound"@,
                ArgumentsModel::Fixed(seq![formal("operand"@, ArgumentMechanism::ByValue, "general"@)]),
                Some("int"@),
                FunctionClass::Monadic(SystemFunction::LowerBound),
                "Returns the lower bound of the operand. Non-sequences are defined to be 1."@,
            ),
        )
    }
    else if k == 9 {
        Some(
            entry(
                "length"@,
                "length"@,
                ArgumentsModel::Fixed(seq![formal("operand"@, ArgumentMechanism::ByValue, "general"@)]),
                Some("int"@),
                FunctionClass::Monadic(SystemFunction::Length),
                "Returns the number of components of the operand. If the operand is atomic, Length is defined to be one."@,
            ),
        )
    }
    else if k == 10 {
        Some(
            entry(
                "make"@,
                "make"@,
                ArgumentsModel::Fixed(seq![formal("sequence_type"@, ArgumentMechanism::ByReference, "general"@), formal("count"@, ArgumentMechanism::ByValue, "arith"@), formal("value"@, ArgumentMechanism::ByValue, "general"@)]),
                Some("general"@),
                FunctionClass::Triadic(SystemFunction::Make),
                "Construct a sequence with {count} copies of {value}"@,
            ),
        )
    }
    else if k == 11 {
        Some(
            entry(
                "read"@,
                "read"@,
                ArgumentsModel::Fixed(seq![formal("filename"@, ArgumentMechanism::ByValue, "string"@)]),
                None,
                FunctionClass::NullValuedMonadic(SystemFunction::Read),
                "Loads the workspace from an ASCII file"@,
            ),
        )
    }
    else if k == 12 {
        Some(
            entry(
                "reset"@,
                "reset"@,
                ArgumentsModel::Fixed(Seq::empty()),
                None,
                FunctionClass::NullValuedNullary(SystemFunction::Reset),
                "Erases all nests of function calls."@,
            ),
        )
    }
    else if k == 13 {
        Some(
            entry(
                "symbol.table"@,
                "symbol.table"@,
                ArgumentsModel::Varying(ArgumentMechanism::ByReference),
                None,
                FunctionClass::NullValuedNullary(SystemFunction::DumpSymbolTable),
                "Dump the symbol table"@,
            ),
        )
    }
    else if k == 14 {
        Some(
            entry(
                "true"@,
                "true"@,
                ArgumentsModel::Fixed(Seq::empty()),
                Some("bool"@),
                FunctionClass::Nullary(SystemFunction::TrueValue),
                "Boolean false value"@,
            ),
        )
    }
    else if k == 15 {
        Some(
            entry(
                "type"@,
                "type"@,
                ArgumentsModel::Fixed(seq![formal("operand"@, ArgumentMechanism::ByValue, "general"@)]),
                Some("string"@),
                FunctionClass::Monadic(SystemFunction::GetType),
                "Returns the data type of the operand"@,
            ),
        )
    }
    else if k == 16 {
        Some(
            entry(
                "unary"@,
                "unary"@,
                ArgumentsModel::Fixed(seq![formal("operator"@, ArgumentMechanism::ByValue, "string"@), formal("function"@, ArgumentMechanism::ByReference, "general"@)]),
                None,
                FunctionClass::NullValuedDiadic(SystemFunction::Unary),
                "Associates the operator with a diadic function"@,
            ),
        )
    }
    else if k == 17 {
        Some(
            entry(
                "version"@,
                "version"@,
                ArgumentsModel::Fixed(Seq::empty()),
                Some("string"@),
                FunctionClass::Nullary(SystemFunction::Version),
                "Return PPL's version string"@,
            ),
        )
    }
    else if k == 18 {
        Some(
            entry(
                "write"@,
                "write"@,
                ArgumentsModel::Fixed(seq![formal("filename"@, ArgumentMechanism::ByValue, "string"@)]),
                None,
                FunctionClass::NullValuedMonadic(SystemFunction::Write),
                "Writes the contents of the workspace to an ASCII file"@,
            ),
        )
    }
    else {
        None
    }
}

fn metadata_entry(k: usize) -> (r: Option<(&'static str, FunctionDescription)>)
    ensures
        match (r, metadata_builtin(k as int)) {
            (Some(p), Some(m)) => p.0@ == m.operator && describes(p.1, p.0@, m),
            (None, None) => true,
            _ => false,
        },
{
    match k {
        0 => Some(
            describe(
                "?",
                "display",
                one(argument("function", ArgumentMechanism::ByReference, "general")),
                Some("string"),
                FunctionClass::Monadic(SystemFunction::Display),
                "Display the source text of a function",
            ),
        ),
        1 => Some(
            describe(
                "%",
                "relocate",
                one(argument("line", ArgumentMechanism::ByValue, "arith")),
                Some("ARITH"),
                FunctionClass::Monadic(SystemFunction::Relocate),
                "Designates a relocatable line number",
            ),
        ),
        2 => Some(
            describe(
                "binary",
                "binary",
                two(argument("operator", ArgumentMechanism::ByValue, "string"), argument("function", ArgumentMechanism::ByReference, "general")),
                None,
                FunctionClass::NullValuedDiadic(SystemFunction::Binary),
                "Associates the operator with a diadic function",
            ),
        ),
        3 => Some(
            describe(
                "display",
                "display",
                one(argument("function", ArgumentMechanism::ByReference, "general")),
                Some("string"),
                FunctionClass::Monadic(SystemFunction::Display),
                "Display the source text of a function",
            ),
        ),
        4 => Some(
            describe(
                "edit",
                "edit",
                FunctionArgumentList::Varying(ArgumentMechanism::ByReference),
                Some("general"),
                FunctionClass::Varying(SystemFunction::Edit),
                "Edit a definition",
            ),
        ),
        5 => Some(
            describe(
                "erase",
                "erase",
                FunctionArgumentList::Varying(ArgumentMechanism::ByReference),
                None,
                FunctionClass::NullValuedVarying(SystemFunction::Erase),
                "Causes the meanings of the identifiers to be erased from the system. Everything is erased if called with no arguments.",
            ),
        ),
        6 => Some(
            describe(
                "false",
                "false",
                none(),
                Some("bool"),
                FunctionClass::Nullary(SystemFunction::FalseValue),
                "Boolean value of false",
            ),
        ),
        7 => Some(
            describe(
                "help",
                "help",
                FunctionArgumentList::Varying(ArgumentMechanism::ByReference),
                Some("string"),
                FunctionClass::Varying(SystemFunction::Help),
                "Use HELP(\"<item>\") for more information",
            ),
        ),
        8 => Some(
            describe(
                "l.bound",
                "l.bound",
                one(argument("operand", ArgumentMechanism::ByValue, "general")),
                Some("int"),
                FunctionClass::Monadic(SystemFunction::LowerBound),
                "Returns the lower bound of the operand. Non-sequences are defined to be 1.",
            ),
        ),
        9 => Some(
            describe(
                "length",
                "length",
                one(argument("operand", ArgumentMechanism::ByValue, "general")),
                Some("int"),
                FunctionClass::Monadic(SystemFunction::Length),
                "Returns the number of components of the operand. If the operand is atomic, Length is defined to be one.",
            ),
        ),
        10 => Some(
            describe(
                "make",
                "make",
                three(argument("sequence_type", ArgumentMechanism::ByReference, "general"), argument("count", ArgumentMechanism::ByValue, "arith"), argument("value", ArgumentMechanism::ByValue, "general")),
                Some("general"),
                FunctionClass::Triadic(SystemFunction::Make),
                "Construct a sequence with {count} copies of {value}",
            ),
        ),
        11 => Some(
            describe(
                "read",
                "read",
                one(argument("filename", ArgumentMechanism::ByValue, "string")),
                None,
                FunctionClass::NullValuedMonadic(SystemFunction::Read),
                "Loads the workspace from an ASCII file",
            ),
        ),
        12 => Some(
            describe(
                "reset",
                "reset",
                none(),
                None,
                FunctionClass::NullValuedNullary(SystemFunction::Reset),
                "Erases all nests of function calls.",
            ),
        ),
        13 => Some(
            describe(
                "symbol.table",
                "symbol.table",
                FunctionArgumentList::Varying(ArgumentMechanism::ByReference),
                None,
                FunctionClass::NullValuedNullary(SystemFunction::DumpSymbolTable),
                "Dump the symbol table",
            ),
        ),
        14 => Some(
            describe(
                "true",
                "true",
                none(),
                Some("bool"),
                FunctionClass::Nullary(SystemFunction::TrueValue),
                "Boolean false value",
            ),
        ),
        15 => Some(
            describe(
                "type",
                "type",
                one(argument("operand", ArgumentMechanism::ByValue, "general")),
                Some("string"),
                FunctionClass::Monadic(SystemFunction::GetType),
                "Returns the data type of the operand",
            ),
        ),
        16 => Some(
            describe(
                "unary",
                "unary",
                two(argument("operator", ArgumentMechanism::ByValue, "string"), argument("function", ArgumentMechanism::ByReference, "general")),
                None,
                FunctionClass::NullValuedDiadic(SystemFunction::Unary),
                "Associates the operator with a diadic function",
            ),
        ),
        17 => Some(
            describe(
                "version",
                "version",
                none(),
                Some("string"),
                FunctionClass::Nullary(SystemFunction::Version),
                "Return PPL's version string",
            ),
        ),
        18 => Some(
            describe(
                "write",
                "write",
                one(argument("filename", ArgumentMechanism::ByValue, "string")),
                None,
                FunctionClass::NullValuedMonadic(SystemFunction::Write),
                "Writes the contents of the workspace to an ASCII file",
            ),
        ),
        _ => None,
    }
}

/// Assignment, jumps, input and output, and the rest.
pub open spec fn general_builtin(k: int) -> Option<BuiltinModel> {
    if k == 0 {
        Some(
            entry(
                "_"@,
                "assign"@,
                ArgumentsModel::Fixed(seq![formal("variable"@, ArgumentMechanism::ByReferenceCreateIfNeeded, "general"@), formal("value"@, ArgumentMechanism::ByValue, "general"@)]),
                Some("general"@),
                FunctionClass::Diadic(SystemFunction::Assign),
                "Assign a value"@,
            ),
        )
    }
    else if k == 1 {
        Some(
            entry(
                "__"@,
                "noncopy"@,
                ArgumentsModel::Fixed(seq![formal("variable"@, ArgumentMechanism::ByReferenceCreateIfNeeded, "general"@), formal("value"@, ArgumentMechanism::ByReference, "general"@)]),
                Some("reference"@),
                FunctionClass::Diadic(SystemFunction::Noncopy),
                "Assign a reference to a value"@,
            ),
        )
    }
    else if k == 2 {
        Some(
            entry(
                "?"@,
                "read_stdin"@,
                ArgumentsModel::Fixed(Seq::empty()),
                Some("string"@),
                FunctionClass::Nullary(SystemFunction::ReadStdin),
                "Read and return user input from the console"@,
            ),
        )
    }
    else if k == 3 {
        Some(
            entry(
                "??"@,
                "read_stdin_ppl"@,
                ArgumentsModel::Fixed(Seq::empty()),
                Some("string"@),
                FunctionClass::Nullary(SystemFunction::ReadStdinPpl),
                "Read and return user input from the console"@,
            ),
        )
    }
    else if k == 4 {
        Some(
            entry(
                "-->"@,
                "goto"@,
                ArgumentsModel::Fixed(seq![formal("destination"@, ArgumentMechanism::ByValue, "int"@)]),
                None,
                FunctionClass::NullValuedMonadic(SystemFunction::Goto),
                "Transfer control to the designated statement"@,
            ),
        )
    }
    else if k == 5 {
        Some(
            entry(
                "-->"@,
                "cgoto"@,
                ArgumentsModel::Fixed(seq![formal("condition"@, ArgumentMechanism::ByValue, "bool"@), formal("destination"@, ArgumentMechanism::ByValue, "int"@)]),
                None,
                FunctionClass::NullValuedDiadic(SystemFunction::Cgoto),
                "If the condition is true, transfer control to the designated statement"@,
            ),
        )
    }
    else if k == 6 {
        Some(
            entry(
                "assign"@,
                "assign"@,
                ArgumentsModel::Fixed(seq![formal("variable"@, ArgumentMechanism::ByReferenceCreateIfNeeded, "general"@), formal("value"@, ArgumentMechanism::ByValue, "general"@)]),
                Some("general"@),
                FunctionClass::Diadic(SystemFunction::Assign),
                "Assign a value"@,
            ),
        )
    }
    else if k == 7 {
        Some(
            entry(
                "branch"@,
                "branch"@,
                ArgumentsModel::Fixed(seq![formal("destination"@, ArgumentMechanism::ByValue, "int"@)]),
                None,
                FunctionClass::NullValuedMonadic(SystemFunction::Branch),
                "Internal use only: transfer control to the designated node"@,
            ),
        )
    }
    else if k == 8 {
        Some(
            entry(
                "cbranch"@,
                "cbranch"@,
                ArgumentsModel::Fixed(seq![formal("condition"@, ArgumentMechanism::ByValue, "bool"@), formal("destination"@, ArgumentMechanism::ByValue, "int"@)]),
                None,
                FunctionClass::NullValuedDiadic(SystemFunction::Cbranch),
                "Internal use only: ff the condition is true, transfer control to the designated node"@,
            ),
        )
    }
    else if k == 9 {
        Some(
            entry(
                "cgoto"@,
                "cgoto"@,
                ArgumentsModel::Fixed(seq![formal("condition"@, ArgumentMechanism::ByValue, "bool"@), formal("destination"@, ArgumentMechanism::ByValue, "int"@)]),
                None,
                FunctionClass::NullValuedDiadic(SystemFunction::Cgoto),
                "If the condition is true, transfer control to the designated statement"@,
            ),
        )
    }
    else if k == 10 {
        Some(
            entry(
                "concat"@,
                "concat"@,
                ArgumentsModel::Fixed(seq![formal("left"@, ArgumentMechanism::ByValue, "v.sequence"@), formal("right"@, ArgumentMechanism::ByValue, "v.sequence"@)]),
                Some("v.sequence"@),
                FunctionClass::Diadic(SystemFunction::Concat),
                "Catenates two sequences of the same type"@,
            ),
        )
    }
    else if k == 11 {
        Some(
            entry(
                "debug.print"@,
                "debug.print"@,
                ArgumentsModel::Fixed(seq![formal("operand"@, ArgumentMechanism::ByValue, "general"@)]),
                Some("reference"@),
                FunctionClass::NullValuedMonadic(SystemFunction::DebugPrint),
                "Display internal structure of operand on the console"@,
            ),
        )
    }
    else if k == 12 {
        Some(
            entry(
                "exec"@,
                "exec"@,
                ArgumentsModel::Fixed(seq![formal("s"@, ArgumentMechanism::ByValue, "string"@)]),
                Some("string"@),
                FunctionClass::Monadic(SystemFunction::Exec),
                "Evaluate a PPL expression"@,
            ),
        )
    }
    else if k == 13 {
        Some(
            entry(
                "exit"@,
                "exit"@,
                ArgumentsModel::Varying(ArgumentMechanism::ByValue),
                None,
                FunctionClass::Varying(SystemFunction::Exit),
                "Terminate the interpreter"@,
            ),
        )
    }
    else if k == 14 {
        Some(
            entry(
                "feature"@,
                "feature"@,
                ArgumentsModel::Fixed(Seq::empty()),
                Some("string"@),
                FunctionClass::Nullary(SystemFunction::ShowFeatures),
                "Display optional feature settings"@,
            ),
        )
    }
    else if k == 15 {
        Some(
            entry(
                "feature"@,
                "feature"@,
                ArgumentsModel::Fixed(seq![formal("operation"@, ArgumentMechanism::ByValue, "string"@), formal("option"@, ArgumentMechanism::ByValue, "string"@)]),
                Some("string"@),
                FunctionClass::Diadic(SystemFunction::Feature),
                "{\"SET\" | \"CLEAR\"} feature options {\"StringEscapes\"}"@,
            ),
        )
    }
    else if k == 16 {
        Some(
            entry(
                "format"@,
                "format"@,
                ArgumentsModel::Varying(ArgumentMechanism::ByValue),
                None,
                FunctionClass::NullValuedVarying(SystemFunction::Pformat),
                "Print formatted numbers to the console"@,
            ),
        )
    }
    else if k == 17 {
        Some(
            entry(
                "goto"@,
                "goto"@,
                ArgumentsModel::Fixed(seq![formal("destination"@, ArgumentMechanism::ByValue, "int"@)]),
                None,
                FunctionClass::NullValuedMonadic(SystemFunction::Goto),
                "Transfer control to the designated statement"@,
            ),
        )
    }
    else if k == 18 {
        Some(
            entry(
                "iformat"@,
                "iformat"@,
                ArgumentsModel::Varying(ArgumentMechanism::ByValue),
                Some("string"@),
                FunctionClass::Varying(SystemFunction::Iformat),
                "Convert number(s) to string using a format specification"@,
            ),
        )
    }
    else if k == 19 {
        Some(
            entry(
                "noncopy"@,
                "noncopy"@,
                ArgumentsModel::Fixed(seq![formal("variable"@, ArgumentMechanism::ByReferenceCreateIfNeeded, "general"@), formal("value"@, ArgumentMechanism::ByReference, "general"@)]),
                Some("reference"@),
                FunctionClass::Diadic(SystemFunction::Noncopy),
                "Assign a reference to a value"@,
            ),
        )
    }
    else if k == 20 {
        Some(
            entry(
                "print"@,
                "print"@,
                ArgumentsModel::Varying(ArgumentMechanism::ByValue),
                None,
                FunctionClass::NullValuedVarying(SystemFunction::Print),
                "Print to the console"@,
            ),
        )
    }
    else {
        None
    }
}

fn general_entry(k: usize) -> (r: Option<(&'static str, FunctionDescription)>)
    ensures
        match (r, general_builtin(k as int)) {
            (Some(p), Some(m)) => p.0@ == m.operator && describes(p.1, p.0@, m),
            (None, None) => true,
            _ => false,
        },
{
    match k {
        0 => Some(
            describe(
                "_",
                "assign",
                two(argument("variable", ArgumentMechanism::ByReferenceCreateIfNeeded, "general"), argument("value", ArgumentMechanism::ByValue, "general")),
                Some("general"),
                FunctionClass::Diadic(SystemFunction::Assign),
                "Assign a value",
            ),
        ),
        1 => Some(
            describe(
                "__",
                "noncopy",
                two(argument("variable", ArgumentMechanism::ByReferenceCreateIfNeeded, "general"), argument("value", ArgumentMechanism::ByReference, "general")),
                Some("reference"),
                FunctionClass::Diadic(SystemFunction::Noncopy),
                "Assign a reference to a value",
            ),
        ),
        2 => Some(
            describe(
                "?",
                "read_stdin",
                none(),
                Some("string"),
                FunctionClass::Nullary(SystemFunction::ReadStdin),
                "Read and return user input from the console",
            ),
        ),
        3 => Some(
            describe(
                "??",
                "read_stdin_ppl",
                none(),
                Some("string"),
                FunctionClass::Nullary(SystemFunction::ReadStdinPpl),
                "Read and return user input from the console",
            ),
        ),
        4 => Some(
            describe(
                "-->",
                "goto",
                one(argument("destination", ArgumentMechanism::ByValue, "int")),
                None,
                FunctionClass::NullValuedMonadic(SystemFunction::Goto),
                "Transfer control to the designated statement",
            ),
        ),
        5 => Some(
            describe(
                "-->",
                "cgoto",
                two(argument("condition", ArgumentMechanism::ByValue, "bool"), argument("destination", ArgumentMechanism::ByValue, "int")),
                None,
                FunctionClass::NullValuedDiadic(SystemFunction::Cgoto),
                "If the condition is true, transfer control to the designated statement",
            ),
        ),
        6 => Some(
            describe(
                "assign",
                "assign",
                two(argument("variable", ArgumentMechanism::ByReferenceCreateIfNeeded, "general"), argument("value", ArgumentMechanism::ByValue, "general")),
                Some("general"),
                FunctionClass::Diadic(SystemFunction::Assign),
                "Assign a value",
            ),
        ),
        7 => Some(
            describe(
                "branch",
                "branch",
                one(argument("destination", ArgumentMechanism::ByValue, "int")),
                None,
                FunctionClass::NullValuedMonadic(SystemFunction::Branch),
                "Internal use only: transfer control to the designated node",
            ),
        ),
        8 => Some(
            describe(
                "cbranch",
                "cbranch",
                two(argument("condition", ArgumentMechanism::ByValue, "bool"), argument("destination", ArgumentMechanism::ByValue, "int")),
                None,
                FunctionClass::NullValuedDiadic(SystemFunction::Cbranch),
                "Internal use only: ff the condition is true, transfer control to the designated node",
            ),
        ),
        9 => Some(
            describe(
                "cgoto",
                "cgoto",
                two(argument("condition", ArgumentMechanism::ByValue, "bool"), argument("destination", ArgumentMechanism::ByValue, "int")),
                None,
                FunctionClass::NullValuedDiadic(SystemFunction::Cgoto),
                "If the condition is true, transfer control to the designated statement",
            ),
        ),
        10 => Some(
            describe(
                "concat",
                "concat",
                two(argument("left", ArgumentMechanism::ByValue, "v.sequence"), argument("right", ArgumentMechanism::ByValue, "v.sequence")),
                Some("v.sequence"),
                FunctionClass::Diadic(SystemFunction::Concat),
                "Catenates two sequences of the same type",
            ),
        ),
        11 => Some(
            describe(
                "debug.print",
                "debug.print",
                one(argument("operand", ArgumentMechanism::ByValue, "general")),
                Some("reference"),
                FunctionClass::NullValuedMonadic(SystemFunction::DebugPrint),
                "Display internal structure of operand on the console",
            ),
        ),
        12 => Some(
            describe(
                "exec",
                "exec",
                one(argument("s", ArgumentMechanism::ByValue, "string")),
                Some("string"),
                FunctionClass::Monadic(SystemFunction::Exec),
                "Evaluate a PPL expression",
            ),
        ),
        13 => Some(
            describe(
                "exit",
                "exit",
                FunctionArgumentList::Varying(ArgumentMechanism::ByValue),
                None,
                FunctionClass::Varying(SystemFunction::Exit),
                "Terminate the interpreter",
            ),
        ),
        14 => Some(
            describe(
                "feature",
                "feature",
                none(),
                Some("string"),
                FunctionClass::Nullary(SystemFunction::ShowFeatures),
                "Display optional feature settings",
            ),
        ),
        15 => Some(
            describe(
                "feature",
                "feature",
                two(argument("operation", ArgumentMechanism::ByValue, "string"), argument("option", ArgumentMechanism::ByValue, "string")),
                Some("string"),
                FunctionClass::Diadic(SystemFunction::Feature),
                "{\"SET\" | \"CLEAR\"} feature options {\"StringEscapes\"}",
            ),
        ),
        16 => Some(
            describe(
                "format",
                "format",
                FunctionArgumentList::Varying(ArgumentMechanism::ByValue),
                None,
                FunctionClass::NullValuedVarying(SystemFunction::Pformat),
                "Print formatted numbers to the console",
            ),
        ),
        17 => Some(
            describe(
                "goto",
                "goto",
                one(argument("destination", ArgumentMechanism::ByValue, "int")),
                None,
                FunctionClass::NullValuedMonadic(SystemFunction::Goto),
                "Transfer control to the designated statement",
            ),
        ),
        18 => Some(
            describe(
                "iformat",
                "iformat",
                FunctionArgumentList::Varying(ArgumentMechanism::ByValue),
                Some("string"),
                FunctionClass::Varying(SystemFunction::Iformat),
                "Convert number(s) to string using a format specification",
            ),
        ),
        19 => Some(
            describe(
                "noncopy",
                "noncopy",
                two(argument("variable", ArgumentMechanism::ByReferenceCreateIfNeeded, "general"), argument("value", ArgumentMechanism::ByReference, "general")),
                Some("reference"),
                FunctionClass::Diadic(SystemFunction::Noncopy),
                "Assign a reference to a value",
            ),
        ),
        20 => Some(
            describe(
                "print",
                "print",
                FunctionArgumentList::Varying(ArgumentMechanism::ByValue),
                None,
                FunctionClass::NullValuedVarying(SystemFunction::Print),
                "Print to the console",
            ),
        ),
        _ => None,
    }
}

/// How many built-in functions there are.
pub const BUILTINS: usize = 80;

/// The built-in function with a number, in the order in which the
/// functions are added to a workspace.
pub open spec fn builtin(k: int) -> Option<BuiltinModel> {
    if 0 <= k < 14 {
        arithmetic_builtin(k - 0)
    }     else if 14 <= k < 32 {
        comparison_builtin(k - 14)
    }     else if 32 <= k < 40 {
        debugging_builtin(k - 32)
    }     else if 40 <= k < 59 {
        metadata_builtin(k - 40)
    }     else if 59 <= k < 80 {
        general_builtin(k - 59)
    } else {
        None
    }
}

/// The built-in function with a number, and the name it goes by.
pub fn builtin_entry(k: usize) -> (r: Option<(&'static str, FunctionDescription)>)
    ensures
        match (r, builtin(k as int)) {
            (Some(p), Some(m)) => p.0@ == m.operator && describes(p.1, p.0@, m),
            (None, None) => true,
            _ => false,
        },
{
    if k < 14 {
        arithmetic_entry(k - 0)
    }     else if k < 32 {
        comparison_entry(k - 14)
    }     else if k < 40 {
        debugging_entry(k - 32)
    }     else if k < 59 {
        metadata_entry(k - 40)
    }     else if k < 80 {
        general_entry(k - 59)
    } else {
        None
    }
}

/// Every number below the count is the number of a built-in function.
pub proof fn lemma_builtin_exists(k: int)
    requires
        0 <= k < BUILTINS,
    ensures
        builtin(k) is Some,
{
}

/// Whether a built-in function is in a workspace: one of the functions
/// that go by its name is the function.
pub open spec fn registered(workspace: &WorkSpace, m: BuiltinModel) -> bool {
    exists|j: int|
        0 <= j < workspace.homonyms(m.operator).len() && describes(
            #[trigger] workspace.homonyms(m.operator)[j],
            m.operator,
            m,
        )
}

/// How many of the first `n` built-in functions go by a name.
pub open spec fn occurrences(name: Seq<char>, n: int) -> nat
    decreases n,
{
    if n <= 0 {
        0
    } else {
        occurrences(name, n - 1) + if builtin(n - 1) is Some && lower(builtin(n - 1)->0.operator) == lower(name) {
            1nat
        } else {
            0nat
        }
    }
}

/// Adds the built-in functions to a workspace, in their order: each
/// behind the functions that go by its name already.
pub fn init(workspace: &mut WorkSpace)
    requires
        old(workspace).wf(),
    ensures
        final(workspace).wf(),
        final(workspace).same_but_tables(old(workspace)),
        final(workspace).user_functions() == old(workspace).user_functions(),
        final(workspace).selectors() == old(workspace).selectors(),
        final(workspace).datatypes() == old(workspace).datatypes(),
        forall|k: int| 0 <= k < BUILTINS ==> registered(final(workspace), #[trigger] builtin(k)->0),
        forall|name: Seq<char>| #[trigger]
            final(workspace).homonyms(name).len() == old(workspace).homonyms(name).len() + occurrences(
                name,
                BUILTINS as int,
            ),
        forall|name: Seq<char>, j: int|
            0 <= j < old(workspace).homonyms(name).len() ==> #[trigger] final(workspace).homonyms(name)[j] == old(workspace).homonyms(name)[j],
{
    let mut k: usize = 0;
    while k < BUILTINS
        invariant
            k <= BUILTINS,
            workspace.wf(),
            workspace.same_but_tables(old(workspace)),
            workspace.user_functions() == old(workspace).user_functions(),
            workspace.selectors() == old(workspace).selectors(),
            workspace.datatypes() == old(workspace).datatypes(),
            forall|i: int| 0 <= i < k ==> registered(workspace, #[trigger] builtin(i)->0),
            forall|name: Seq<char>| #[trigger]
                workspace.homonyms(name).len() == old(workspace).homonyms(name).len() + occurrences(name, k as int),
            forall|name: Seq<char>, j: int|
                0 <= j < old(workspace).homonyms(name).len() ==> #[trigger] workspace.homonyms(name)[j] == old(workspace).homonyms(name)[j],
        decreases BUILTINS - k,
    {
        let ghost before = *workspace;
        proof {
            lemma_builtin_exists(k as int);
        }
        match builtin_entry(k) {
            Some(p) => {
                let ghost m = builtin(k as int)->0;
                let ghost d = p.1;
                workspace.add_system_function(p.0, p.1);
                proof {
                    assert(workspace.homonyms(m.operator).last() == d);
                    assert(registered(workspace, m)) by {
                        let j = workspace.homonyms(m.operator).len() - 1;
                        assert(describes(workspace.homonyms(m.operator)[j], m.operator, m));
                    }
                    assert forall|i: int| 0 <= i < k implies registered(workspace, #[trigger] builtin(i)->0) by {
                        let e = builtin(i)->0;
                        assert(registered(&before, e));
                        let j = choose|j: int|
                            0 <= j < before.homonyms(e.operator).len() && describes(
                                #[trigger] before.homonyms(e.operator)[j],
                                e.operator,
                                e,
                            );
                        if lower(e.operator) == lower(m.operator) {
                            lemma_same_homonyms(workspace, e.operator, m.operator);
                            lemma_same_homonyms(&before, e.operator, m.operator);
                        }
                        assert(workspace.homonyms(e.operator)[j] == before.homonyms(e.operator)[j]);
                    }
                    assert forall|name: Seq<char>| #[trigger]
                        workspace.homonyms(name).len() == old(workspace).homonyms(name).len() + occurrences(
                            name,
                            k as int + 1,
                        ) by {
                        if lower(name) == lower(m.operator) {
                            lemma_same_homonyms(workspace, name, m.operator);
                            lemma_same_homonyms(&before, name, m.operator);
                        }
                    }
                    assert forall|name: Seq<char>, j: int|
                        0 <= j < old(workspace).homonyms(name).len() implies #[trigger] workspace.homonyms(name)[j]
                            == old(workspace).homonyms(name)[j] by {
                        if lower(name) == lower(m.operator) {
                            lemma_same_homonyms(workspace, name, m.operator);
                            lemma_same_homonyms(&before, name, m.operator);
                        }
                        assert(before.homonyms(name)[j] == old(workspace).homonyms(name)[j]);
                    }
                }
            },
            None => {},
        }
        k += 1;
    }
}

/// Names that differ only in the case of their letters go by the same functions.
pub proof fn lemma_same_homonyms(workspace: &WorkSpace, a: Seq<char>, b: Seq<char>)
    requires
        lower(a) == lower(b),
    ensures
        workspace.homonyms(a) == workspace.homonyms(b),
{
}

} // verus!
