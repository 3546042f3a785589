//! Descriptions of datatypes, functions, selectors and variables.

use vstd::prelude::*;
use crate::execution::runtime::executable::Executable;
use crate::lexical::LineNumber;
use crate::text::{append_chars, chars_of, lower, lower_char, string_of};
use crate::workspace::WorkSpace;
use super::datatype::RootDataType;
use super::name::Name;
use super::SymbolTable;

verus! {

/// How an argument reaches a function.
#[derive(Clone, Copy, Debug, PartialEq, Eq, Structural)]
pub enum ArgumentMechanism {
    ByValue,
    ByReference,
    ByReferenceCreateIfNeeded,
}

/// The name of a datatype.
#[derive(Debug)]
pub struct MetaDataTypeName {
    name: Name,
}

impl View for MetaDataTypeName {
    type V = Seq<char>;

    /// The spelling.
    closed spec fn view(&self) -> Seq<char> {
        self.name@
    }
}

impl Clone for MetaDataTypeName {
    fn clone(&self) -> (r: Self)
        ensures
            r@ == self@,
    {
        MetaDataTypeName { name: self.name.clone() }
    }
}

impl MetaDataTypeName {
    /// The lower-case form, by which datatypes are looked up.
    pub open spec fn key(&self) -> Seq<char> {
        lower(self@)
    }

    pub fn as_string(&self) -> (r: String)
        ensures
            r@ == self@,
    {
        self.name.as_string()
    }

    pub fn as_str<'a>(&'a self) -> (r: &'a str)
        ensures
            r@ == self@,
    {
        self.name.as_str()
    }

    pub fn from_str(s: &str) -> (r: MetaDataTypeName)
        ensures
            r@ == s@,
    {
        MetaDataTypeName { name: Name::from_str(s) }
    }

    pub fn from_string(s: &String) -> (r: MetaDataTypeName)
        ensures
            r@ == s@,
    {
        MetaDataTypeName { name: Name::from_string(s) }
    }

    /// Whether this is the datatype spelled `text`, whatever the case of its letters.
    pub fn is_named(&self, text: &str) -> (r: bool)
        ensures
            r == (self.key() == lower(text@)),
    {
        self.name.is_named(text)
    }

    /// Whether `other` names the same datatype.
    pub fn is_same(&self, other: &MetaDataTypeName) -> (r: bool)
        ensures
            r == (self.key() == other.key()),
    {
        self.name.is_same(&other.name)
    }
}

/// One formal argument of a function.
#[derive(Debug)]
pub struct FormalArgument {
    pub name: Name,
    pub mechanism: ArgumentMechanism,
    pub datatype: MetaDataTypeName,
}

impl Clone for FormalArgument {
    fn clone(&self) -> (r: Self)
        ensures
            r.name@ == self.name@,
            r.mechanism == self.mechanism,
            r.datatype@ == self.datatype@,
    {
        FormalArgument {
            name: self.name.clone(),
            mechanism: self.mechanism,
            datatype: self.datatype.clone(),
        }
    }
}

/// The upper-case form of an ASCII letter; every other character is left alone.
pub open spec fn upper_char(c: char) -> char {
    if 'a' <= c && c <= 'z' {
        ((c as u32 - 32) as u8) as char
    } else {
        c
    }
}

/// The upper-case form of a text, character by character.
pub open spec fn upper(s: Seq<char>) -> Seq<char> {
    Seq::new(s.len(), |i: int| upper_char(s[i]))
}

fn to_upper(v: &Vec<char>) -> (r: Vec<char>)
    ensures
        r@ == upper(v@),
{
    let mut r: Vec<char> = Vec::new();
    let mut i: usize = 0;
    while i < v.len()
        invariant
            i <= v.len(),
            r@.len() == i,
            forall|k: int| 0 <= k < i ==> r@[k] == upper_char(v@[k]),
        decreases v.len() - i,
    {
        let c = v[i];
        if 'a' <= c && c <= 'z' {
            let u: u32 = c as u32 - 32;
            r.push((u as u8) as char);
        } else {
            r.push(c);
        }
        i += 1;
    }
    assert(r@ =~= upper(v@));
    r
}

impl FormalArgument {
    /// The argument as the help text shows it: its name and, in upper
    /// case, its datatype, in braces.
    pub fn format(&self) -> (r: String)
        ensures
            r@ == seq!['{'] + self.name@ + seq![':', ' '] + upper(self.datatype@) + seq!['}'],
    {
        let mut out: Vec<char> = Vec::new();
        out.push('{');
        append_chars(&mut out, &self.name.as_chars());
        out.push(':');
        out.push(' ');
        append_chars(&mut out, &to_upper(&chars_of(self.datatype.as_str())));
        out.push('}');
        assert(out@ =~= seq!['{'] + self.name@ + seq![':', ' '] + upper(self.datatype@) + seq!['}']);
        string_of(&out)
    }
}

/// The arguments a function takes: a fixed list, or any number of
/// arguments that all reach it in one way.
#[derive(Debug)]
pub enum FunctionArgumentList {
    Fixed(Vec<FormalArgument>),
    Varying(ArgumentMechanism),
}

impl FunctionArgumentList {
    /// How many arguments a fixed list has; `None` for any number.
    pub open spec fn arity(&self) -> Option<nat> {
        match self {
            FunctionArgumentList::Fixed(args) => Some(args@.len()),
            FunctionArgumentList::Varying(_) => None,
        }
    }
}

/// The built-in functions.
#[derive(Clone, Copy, Debug, PartialEq, Eq, Structural)]
pub enum SystemFunction {
    Assign,
    Noncopy,
    ReadStdin,
    ReadStdinPpl,
    Goto,
    Cgoto,
    Branch,
    Cbranch,
    Concat,
    DebugPrint,
    Exec,
    Exit,
    ShowFeatures,
    Feature,
    Pformat,
    Iformat,
    Print,
    Add,
    Plus,
    Subtract,
    Minus,
    Multiply,
    Divide,
    Power,
    And,
    Or,
    Eq,
    Noteq,
    Less,
    Lesseq,
    Gr,
    Greq,
    IsAnInstanceOf,
    Binary,
    Unary,
    Display,
    DumpSymbolTable,
    Edit,
    Erase,
    FalseValue,
    TrueValue,
    GetType,
    Help,
    Length,
    LowerBound,
    Make,
    Read,
    Relocate,
    Reset,
    Version,
    Write,
    Breakpoint,
    Debug,
    ShowDebug,
    StackUsage,
    Stop,
    Trace,
    Unstop,
    Untrace,
    Ardmode,
    Clearscreen,
    Dottedvec,
    Setlinewidth,
    Setpoint,
    Solidvec,
    Ttymode,
    Tuple,
}

/// How a built-in function is called: with how many arguments, and
/// whether it hands back a value.
#[derive(Clone, Copy, Debug, PartialEq, Eq, Structural)]
pub enum FunctionClass {
    Nullary(SystemFunction),
    Monadic(SystemFunction),
    Diadic(SystemFunction),
    Triadic(SystemFunction),
    Varying(SystemFunction),
    NullValuedNullary(SystemFunction),
    NullValuedMonadic(SystemFunction),
    NullValuedDiadic(SystemFunction),
    NullValuedTriadic(SystemFunction),
    NullValuedVarying(SystemFunction),
}

impl FunctionClass {
    /// Whether a call leaves a value on the stack.
    pub open spec fn returns_value(&self) -> bool {
        match self {
            FunctionClass::Nullary(_) | FunctionClass::Monadic(_) | FunctionClass::Diadic(_)
            | FunctionClass::Triadic(_) | FunctionClass::Varying(_) => true,
            _ => false,
        }
    }

    /// Whether a call leaves a value on the stack.
    pub fn is_value_returning(&self) -> (r: bool)
        ensures
            r == self.returns_value(),
    {
        match self {
            FunctionClass::Nullary(_) | FunctionClass::Monadic(_) | FunctionClass::Diadic(_)
            | FunctionClass::Triadic(_) | FunctionClass::Varying(_) => true,
            _ => false,
        }
    }
}

/// The parsed body of a user function, and the line of each of its labels.
pub struct FunctionBody {
    pub executable: Executable,
    pub labels: Vec<(String, LineNumber)>,
}

/// What carries out a function.
pub enum FunctionImplementation {
    System(FunctionClass),
    User(FunctionBody),
}

/// The description of a function.
pub struct FunctionDescription {
    pub name: Name,
    pub arguments: FunctionArgumentList,
    pub local_variables: Option<Vec<Name>>,
    pub return_value: Option<MetaDataTypeName>,
    pub implementation_class: FunctionImplementation,
    pub help_text: String,
}

impl FunctionDescription {
    pub fn as_string(&self) -> (r: String)
        ensures
            r@ == self.name@,
    {
        self.name.as_string()
    }

    /// Whether the function can be called with this many arguments.
    pub open spec fn takes(&self, count: nat) -> bool {
        match self.arguments.arity() {
            Some(n) => n == count,
            None => true,
        }
    }

    pub fn is_compatible_function(&self, actual_argument_list_length: usize) -> (r: bool)
        ensures
            r == self.takes(actual_argument_list_length as nat),
    {
        if let FunctionArgumentList::Fixed(fixed) = &self.arguments {
            fixed.len() == actual_argument_list_length
        } else {
            true
        }
    }
}

/// A selector: a field name, and the structures that have a field of
/// that name.
#[derive(Debug)]
pub struct SelectorDescription {
    pub member: Name,
    pub structures: Vec<Name>,
}

impl SelectorDescription {
    pub fn as_string(&self) -> (r: String)
        ensures
            r@ == self.member@,
    {
        self.member.as_string()
    }
}

/// A variable: the cell that holds its value.
#[derive(Clone, Copy, Debug, PartialEq, Eq, Structural)]
pub struct VariableDescription {
    pub cell: usize,
}

/// A datatype: its name and what it is made of.
#[derive(Debug)]
pub struct MetaDataType {
    name: MetaDataTypeName,
    root_data_type: RootDataType,
}

impl MetaDataType {
    /// The name.
    pub closed spec fn name(&self) -> Seq<char> {
        self.name@
    }

    /// What the datatype is made of.
    pub closed spec fn root(&self) -> RootDataType {
        self.root_data_type
    }

    pub fn as_name(&self) -> (r: MetaDataTypeName)
        ensures
            r@ == self.name(),
    {
        self.name.clone()
    }

    pub fn as_string(&self) -> (r: String)
        ensures
            r@ == self.name(),
    {
        self.name.as_string()
    }

    pub fn root_data_type(&self) -> (r: &RootDataType)
        ensures
            *r == self.root(),
    {
        &self.root_data_type
    }

    pub fn from_str(s: &str, root_data_type: RootDataType) -> (r: MetaDataType)
        ensures
            r.name() == s@,
            r.root() == root_data_type,
    {
        MetaDataType { name: MetaDataTypeName::from_str(s), root_data_type: root_data_type }
    }

    pub fn from_string(s: &String, root_data_type: RootDataType) -> (r: MetaDataType)
        ensures
            r.name() == s@,
            r.root() == root_data_type,
    {
        MetaDataType { name: MetaDataTypeName::from_string(s), root_data_type: root_data_type }
    }
}

/// A sum of named datatypes.
#[derive(Debug)]
pub struct MetaAlternate {
    pub name: Name,
    pub members: Vec<MetaDataTypeName>,
}

impl MetaAlternate {
    pub fn new(name: &str, members: Vec<MetaDataTypeName>) -> (r: MetaAlternate)
        ensures
            r.name@ == name@,
            r.members == members,
    {
        MetaAlternate { name: Name::from_str(name), members: members }
    }
}

/// The ambient supertypes.
#[derive(Clone, Copy, Debug, PartialEq, Eq, Structural)]
pub enum BuiltAlternates {
    Structure,
    Sequence,
    VSequence,
    General,
}

/// One field of a structure datatype.
#[derive(Debug)]
pub struct MetaStructureMember {
    pub name: Name,
    pub data_type: MetaDataTypeName,
}

/// A structure datatype: named fields in a fixed order.
#[derive(Debug)]
pub struct MetaStructure {
    pub name: Name,
    pub members: Vec<MetaStructureMember>,
}

/// A sequence datatype: bounds and the datatype of the elements. Without
/// an upper bound the sequence may have any length.
#[derive(Debug)]
pub struct MetaSequence {
    pub name: Name,
    pub lower_index_bound: i32,
    pub upper_index_bound: Option<i32>,
    pub member_type: MetaDataTypeName,
}

/// The names of the datatypes every workspace starts with.
pub open spec fn system_datatype_names() -> Seq<Seq<char>> {
    seq![
        "int"@,
        "real"@,
        "dbl"@,
        "bool"@,
        "char"@,
        "string"@,
        "tuple"@,
        "arith"@,
        "atomic"@,
        "structure"@,
        "sequence"@,
        "v.sequence"@,
        "general"@,
    ]
}

pub fn get_system_datatypes() -> (result: Vec<String>)
    ensures
        result@.len() == system_datatype_names().len(),
        forall|i: int| 0 <= i < result@.len() ==> (#[trigger] result@[i])@ == system_datatype_names()[i],
{
    let mut result = Vec::new();
    result.push(String::from_str("int"));
    result.push(String::from_str("real"));
    result.push(String::from_str("dbl"));
    result.push(String::from_str("bool"));
    result.push(String::from_str("char"));
    result.push(String::from_str("string"));
    result.push(String::from_str("tuple"));
    result.push(String::from_str("arith"));
    result.push(String::from_str("atomic"));
    result.push(String::from_str("structure"));
    result.push(String::from_str("sequence"));
    result.push(String::from_str("v.sequence"));
    result.push(String::from_str("general"));
    result
}

/// Whether a datatype is a sequence counted from one, without an upper
/// bound, of cells of a datatype.
pub open spec fn is_open_sequence(t: MetaDataType, name: Seq<char>, member: Seq<char>) -> bool {
    &&& t.root() matches RootDataType::Sequence(d)
    &&& d.name@ == name
    &&& d.lower_index_bound == 1
    &&& d.upper_index_bound is None
    &&& d.member_type@ == member
}

/// Whether a datatype is the alternate of the datatypes of a list of names.
pub open spec fn is_alternate_of(t: MetaDataType, name: Seq<char>, members: Seq<Seq<char>>) -> bool {
    &&& t.root() matches RootDataType::Alternate(a)
    &&& a.name@ == name
    &&& a.members@.len() == members.len()
    &&& forall|i: int| 0 <= i < members.len() ==> (#[trigger] a.members@[i])@ == members[i]
}

/// Whether a datatype is the datatype that every workspace starts with under a name.
pub open spec fn is_system_datatype(t: MetaDataType, name: Seq<char>) -> bool {
    &&& t.name() == name
    &&& if name == "int"@ {
        t.root() is Int
    }     else if name == "real"@ {
        t.root() is Real
    }     else if name == "dbl"@ {
        t.root() is Dbl
    }     else if name == "bool"@ {
        t.root() is Bool
    }     else if name == "char"@ {
        t.root() is Char
    }     else if name == "string"@ {
        is_open_sequence(t, "string"@, "char"@)
    }     else if name == "tuple"@ {
        is_open_sequence(t, "tuple"@, "general"@)
    }     else if name == "arith"@ {
        is_alternate_of(t, "arith"@, seq!["int"@, "real"@, "dbl"@])
    }     else if name == "atomic"@ {
        is_alternate_of(t, "atomic"@, seq!["int"@, "real"@, "dbl"@, "bool"@, "char"@])
    }     else if name == "structure"@ {
        t.root() == RootDataType::BuiltinAlternate(BuiltAlternates::Structure)
    }     else if name == "sequence"@ {
        t.root() == RootDataType::BuiltinAlternate(BuiltAlternates::Sequence)
    }     else if name == "v.sequence"@ {
        t.root() == RootDataType::BuiltinAlternate(BuiltAlternates::VSequence)
    }     else if name == "general"@ {
        t.root() == RootDataType::BuiltinAlternate(BuiltAlternates::General)
    } else {
        false
    }
}

/// Whether a table has the datatypes that every workspace starts with.
pub open spec fn has_system_datatypes(types: SymbolTable<MetaDataType>) -> bool {
    forall|k: int|
        0 <= k < system_datatype_names().len() ==> types.has(#[trigger] system_datatype_names()[k])
            && is_system_datatype(types.item(system_datatype_names()[k]), system_datatype_names()[k])
}

/// Texts with different characters in one place differ, whatever the case of their letters.
pub proof fn lemma_differ_at(a: Seq<char>, b: Seq<char>, i: int)
    requires
        0 <= i < a.len(),
        i < b.len(),
        lower_char(a[i]) != lower_char(b[i]),
    ensures
        lower(a) != lower(b),
{
    assert(lower(a)[i] == lower_char(a[i]));
    assert(lower(b)[i] == lower_char(b[i]));
}

/// The names of the datatypes that every workspace starts with differ
/// from one another, whatever the case of their letters.
pub proof fn lemma_system_datatype_names_differ()
    ensures
        forall|i: int, j: int|
            0 <= i < j < system_datatype_names().len() ==> lower(#[trigger] system_datatype_names()[i]) != lower(
                #[trigger] system_datatype_names()[j],
            ),
{
    reveal_strlit("int");
    reveal_strlit("real");
    reveal_strlit("dbl");
    reveal_strlit("bool");
    reveal_strlit("char");
    reveal_strlit("string");
    reveal_strlit("tuple");
    reveal_strlit("arith");
    reveal_strlit("atomic");
    reveal_strlit("structure");
    reveal_strlit("sequence");
    reveal_strlit("v.sequence");
    reveal_strlit("general");
    lemma_differ_at("int"@, "real"@, 0);
    lemma_differ_at("int"@, "dbl"@, 0);
    lemma_differ_at("int"@, "bool"@, 0);
    lemma_differ_at("int"@, "char"@, 0);
    lemma_differ_at("int"@, "string"@, 0);
    lemma_differ_at("int"@, "tuple"@, 0);
    lemma_differ_at("int"@, "arith"@, 0);
    lemma_differ_at("int"@, "atomic"@, 0);
    lemma_differ_at("int"@, "structure"@, 0);
    lemma_differ_at("int"@, "sequence"@, 0);
    lemma_differ_at("int"@, "v.sequence"@, 0);
    lemma_differ_at("int"@, "general"@, 0);
    lemma_differ_at("real"@, "dbl"@, 0);
    lemma_differ_at("real"@, "bool"@, 0);
    lemma_differ_at("real"@, "char"@, 0);
    lemma_differ_at("real"@, "string"@, 0);
    lemma_differ_at("real"@, "tuple"@, 0);
    lemma_differ_at("real"@, "arith"@, 0);
    lemma_differ_at("real"@, "atomic"@, 0);
    lemma_differ_at("real"@, "structure"@, 0);
    lemma_differ_at("real"@, "sequence"@, 0);
    lemma_differ_at("real"@, "v.sequence"@, 0);
    lemma_differ_at("real"@, "general"@, 0);
    lemma_differ_at("dbl"@, "bool"@, 0);
    lemma_differ_at("dbl"@, "char"@, 0);
    lemma_differ_at("dbl"@, "string"@, 0);
    lemma_differ_at("dbl"@, "tuple"@, 0);
    lemma_differ_at("dbl"@, "arith"@, 0);
    lemma_differ_at("dbl"@, "atomic"@, 0);
    lemma_differ_at("dbl"@, "structure"@, 0);
    lemma_differ_at("dbl"@, "sequence"@, 0);
    lemma_differ_at("dbl"@, "v.sequence"@, 0);
    lemma_differ_at("dbl"@, "general"@, 0);
    lemma_differ_at("bool"@, "char"@, 0);
    lemma_differ_at("bool"@, "string"@, 0);
    lemma_differ_at("bool"@, "tuple"@, 0);
    lemma_differ_at("bool"@, "arith"@, 0);
    lemma_differ_at("bool"@, "atomic"@, 0);
    lemma_differ_at("bool"@, "structure"@, 0);
    lemma_differ_at("bool"@, "sequence"@, 0);
    lemma_differ_at("bool"@, "v.sequence"@, 0);
    lemma_differ_at("bool"@, "general"@, 0);
    lemma_differ_at("char"@, "string"@, 0);
    lemma_differ_at("char"@, "tuple"@, 0);
    lemma_differ_at("char"@, "arith"@, 0);
    lemma_differ_at("char"@, "atomic"@, 0);
    lemma_differ_at("char"@, "structure"@, 0);
    lemma_differ_at("char"@, "sequence"@, 0);
    lemma_differ_at("char"@, "v.sequence"@, 0);
    lemma_differ_at("char"@, "general"@, 0);
    lemma_differ_at("string"@, "tuple"@, 0);
    lemma_differ_at("string"@, "arith"@, 0);
    lemma_differ_at("string"@, "atomic"@, 0);
    lemma_differ_at("string"@, "structure"@, 3);
    lemma_differ_at("string"@, "sequence"@, 1);
    lemma_differ_at("string"@, "v.sequence"@, 0);
    lemma_differ_at("string"@, "general"@, 0);
    lemma_differ_at("tuple"@, "arith"@, 0);
    lemma_differ_at("tuple"@, "atomic"@, 0);
    lemma_differ_at("tuple"@, "structure"@, 0);
    lemma_differ_at("tuple"@, "sequence"@, 0);
    lemma_differ_at("tuple"@, "v.sequence"@, 0);
    lemma_differ_at("tuple"@, "general"@, 0);
    lemma_differ_at("arith"@, "atomic"@, 1);
    lemma_differ_at("arith"@, "structure"@, 0);
    lemma_differ_at("arith"@, "sequence"@, 0);
    lemma_differ_at("arith"@, "v.sequence"@, 0);
    lemma_differ_at("arith"@, "general"@, 0);
    lemma_differ_at("atomic"@, "structure"@, 0);
    lemma_differ_at("atomic"@, "sequence"@, 0);
    lemma_differ_at("atomic"@, "v.sequence"@, 0);
    lemma_differ_at("atomic"@, "general"@, 0);
    lemma_differ_at("structure"@, "sequence"@, 1);
    lemma_differ_at("structure"@, "v.sequence"@, 0);
    lemma_differ_at("structure"@, "general"@, 0);
    lemma_differ_at("sequence"@, "v.sequence"@, 0);
    lemma_differ_at("sequence"@, "general"@, 0);
    lemma_differ_at("v.sequence"@, "general"@, 0);
}

fn names_of_arith() -> (r: Vec<MetaDataTypeName>)
    ensures
        r@.len() == 3,
        r@[0]@ == "int"@,
        r@[1]@ == "real"@,
        r@[2]@ == "dbl"@,
{
    let mut r: Vec<MetaDataTypeName> = Vec::new();
    r.push(MetaDataTypeName::from_str("int"));
    r.push(MetaDataTypeName::from_str("real"));
    r.push(MetaDataTypeName::from_str("dbl"));
    r
}

fn names_of_atomic() -> (r: Vec<MetaDataTypeName>)
    ensures
        r@.len() == 5,
        r@[0]@ == "int"@,
        r@[1]@ == "real"@,
        r@[2]@ == "dbl"@,
        r@[3]@ == "bool"@,
        r@[4]@ == "char"@,
{
    let mut r: Vec<MetaDataTypeName> = Vec::new();
    r.push(MetaDataTypeName::from_str("int"));
    r.push(MetaDataTypeName::from_str("real"));
    r.push(MetaDataTypeName::from_str("dbl"));
    r.push(MetaDataTypeName::from_str("bool"));
    r.push(MetaDataTypeName::from_str("char"));
    r
}

/// The datatype that every workspace starts with under the name with a number.
fn system_datatype(k: usize) -> (r: (&'static str, MetaDataType))
    requires
        k < system_datatype_names().len(),
    ensures
        r.0@ == system_datatype_names()[k as int],
        is_system_datatype(r.1, system_datatype_names()[k as int]),
{
    proof {
        lemma_system_datatype_names_differ();
        lemma_lower_differs();
    }
    match k {
        0 => ("int", MetaDataType::from_str("int", RootDataType::Int)),
        1 => ("real", MetaDataType::from_str("real", RootDataType::Real)),
        2 => ("dbl", MetaDataType::from_str("dbl", RootDataType::Dbl)),
        3 => ("bool", MetaDataType::from_str("bool", RootDataType::Bool)),
        4 => ("char", MetaDataType::from_str("char", RootDataType::Char)),
        5 => ("string", MetaDataType::from_str("string", RootDataType::Sequence(
                MetaSequence {
                    name: Name::from_str("string"),
                    lower_index_bound: 1,
                    upper_index_bound: None,
                    member_type: MetaDataTypeName::from_str("char"),
                },
            ))),
        6 => ("tuple", MetaDataType::from_str("tuple", RootDataType::Sequence(
                MetaSequence {
                    name: Name::from_str("tuple"),
                    lower_index_bound: 1,
                    upper_index_bound: None,
                    member_type: MetaDataTypeName::from_str("general"),
                },
            ))),
        7 => ("arith", MetaDataType::from_str("arith", RootDataType::Alternate(MetaAlternate::new("arith", names_of_arith())))),
        8 => ("atomic", MetaDataType::from_str("atomic", RootDataType::Alternate(MetaAlternate::new("atomic", names_of_atomic())))),
        9 => ("structure", MetaDataType::from_str("structure", RootDataType::BuiltinAlternate(BuiltAlternates::Structure))),
        10 => ("sequence", MetaDataType::from_str("sequence", RootDataType::BuiltinAlternate(BuiltAlternates::Sequence))),
        11 => ("v.sequence", MetaDataType::from_str("v.sequence", RootDataType::BuiltinAlternate(BuiltAlternates::VSequence))),
        _ => ("general", MetaDataType::from_str("general", RootDataType::BuiltinAlternate(BuiltAlternates::General))),
    }
}

/// Texts whose lower-case forms differ differ.
pub proof fn lemma_lower_differs()
    ensures
        forall|a: Seq<char>, b: Seq<char>| #[trigger] lower(a) != #[trigger] lower(b) ==> a != b,
{
}

/// Adds the datatypes that every workspace starts with.
pub fn init(workspace: &mut WorkSpace)
    requires
        old(workspace).wf(),
    ensures
        final(workspace).wf(),
        final(workspace).same_but_tables(old(workspace)),
        final(workspace).system_functions() == old(workspace).system_functions(),
        final(workspace).user_functions() == old(workspace).user_functions(),
        final(workspace).selectors() == old(workspace).selectors(),
        has_system_datatypes(final(workspace).datatypes()),
        forall|other: Seq<char>|
            (forall|k: int| 0 <= k < system_datatype_names().len() ==> lower(other) != lower(
                #[trigger] system_datatype_names()[k],
            )) ==> final(workspace).datatypes().has(other) == old(workspace).datatypes().has(other) && (old(workspace).datatypes().has(other) ==> final(workspace).datatypes().item(other) == old(workspace).datatypes().item(
                other,
            )),
{
    let mut k: usize = 0;
    while k < 13
        invariant
            k <= 13,
            system_datatype_names().len() == 13,
            workspace.wf(),
            workspace.same_but_tables(old(workspace)),
            workspace.system_functions() == old(workspace).system_functions(),
            workspace.user_functions() == old(workspace).user_functions(),
            workspace.selectors() == old(workspace).selectors(),
            forall|i: int|
                0 <= i < k ==> workspace.datatypes().has(#[trigger] system_datatype_names()[i])
                    && is_system_datatype(
                    workspace.datatypes().item(system_datatype_names()[i]),
                    system_datatype_names()[i],
                ),
            forall|other: Seq<char>|
                (forall|i: int| 0 <= i < k ==> lower(other) != lower(#[trigger] system_datatype_names()[i]))
                    ==> workspace.datatypes().has(other) == old(workspace).datatypes().has(other) && (old(workspace).datatypes().has(other) ==> workspace.datatypes().item(other) == old(workspace).datatypes().item(
                    other,
                )),
        decreases 13 - k,
    {
        let ghost before = *workspace;
        let p = system_datatype(k);
        workspace.add_datatype(p.0, p.1);
        proof {
            lemma_system_datatype_names_differ();
            assert forall|i: int| 0 <= i < k + 1 implies workspace.datatypes().has(
                #[trigger] system_datatype_names()[i],
            ) && is_system_datatype(
                workspace.datatypes().item(system_datatype_names()[i]),
                system_datatype_names()[i],
            ) by {
                if i < k {
                    assert(lower(system_datatype_names()[i]) != lower(system_datatype_names()[k as int]));
                    assert(before.datatypes().has(system_datatype_names()[i]));
                }
            }
            assert forall|other: Seq<char>|
                (forall|i: int| 0 <= i < k + 1 ==> lower(other) != lower(
                    #[trigger] system_datatype_names()[i],
                )) implies workspace.datatypes().has(other) == old(workspace).datatypes().has(other) && (old(workspace).datatypes().has(other) ==> workspace.datatypes().item(other) == old(workspace).datatypes().item(
                other,
            )) by {
                assert(lower(other) != lower(system_datatype_names()[k as int]));
                assert forall|i: int| 0 <= i < k implies lower(other) != lower(
                    #[trigger] system_datatype_names()[i],
                ) by {}
            }
        }
        k += 1;
    }
}

} // verus!
