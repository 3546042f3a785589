//! The nodes a parsed program is made of.

use vstd::prelude::*;
use crate::symbols::metadata::FunctionDescription;
use crate::symbols::name::Name;

verus! {

/// A literal value of the source.
#[derive(Debug)]
pub enum Literal {
    Char(char),
    Int(i32),
    /// A single precision number, by the bits of its IEEE-754 form.
    Real(u32),
    /// A double precision number, by the bits of its IEEE-754 form.
    Double(u64),
    /// A character string.
    Text(String),
}

/// What a definition defines.
pub enum DefinitionType {
    Function(FunctionDescription),
    Structure(StructureDefinition),
    Sequence(SequenceDefinition),
    /// The indices of the nodes that name the alternatives.
    Alternate(Vec<usize>),
}

/// A definition of a datatype or of a function.
pub struct DefinitionNode {
    name: Name,
    class: DefinitionType,
}

impl DefinitionNode {
    /// The name that is defined.
    pub closed spec fn name(&self) -> Seq<char> {
        self.name@
    }

    /// What is defined.
    pub closed spec fn class(&self) -> DefinitionType {
        self.class
    }

    pub fn as_string(&self) -> (r: String)
        ensures
            r@ == self.name(),
    {
        self.name.as_string()
    }

    pub fn from_string(name: &String, class: DefinitionType) -> (r: DefinitionNode)
        ensures
            r.name() == name@,
            r.class() == class,
    {
        DefinitionNode { name: Name::from_string(name), class: class }
    }

    pub fn get(&self) -> (r: &DefinitionType)
        ensures
            *r == self.class(),
    {
        &self.class
    }
}

/// An indexing: the node of the value that is indexed, and the node of the index.
#[derive(Clone, Copy, Debug, PartialEq, Eq, Structural)]
pub struct IndexNode {
    pub value_position: usize,
    pub index_position: usize,
}

/// A statement label.
#[derive(Debug)]
pub struct LabelNode {
    pub name: String,
    pub statement_index: usize,
}

/// A call: the name of what is called, and the nodes of the arguments.
#[derive(Debug)]
pub struct OperationNode {
    name: Name,
    actual_arguments: Vec<usize>,
}

impl OperationNode {
    /// The name of what is called.
    pub closed spec fn name(&self) -> Seq<char> {
        self.name@
    }

    /// The node indices of the arguments, in order.
    pub closed spec fn arguments(&self) -> Seq<usize> {
        self.actual_arguments@
    }

    pub fn from_str(name: &str, args: Vec<usize>) -> (r: OperationNode)
        ensures
            r.name() == name@,
            r.arguments() == args@,
    {
        OperationNode { name: Name::from_str(name), actual_arguments: args }
    }

    pub fn from_string(name: &String, args: Vec<usize>) -> (r: OperationNode)
        ensures
            r.name() == name@,
            r.arguments() == args@,
    {
        OperationNode { name: Name::from_string(name), actual_arguments: args }
    }

    pub fn get_actual_argument_list(&self) -> (r: &Vec<usize>)
        ensures
            r@ == self.arguments(),
    {
        &self.actual_arguments
    }

    pub fn get_name(&self) -> (r: String)
        ensures
            r@ == self.name(),
    {
        self.name.as_string()
    }
}

/// A reference to something by its name.
#[derive(Debug)]
pub struct ReferenceNode {
    name: Name,
}

impl ReferenceNode {
    /// The name, as it was spelled.
    pub closed spec fn name(&self) -> Seq<char> {
        self.name@
    }

    pub fn as_name(&self) -> (r: Name)
        ensures
            r@ == self.name(),
    {
        self.name.clone()
    }

    pub fn as_string(&self) -> (r: String)
        ensures
            r@ == self.name(),
    {
        self.name.as_string()
    }

    pub fn from_str(name: &str) -> (r: ReferenceNode)
        ensures
            r.name() == name@,
    {
        ReferenceNode { name: Name::from_str(name) }
    }

    pub fn from_string(name: &String) -> (r: ReferenceNode)
        ensures
            r.name() == name@,
    {
        ReferenceNode { name: Name::from_string(name) }
    }
}

/// The definition of a sequence datatype.
#[derive(Debug)]
pub struct SequenceDefinition {
    pub root_datatype_name: Name,
    pub lower_bound: i32,
    pub upper_bound: Option<i32>,
}

impl SequenceDefinition {
    pub fn from_string(name: &String, lower_bound: i32, upper_bound: Option<i32>) -> (r: SequenceDefinition)
        ensures
            r.root_datatype_name@ == name@,
            r.lower_bound == lower_bound,
            r.upper_bound == upper_bound,
    {
        SequenceDefinition {
            root_datatype_name: Name::from_string(name),
            lower_bound: lower_bound,
            upper_bound: upper_bound,
        }
    }
}

/// The definition of a structure datatype.
#[derive(Debug)]
pub struct StructureDefinition {
    pub members: Vec<StructureMemberDescription>,
}

/// One field of the definition of a structure datatype.
#[derive(Debug)]
pub struct StructureMemberDescription {
    pub name: Name,
    pub datatype: Name,
}

/// One node of a parsed program.
pub enum Node {
    Definition(DefinitionNode),
    FunctionReturn,
    IdentifierByReference(ReferenceNode),
    IdentifierByValue(ReferenceNode),
    Index(IndexNode),
    Noop,
    Operation(OperationNode),
    /// The end of a statement; holds the node index of the root of its expression.
    StatementEnd(usize),
    StatementLabel(LabelNode),
    Value(Literal),
}

} // verus!
