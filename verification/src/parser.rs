//! The parser: from tokens to an executable.
//!
//! A program is statements, one to a line. A statement is an expression,
//! which may start with a label; or a definition, which starts with `$`;
//! or a block in braces; or an `if` or a `while`. An expression is a value
//! that may be indexed, and may be followed by an operator and another
//! expression.

use vstd::prelude::*;
use std::rc::Rc;
use crate::execution::runtime::executable::Executable;
use crate::execution::runtime::statement::Statement;
use crate::lexical::{pick_line, picked_line, LineNumber, Token, TokenKind, TokenModel, TokenPosition, TokenType};
use crate::symbols::metadata::{ArgumentMechanism, FormalArgument, FunctionArgumentList, FunctionBody,
    FunctionDescription, FunctionImplementation, MetaDataTypeName};
use crate::symbols::name::Name;
use crate::text::{append_chars, chars_of, fill, lower, repeat_char, same_chars, string_is, string_of, to_lower};
use crate::workspace::optional_features::Feature;
use crate::workspace::WorkSpace;
use self::scanner::TokenScanner;
use self::statementbuilder::{StatementBuilder, MAX_NODES};
use self::tree::{DefinitionNode, DefinitionType, IndexNode, LabelNode, Literal, Node, OperationNode,
    ReferenceNode, SequenceDefinition, StructureDefinition, StructureMemberDescription};

pub mod scanner;
pub mod statementbuilder;
pub mod tree;

verus! {

/// The parser of one source text.
pub struct Parser<'a> {
    workspace: &'a WorkSpace,
    source: &'a str,
    line_number_bias: u32,
}

/// An error message with its context: an empty line, the line of the
/// source that the position names, a caret under its column, and the
/// message.
pub open spec fn parse_error_text(s: Seq<char>, position: TokenPosition, message: Seq<char>) -> Seq<char> {
    seq!['\n'] + (if s.len() == 0 {
        s
    } else {
        picked_line(s, 0, position.line_number as int)
    }) + seq!['\n'] + fill(' ', position.column - 1) + seq!['^', '\n'] + message
}

/// Whether an executable is another with more behind it: the same text,
/// the nodes and statements there were and maybe more, and every node
/// there was belongs to what it belonged to.
pub open spec fn grown(before: &Executable, after: &Executable) -> bool {
    &&& after.wf()
    &&& before.owners().len() == before.nodes().len()
    &&& after.text() == before.text()
    &&& before.nodes().len() <= after.nodes().len()
    &&& before.statements().len() <= after.statements().len()
    &&& forall|k: int| 0 <= k < before.owners().len() ==> #[trigger] after.owners()[k] == before.owners()[k]
}

/// Whether every node from index `from` on belongs to a statement, or is
/// one of the given nodes.
pub open spec fn settled(after: &Executable, from: int, pending: Set<usize>) -> bool {
    forall|k: int|
        from <= k < after.owners().len() ==> (#[trigger] after.owners()[k]) is Some || pending.contains(
            k as usize,
        )
}

/// What parsing a part of a statement owes: the executable has grown,
/// and each node that was added belongs to a statement or is among the
/// nodes of the statement that is being parsed.
pub open spec fn built(
    old_executable: &Executable,
    executable: &Executable,
    old_builder: &StatementBuilder,
    builder: &StatementBuilder,
) -> bool {
    &&& grown(old_executable, executable)
    &&& builder.pending_in(executable)
    &&& builder.line() == old_builder.line()
    &&& builder.offset() == old_builder.offset()
    &&& old_builder.nodes().subset_of(builder.nodes())
    &&& settled(executable, old_executable.nodes().len() as int, builder.nodes())
    &&& forall|x: usize|
        #[trigger] builder.nodes().contains(x) && x < old_executable.nodes().len() ==> old_builder.nodes().contains(x)
}

/// Whether the cursor has moved on over the same tokens, or stayed.
pub open spec fn advanced(before: &TokenScanner, after: &TokenScanner) -> bool {
    &&& after.wf()
    &&& after.tokens() == before.tokens()
    &&& after.saved() is None
    &&& after.taken() >= before.taken()
}

/// Whether a node is finished: if it defines a function, every node of
/// the body of the function belongs to a statement of the body.
pub open spec fn node_finished(node: Node) -> bool {
    match node {
        Node::Definition(d) => match d.class() {
            DefinitionType::Function(f) => match f.implementation_class {
                FunctionImplementation::User(body) => body.executable.wf() && body.executable.complete(),
                _ => true,
            },
            _ => true,
        },
        _ => true,
    }
}

/// Whether the nodes of an executable are finished.
pub open spec fn nodes_finished(executable: &Executable) -> bool {
    forall|k: int| 0 <= k < executable.nodes().len() ==> node_finished(*#[trigger] executable.nodes()[k])
}

/// Whether a token counts as one that was taken: the end of a line does not.
pub open spec fn weight(t: TokenModel) -> nat {
    if t.kind is EOL {
        0
    } else {
        1
    }
}

pub proof fn lemma_built_chain(
    a: &Executable,
    b: &Executable,
    c: &Executable,
    ba: &StatementBuilder,
    bb: &StatementBuilder,
    bc: &StatementBuilder,
)
    requires
        built(a, b, ba, bb),
        built(b, c, bb, bc),
    ensures
        built(a, c, ba, bc),
{
    assert forall|k: int| 0 <= k < a.owners().len() implies #[trigger] c.owners()[k] == a.owners()[k] by {
        assert(b.owners()[k] == a.owners()[k]);
    }
    assert forall|k: int| a.nodes().len() <= k < c.owners().len() implies (#[trigger] c.owners()[k]) is Some
        || bc.nodes().contains(k as usize) by {
        if k < b.owners().len() {
            assert(c.owners()[k] == b.owners()[k]);
            assert(b.owners()[k] is Some || bb.nodes().contains(k as usize));
        }
    }
    assert forall|x: usize| #[trigger] bc.nodes().contains(x) && x < a.nodes().len() implies ba.nodes().contains(
        x,
    ) by {
        assert(bb.nodes().contains(x));
    }
}

/// Parsing with a builder that is left alone: the executable grows by
/// whole statements.
pub proof fn lemma_built_around(a: &Executable, b: &Executable, builder: &StatementBuilder)
    requires
        grown(a, b),
        builder.pending_in(a),
        settled(b, a.nodes().len() as int, Set::<usize>::empty()),
    ensures
        built(a, b, builder, builder),
{
    assert forall|x: usize| #[trigger] builder.nodes().contains(x) implies x < b.nodes().len()
        && b.owners()[x as int] is None by {
        assert(b.owners()[x as int] == a.owners()[x as int]);
    }
}

/// Where parsing stands: the index of the token that comes next, the
/// position of the last token that was taken, and how many nodes there are.
pub struct Place {
    pub k: int,
    pub position: TokenPosition,
    pub n: int,
}

/// Where parsing stands, or the message of what went wrong.
pub type Parsed = Result<Place, Seq<char>>;

/// Where parsing stands with a cursor and an executable.
pub open spec fn place_of(scanner: &TokenScanner, executable: &Executable) -> Place {
    Place { k: scanner.taken(), position: scanner.position(), n: executable.nodes().len() as int }
}

/// The token that comes next: a comment counts as the end of a line,
/// and so does the end of the tokens.
pub open spec fn at(ts: Seq<Token>, p: Place) -> TokenModel {
    if p.k < ts.len() {
        let t = ts[p.k].model();
        if t.kind is Comment {
            crate::parser::scanner::end_of_line(t.position)
        } else {
            t
        }
    } else {
        crate::parser::scanner::end_of_line(p.position)
    }
}

/// Where parsing stands when the token that comes next has been taken.
pub open spec fn step(ts: Seq<Token>, p: Place) -> Place {
    Place {
        k: if p.k < ts.len() {
            p.k + 1
        } else {
            p.k
        },
        position: if p.k < ts.len() && !(ts[p.k].model().kind is Comment) {
            ts[p.k].model().position
        } else {
            p.position
        },
        n: p.n,
    }
}

/// How many tokens are left.
pub open spec fn left(ts: Seq<Token>, p: Place) -> nat {
    if p.k < ts.len() {
        (ts.len() - p.k) as nat
    } else {
        0
    }
}

/// Where parsing stands when a node has been added; the executable may be full.
pub open spec fn added(p: Place) -> Parsed {
    if p.n >= MAX_NODES {
        Err(crate::parser::statementbuilder::too_large_message())
    } else {
        Ok(Place { n: p.n + 1, ..p })
    }
}

/// What parsing came to, where it went on from a place: tokens are
/// taken and never given back.
pub open spec fn onward(from: Place, r: Parsed) -> Parsed {
    match r {
        Ok(p) => if p.k >= from.k {
            r
        } else {
            Err(Seq::empty())
        },
        Err(_) => r,
    }
}

/// What parsing came to, where it took a token at least.
pub open spec fn further(from: Place, r: Parsed) -> Parsed {
    match r {
        Ok(p) => if p.k > from.k {
            r
        } else {
            Err(Seq::empty())
        },
        Err(_) => r,
    }
}

/// Whether a result, a cursor and an executable are what parsing is to come to.
pub open spec fn tells<T>(r: Result<T, String>, scanner: &TokenScanner, executable: &Executable, want: Parsed) -> bool {
    match (r, want) {
        (Ok(_), Ok(p)) => place_of(scanner, executable) == p,
        (Err(e), Err(m)) => e@ == m,
        _ => false,
    }
}

/// Whether a result and an executable are what parsing is to come to,
/// where no token is taken.
pub open spec fn counts<T>(r: Result<T, String>, executable: &Executable, want: Parsed) -> bool {
    match (r, want) {
        (Ok(_), Ok(p)) => executable.nodes().len() == p.n,
        (Err(e), Err(m)) => e@ == m,
        _ => false,
    }
}

/// Whether a result and a cursor are what parsing is to come to,
/// where no node is added.
pub open spec fn cursor_tells<T>(r: Result<T, String>, scanner: &TokenScanner, want: Parsed) -> bool {
    match (r, want) {
        (Ok(_), Ok(p)) => scanner.taken() == p.k && scanner.position() == p.position,
        (Err(e), Err(m)) => e@ == m,
        _ => false,
    }
}

/// The least of the nodes of a statement.
pub open spec fn first_node(statement: Statement) -> usize {
    choose|k: usize| statement.nodes().contains(k) && forall|x: usize| statement.nodes().contains(x) ==> k <= x
}

/// The name in a node that is a label.
pub open spec fn label_of(node: Node) -> Option<Seq<char>> {
    match node {
        Node::StatementLabel(l) => Some(l.name@),
        _ => None,
    }
}

/// The name in a node of an executable that is a label.
pub open spec fn node_label(executable: &Executable, k: int) -> Option<Seq<char>> {
    label_of(*executable.nodes()[k])
}

/// The label of a statement of an executable: the name in its first
/// node, where that node is a label.
pub open spec fn label_at(executable: &Executable, i: int) -> Option<Seq<char>> {
    let k = first_node(executable.statements()[i]);
    if k < executable.nodes().len() {
        label_of(*executable.nodes()[k as int])
    } else {
        None
    }
}

/// For each statement of an executable its label, if it has one, and its line.
pub open spec fn labelled(executable: &Executable) -> Seq<(Option<Seq<char>>, LineNumber)> {
    Seq::new(
        executable.statements().len(),
        |i: int| (label_at(executable, i), executable.statements()[i].line()),
    )
}

/// Labels with their lines, as plain data.
pub open spec fn label_models(labels: Seq<(String, LineNumber)>) -> Seq<(Seq<char>, LineNumber)> {
    Seq::new(labels.len(), |i: int| (labels[i].0@, labels[i].1))
}

/// Whether a label is among labels.
pub open spec fn is_listed(labels: Seq<(Seq<char>, LineNumber)>, name: Seq<char>) -> bool {
    exists|j: int| 0 <= j < labels.len() && (#[trigger] labels[j]).0 == name
}

/// The labels of statements from statement `i` on, behind the labels
/// that were found already, each in lower case with the line of its
/// statement; or the message for the first statement whose label
/// another statement before it has.
pub open spec fn database(
    statements: Seq<(Option<Seq<char>>, LineNumber)>,
    i: int,
    found: Seq<(Seq<char>, LineNumber)>,
) -> Result<Seq<(Seq<char>, LineNumber)>, Seq<char>>
    decreases statements.len() - i,
{
    if i < 0 || i >= statements.len() {
        Ok(found)
    } else {
        match statements[i].0 {
            Some(name) => if is_listed(found, lower(name)) {
                Err("Statement label "@ + name + " is duplicated"@)
            } else {
                database(statements, i + 1, found.push((lower(name), statements[i].1)))
            },
            None => database(statements, i + 1, found),
        }
    }
}

/// The first node of a statement is one of its nodes, and the least.
pub proof fn lemma_first_node(statement: Statement)
    requires
        statement.wf(),
    ensures
        statement.nodes().contains(first_node(statement)),
        forall|x: usize| statement.nodes().contains(x) ==> first_node(statement) <= x,
{
    let runs = statement.indices().runs();
    let r = runs[0].spec_first();
    assert(crate::utility::runs_hold(runs, r));
    assert forall|x: usize| statement.nodes().contains(x) implies r <= x by {
        let i = choose|i: int| 0 <= i < runs.len() && (#[trigger] runs[i]).spec_first() <= x <= runs[i].spec_last();
        if i > 0 {
            assert(runs[0].spec_last() < runs[i].spec_first());
        }
    }
    assert(statement.nodes().contains(r) && forall|x: usize| statement.nodes().contains(x) ==> r <= x);
}

/// The statements of an executable keep their labels where nodes come
/// behind the nodes there are.
pub proof fn lemma_labels_stay(before: &Executable, after: &Executable)
    requires
        before.wf(),
        after.statements() == before.statements(),
        before.nodes().len() <= after.nodes().len(),
        forall|k: int|
            0 <= k < before.nodes().len() ==> label_of(*#[trigger] after.nodes()[k]) == label_of(*before.nodes()[k]),
    ensures
        labelled(after) == labelled(before),
{
    assert forall|i: int| 0 <= i < before.statements().len() implies label_at(after, i) == label_at(before, i) by {
        lemma_first_node(before.statements()[i]);
        let k = first_node(before.statements()[i]);
        assert(before.statements()[i].nodes().contains(k));
        assert(k < before.nodes().len());
    }
    assert(labelled(after) =~= labelled(before));
}

/// What parsing a part of a statement that holds no statement leaves
/// as it was: the nodes there were, the statements with their labels
/// and the line of the return. No node that came is a label, and the
/// statement has no node more but of those that came.
pub open spec fn plain(
    old_builder: &StatementBuilder,
    builder: &StatementBuilder,
    old_executable: &Executable,
    executable: &Executable,
) -> bool {
    &&& old_executable.nodes().len() <= executable.nodes().len()
    &&& executable.return_line() == old_executable.return_line()
    &&& labelled(executable) == labelled(old_executable)
    &&& forall|k: int|
        0 <= k < executable.nodes().len() ==> if k < old_executable.nodes().len() {
            #[trigger] executable.nodes()[k] == old_executable.nodes()[k]
        } else {
            label_of(*executable.nodes()[k]) is None
        }
    &&& forall|x: usize| #[trigger]
        builder.nodes().contains(x) ==> old_builder.nodes().contains(x) || old_executable.nodes().len() <= x
    &&& forall|x: usize| #[trigger] old_builder.nodes().contains(x) ==> builder.nodes().contains(x)
}

/// A statement that is finished has the label of its first node.
pub proof fn lemma_finished(
    before: &Executable,
    after: &Executable,
    nodes: Set<usize>,
    first: usize,
    label: Option<Seq<char>>,
    line: LineNumber,
)
    requires
        after.wf(),
        after.nodes() == before.nodes(),
        after.statements().len() == before.statements().len() + 1,
        after.statements().drop_last() == before.statements(),
        after.statements().last().line() == line,
        after.statements().last().nodes() == nodes,
        forall|x: usize|
            nodes.contains(x) ==> first <= x < before.nodes().len() && node_label(before, x as int) == if x == first {
                label
            } else {
                None
            },
        label is Some ==> nodes.contains(first),
    ensures
        labelled(after) == labelled(before).push((label, line)),
{
    let m = before.statements().len() as int;
    assert forall|i: int| 0 <= i < m implies after.statements()[i] == before.statements()[i] by {
        assert(after.statements().drop_last()[i] == after.statements()[i]);
    }
    assert(after.statements()[m] == after.statements().last());
    lemma_first_node(after.statements()[m]);
    let f = first_node(after.statements()[m]);
    assert(nodes.contains(f));
    if label is Some {
        assert(f == first);
    }
    assert(node_label(before, f as int) == label);
    assert(label_at(after, m) == label);
    assert(labelled(after) =~= labelled(before).push((label, line)));
}

/// Where parsing stands with an executable that holds statements: the
/// place, the line of the return where one is set, for each statement
/// its label and its line, and the length of the source text.
pub struct Whole {
    pub place: Place,
    pub ended: Option<LineNumber>,
    pub labels: Seq<(Option<Seq<char>>, LineNumber)>,
    pub size: int,
}

/// Where parsing stands behind a statement or statements: whether a
/// node is handed back, which node, and the label that the statement
/// starts with, where it is not finished yet.
pub struct Inner {
    pub to: Whole,
    pub found: bool,
    pub root: usize,
    pub label: Option<Seq<char>>,
}

/// The node that is handed back, where one is.
pub open spec fn handed(i: Inner) -> Option<usize> {
    if i.found {
        Some(i.root)
    } else {
        None
    }
}

/// The node that was found, for what follows; nought where none was.
pub open spec fn root_of(found: Option<usize>) -> usize {
    match found {
        Some(i) => i,
        None => 0,
    }
}

/// Where parsing statements stands, or the message of what went wrong.
pub type Wholly = Result<Whole, Seq<char>>;

/// Where parsing stands behind statements, or the message of what went wrong.
pub type Inwardly = Result<Inner, Seq<char>>;

/// Where parsing stands with a cursor and an executable that holds statements.
pub open spec fn whole_of(scanner: &TokenScanner, executable: &Executable) -> Whole {
    Whole {
        place: place_of(scanner, executable),
        ended: executable.return_line(),
        labels: labelled(executable),
        size: executable.text().len() as int,
    }
}

/// Whether a result, a cursor and an executable are what parsing
/// statements is to come to.
pub open spec fn wholly<T>(r: Result<T, String>, scanner: &TokenScanner, executable: &Executable, want: Wholly) -> bool {
    match (r, want) {
        (Ok(_), Ok(w)) => whole_of(scanner, executable) == w,
        (Err(e), Err(m)) => e@ == m,
        _ => false,
    }
}

/// Whether a result, a cursor and an executable are what parsing a
/// statement is to come to: a node is handed back where one is to be.
pub open spec fn inwardly(
    r: Result<Option<usize>, String>,
    scanner: &TokenScanner,
    executable: &Executable,
    want: Inwardly,
) -> bool {
    match (r, want) {
        (Ok(o), Ok(i)) => whole_of(scanner, executable) == i.to && o == handed(i),
        (Err(e), Err(m)) => e@ == m,
        _ => false,
    }
}

/// The label that a statement is to start with; none where parsing fails.
pub open spec fn label_in(want: Inwardly) -> Option<Seq<char>> {
    match want {
        Ok(i) => i.label,
        Err(_) => None,
    }
}

/// Whether the nodes there were are there as they were.
pub open spec fn nodes_stay(before: &Executable, after: &Executable) -> bool {
    &&& before.nodes().len() <= after.nodes().len()
    &&& forall|k: int| 0 <= k < before.nodes().len() ==> #[trigger] after.nodes()[k] == before.nodes()[k]
}

/// Whether the nodes that came to a statement came behind the nodes
/// there were, none of them a label but, where the statement starts
/// with a label, the first that came.
pub open spec fn pending(
    old_builder: &StatementBuilder,
    builder: &StatementBuilder,
    old_executable: &Executable,
    executable: &Executable,
    label: Option<Seq<char>>,
) -> bool {
    &&& forall|x: usize| #[trigger]
        builder.nodes().contains(x) ==> old_builder.nodes().contains(x) || (old_executable.nodes().len() <= x
            < executable.nodes().len() && label_of(*executable.nodes()[x as int]) == if x
            == old_executable.nodes().len() {
            label
        } else {
            None
        })
    &&& label is Some ==> builder.nodes().contains(old_executable.nodes().len() as usize)
}

/// Whether a node is a call of the given name with the nodes of the
/// given arguments.
pub open spec fn is_call(node: Node, name: Seq<char>, arguments: Seq<usize>) -> bool {
    node matches Node::Operation(o) && o.name() == name && o.arguments() == arguments
}

/// Whether a node is the value of a token that is a literal.
pub open spec fn is_literal(node: Node, kind: TokenKind) -> bool {
    match kind {
        TokenKind::Character(c) => node == Node::Value(Literal::Char(c)),
        TokenKind::Integer(v) => node == Node::Value(Literal::Int(v)),
        TokenKind::Real(l) => l.bits matches Some(bits) && node == Node::Value(Literal::Real(bits as u32)),
        TokenKind::Double(l) => l.bits matches Some(bits) && node == Node::Value(Literal::Double(bits)),
        TokenKind::Text(t) => node matches Node::Value(Literal::Text(s)) && s@ == t,
        _ => false,
    }
}

/// The spelling of a token that is an operator.
pub open spec fn operator_of(kind: TokenKind) -> Seq<char> {
    match kind {
        TokenKind::Operator(o) => o,
        _ => Seq::empty(),
    }
}

/// Whether a node names something by reference.
pub open spec fn is_reference(node: Node, name: Seq<char>) -> bool {
    node matches Node::IdentifierByReference(reference) && reference.name() == name
}

/// Whether a node names something by value.
pub open spec fn is_name(node: Node, name: Seq<char>) -> bool {
    node matches Node::IdentifierByValue(reference) && reference.name() == name
}

/// Whether a node is the label of a statement that is not finished.
pub open spec fn is_label(node: Node, name: Seq<char>) -> bool {
    node matches Node::StatementLabel(label) && label.name@ == name && label.statement_index == 0
}

/// Whether a node is a whole number from `low` to `high`.
pub open spec fn is_target(node: Node, low: int, high: int) -> bool {
    node matches Node::Value(Literal::Int(t)) && low <= t <= high
}

/// Whether the four nodes from `from` on are the branch round a
/// statement on a condition: the condition turned round, the node to go
/// to, which is a node from `low` to `high`, the branch on the two, and
/// an end.
pub open spec fn branches_round(executable: &Executable, from: int, condition: usize, low: int, high: int) -> bool {
    &&& 0 <= from
    &&& from + 4 <= executable.nodes().len()
    &&& is_call(*executable.nodes()[from], "-"@, seq![condition])
    &&& is_target(*executable.nodes()[from + 1], low, high)
    &&& is_call(*executable.nodes()[from + 2], "cbranch"@, seq![from as usize, (from + 1) as usize])
    &&& *executable.nodes()[from + 3] == Node::StatementEnd(0)
}

/// Whether the three nodes from `from` on are a branch: the node to go
/// to, the branch with its argument, and an end.
pub open spec fn branches_to(executable: &Executable, from: int, target: int, argument: usize) -> bool {
    &&& 0 <= from
    &&& from + 3 <= executable.nodes().len()
    &&& is_target(*executable.nodes()[from], target, target)
    &&& is_call(*executable.nodes()[from + 1], "branch"@, seq![argument])
    &&& *executable.nodes()[from + 2] == Node::StatementEnd(0)
}

/// An indexing as plain data: which node it is, the node of the value
/// that is indexed, and the node of the index.
pub struct Indexing {
    pub node: int,
    pub value: int,
    pub index: int,
}

/// Whether the nodes of an executable hold the given indexings.
pub open spec fn holds_indexings(executable: &Executable, list: Seq<Indexing>) -> bool {
    forall|j: int|
        0 <= j < list.len() ==> 0 <= (#[trigger] list[j]).node < executable.nodes().len()
            && *executable.nodes()[list[j].node] == Node::Index(
            IndexNode { value_position: list[j].value as usize, index_position: list[j].index as usize },
        )
}

/// An argument of a function as its definition gives it: its name,
/// whether it is passed by reference, and the name of its datatype.
pub struct Formal {
    pub name: Seq<char>,
    pub by_reference: bool,
    pub datatype: Seq<char>,
}

/// An argument of a function as plain data.
pub open spec fn formal_model(argument: FormalArgument) -> Formal {
    Formal { name: argument.name@, by_reference: argument.mechanism is ByReference, datatype: argument.datatype@ }
}

/// The arguments of a function as plain data.
pub open spec fn formal_models(arguments: Seq<FormalArgument>) -> Seq<Formal> {
    Seq::new(arguments.len(), |i: int| formal_model(arguments[i]))
}

/// A field of a structure as its definition gives it: its name and
/// the name of its datatype.
pub struct Member {
    pub name: Seq<char>,
    pub datatype: Seq<char>,
}

/// The fields of a structure as plain data.
pub open spec fn member_models(members: Seq<StructureMemberDescription>) -> Seq<Member> {
    Seq::new(members.len(), |i: int| Member { name: members[i].name@, datatype: members[i].datatype@ })
}

/// Names as plain data.
pub open spec fn name_models(names: Seq<Name>) -> Seq<Seq<char>> {
    Seq::new(names.len(), |i: int| names[i]@)
}

/// Whether the tokens are at their end.
pub open spec fn ended_at(ts: Seq<Token>, p: Place) -> bool {
    p.k >= ts.len() || ts[p.k].model().kind is EOS
}

/// Where parsing stands when one more node has been added.
pub open spec fn more(r: Parsed) -> Parsed {
    match r {
        Ok(p) => added(p),
        Err(e) => Err(e),
    }
}

/// What parsing statements came to, where a node may have been found
/// before: the first that was found is handed back.
pub open spec fn with_found(found: bool, root: usize, r: Inwardly) -> Inwardly {
    match r {
        Ok(i) => Ok(
            Inner {
                to: i.to,
                found: found || i.found,
                root: if found {
                    root
                } else {
                    i.root
                },
                label: None,
            },
        ),
        Err(e) => Err(e),
    }
}

/// Where parsing stands behind the end of a line that must end a
/// statement, if the tokens are not at their end.
pub open spec fn line_ended(text: Seq<char>, ts: Seq<Token>, p: Place) -> Parsed {
    if at(ts, p).kind is EOL {
        Ok(step(ts, p))
    } else if ended_at(ts, p) {
        Ok(p)
    } else {
        Err(parse_error_text(text, at(ts, p).position, "expected newline"@))
    }
}

/// Whether a list of nodes of arguments is a list of nodes of the executable.
pub open spec fn positions_in(positions: Seq<usize>, executable: &Executable) -> bool {
    forall|i: int| 0 <= i < positions.len() ==> (#[trigger] positions[i]) < executable.nodes().len()
}

impl<'a> Parser<'a> {
    /// The source text.
    pub closed spec fn text(&self) -> Seq<char> {
        self.source@
    }

    /// The workspace.
    pub closed spec fn workspace(&self) -> WorkSpace {
        *self.workspace
    }

    /// By how much the lines of a function body are numbered down, so
    /// that the first line of the body is line one.
    pub closed spec fn bias(&self) -> u32 {
        self.line_number_bias
    }

    /// The text of an error at a position.
    pub open spec fn fault(&self, position: TokenPosition, message: Seq<char>) -> Parsed {
        Err(parse_error_text(self.text(), position, message))
    }

    /// A literal: a node for its value. A number with a fraction must
    /// have been given its value.
    pub open spec fn s_atomic(&self, t: TokenModel, p: Place) -> Parsed {
        match t.kind {
            TokenKind::Character(_) | TokenKind::Integer(_) | TokenKind::Text(_) => added(p),
            TokenKind::Real(l) => if l.bits is Some && l.bits->0 <= u32::MAX {
                added(p)
            } else {
                self.fault(t.position, "Number has no value"@)
            },
            TokenKind::Double(l) => if l.bits is Some {
                added(p)
            } else {
                self.fault(t.position, "Number has no value"@)
            },
            _ => self.fault(t.position, "Unexpected symbol: "@ + t.text + ""@),
        }
    }

    /// An operator that takes nothing: a node for its call.
    pub open spec fn s_nullary(&self, t: TokenModel, p: Place) -> Parsed {
        match t.kind {
            TokenKind::Operator(op) => if self.workspace().has_arity(op, 0) {
                added(p)
            } else {
                self.fault(t.position, ""@ + op + " is not a nullary operator"@)
            },
            _ => self.fault(t.position, "Expected an operator"@),
        }
    }

    /// A field of a value: a dot and the name of the field; a node for
    /// the name and a node for the selection.
    pub open spec fn s_field_reference(&self, ts: Seq<Token>, p: Place) -> Parsed {
        if !TokenScanner::is_operator(at(ts, p), "."@) {
            Err("operator not found"@)
        } else if !(at(ts, step(ts, p)).kind is Identifier) {
            Err("identifier not found"@)
        } else {
            match added(step(ts, step(ts, p))) {
                Ok(q) => added(q),
                Err(e) => Err(e),
            }
        }
    }

    /// An expression: a value that may be indexed, and may be followed
    /// by an operator of two arguments and another expression.
    pub open spec fn s_expression(&self, ts: Seq<Token>, p: Place) -> Parsed
        decreases left(ts, p), 10nat,
    {
        self.s_diadic(ts, at(ts, p), step(ts, p))
    }

    /// An expression whose first token was taken.
    pub open spec fn s_diadic(&self, ts: Seq<Token>, t: TokenModel, p: Place) -> Parsed
        decreases left(ts, p) + weight(t), 9nat,
    {
        match onward(p, self.s_indexed(ts, t, p)) {
            Err(e) => Err(e),
            Ok(p1) => if at(ts, p1).kind is Operator {
                if weight(t) == 0 {
                    Err(Seq::empty())
                } else if self.workspace().has_arity(at(ts, p1).text, 2) {
                    match self.s_expression(ts, step(ts, p1)) {
                        Ok(p2) => added(p2),
                        Err(e) => Err(e),
                    }
                } else {
                    self.fault(
                        at(ts, step(ts, p1)).position,
                        ""@ + at(ts, p1).text + " is not a binary operator"@,
                    )
                }
            } else {
                Ok(p1)
            },
        }
    }

    /// A value whose first token was taken, with the fields and indices behind it.
    pub open spec fn s_indexed(&self, ts: Seq<Token>, t: TokenModel, p: Place) -> Parsed
        decreases left(ts, p) + weight(t), 8nat,
    {
        match onward(p, self.s_value(ts, t, p)) {
            Err(e) => Err(e),
            Ok(p1) => if weight(t) == 0 {
                Err(Seq::empty())
            } else {
                self.s_suffixes(ts, p1)
            },
        }
    }

    /// The fields and indices behind a value, as many as there are.
    pub open spec fn s_suffixes(&self, ts: Seq<Token>, p: Place) -> Parsed
        decreases left(ts, p), 15nat,
    {
        if TokenScanner::is_operator(at(ts, p), "."@) {
            match further(p, self.s_field_reference(ts, p)) {
                Ok(p1) => self.s_suffixes(ts, p1),
                Err(e) => Err(e),
            }
        } else if TokenScanner::is_punctuation(at(ts, p), "["@) {
            match further(p, self.s_brackets(ts, p)) {
                Ok(p1) => self.s_suffixes(ts, p1),
                Err(e) => Err(e),
            }
        } else {
            Ok(p)
        }
    }

    /// Indices in brackets, one pair of brackets behind the other.
    pub open spec fn s_brackets(&self, ts: Seq<Token>, p: Place) -> Parsed
        decreases left(ts, p), 14nat,
    {
        if TokenScanner::is_punctuation(at(ts, p), "["@) && p.k < ts.len() {
            self.s_indices(ts, step(ts, p))
        } else {
            Ok(p)
        }
    }

    /// The indices in one pair of brackets, with commas between them,
    /// and the closing bracket; a node for each indexing.
    pub open spec fn s_indices(&self, ts: Seq<Token>, p: Place) -> Parsed
        decreases left(ts, p), 13nat,
    {
        match further(p, self.s_expression(ts, p)) {
            Err(e) => Err(e),
            Ok(p1) => match added(p1) {
                Err(e) => Err(e),
                Ok(p2) => if TokenScanner::is_punctuation(at(ts, p2), ","@) {
                    self.s_indices(ts, step(ts, p2))
                } else if TokenScanner::is_punctuation(at(ts, p2), "]"@) {
                    self.s_brackets(ts, step(ts, p2))
                } else {
                    Err("punctuation not found"@)
                },
            },
        }
    }

    /// A value whose first token was taken: a name, which may be called;
    /// an operator of one argument with its argument, or one of none; an
    /// expression in parentheses; a tuple in brackets; or a literal.
    pub open spec fn s_value(&self, ts: Seq<Token>, t: TokenModel, p: Place) -> Parsed
        decreases left(ts, p) + weight(t), 7nat,
    {
        match t.kind {
            TokenKind::Identifier(_) => self.s_identifier(ts, t, p),
            TokenKind::Operator(op) => if op == "$"@ && at(ts, p).kind is Identifier {
                self.s_identifier(ts, t, p)
            } else {
                self.s_monadic(ts, t, p)
            },
            TokenKind::Punctuation(pn) => if pn == "("@ {
                self.s_parenthetical(ts, p)
            } else if pn == "["@ {
                self.s_tuple(ts, p)
            } else {
                self.fault(t.position, "Syntax error near "@ + pn + ""@)
            },
            _ => self.s_atomic(t, p),
        }
    }

    /// A name whose token was taken: a name by reference behind a dollar
    /// sign, a call where a parenthesis follows, or a name by value.
    pub open spec fn s_identifier(&self, ts: Seq<Token>, t: TokenModel, p: Place) -> Parsed
        decreases left(ts, p) + weight(t), 6nat,
    {
        if weight(t) != 1 {
            Err(Seq::empty())
        } else if TokenScanner::is_operator(t, "$"@) {
            if at(ts, p).kind is Identifier {
                added(step(ts, p))
            } else {
                Err("identifier not found"@)
            }
        } else if TokenScanner::is_punctuation(at(ts, p), "("@) && p.k < ts.len() {
            self.s_call(ts, step(ts, p))
        } else {
            added(p)
        }
    }

    /// The arguments of a call behind the opening parenthesis, and the
    /// closing parenthesis; a node for the call.
    pub open spec fn s_call(&self, ts: Seq<Token>, p: Place) -> Parsed
        decreases left(ts, p), 12nat,
    {
        if TokenScanner::is_punctuation(at(ts, p), ")"@) {
            added(step(ts, p))
        } else {
            self.s_arguments(ts, p)
        }
    }

    /// The arguments of a call, with commas between them, and the
    /// closing parenthesis.
    pub open spec fn s_arguments(&self, ts: Seq<Token>, p: Place) -> Parsed
        decreases left(ts, p), 11nat,
    {
        match further(p, self.s_expression(ts, p)) {
            Err(e) => Err(e),
            Ok(p1) => match at(ts, p1).kind {
                TokenKind::Punctuation(pn) => if pn == ")"@ {
                    added(step(ts, p1))
                } else if pn == ","@ {
                    self.s_arguments(ts, step(ts, p1))
                } else {
                    self.fault(at(ts, p1).position, "invalid function argument"@)
                },
                TokenKind::EOL => self.fault(at(ts, p1).position, "missing close paren on function call"@),
                _ => self.fault(at(ts, p1).position, "invalid function argument"@),
            },
        }
    }

    /// An operator whose token was taken: one of one argument with its
    /// argument, or one of none.
    pub open spec fn s_monadic(&self, ts: Seq<Token>, t: TokenModel, p: Place) -> Parsed
        decreases left(ts, p) + weight(t), 6nat,
    {
        if weight(t) != 1 {
            Err(Seq::empty())
        } else if self.workspace().has_arity(t.text, 1) {
            match self.s_expression(ts, p) {
                Ok(p1) => added(p1),
                Err(e) => Err(e),
            }
        } else {
            self.s_nullary(t, p)
        }
    }

    /// An expression behind an opening parenthesis, and the closing parenthesis.
    pub open spec fn s_parenthetical(&self, ts: Seq<Token>, p: Place) -> Parsed
        decreases left(ts, p), 11nat,
    {
        match self.s_expression(ts, p) {
            Err(e) => Err(e),
            Ok(p1) => if TokenScanner::is_punctuation(at(ts, p1), ")"@) {
                Ok(step(ts, p1))
            } else {
                self.fault(at(ts, p1).position, "missing close paren"@)
            },
        }
    }

    /// A tuple behind its opening bracket: its members with commas
    /// between them, and the closing bracket; a node for the call that
    /// makes the tuple.
    pub open spec fn s_tuple(&self, ts: Seq<Token>, p: Place) -> Parsed
        decreases left(ts, p), 12nat,
    {
        if TokenScanner::is_punctuation(at(ts, p), "]"@) {
            added(step(ts, p))
        } else {
            self.s_members(ts, p)
        }
    }

    /// The members of a tuple and its closing bracket.
    pub open spec fn s_members(&self, ts: Seq<Token>, p: Place) -> Parsed
        decreases left(ts, p), 11nat,
    {
        match further(p, self.s_expression(ts, p)) {
            Err(e) => Err(e),
            Ok(p1) => if TokenScanner::is_punctuation(at(ts, p1), ","@) {
                self.s_members(ts, step(ts, p1))
            } else if TokenScanner::is_punctuation(at(ts, p1), "]"@) {
                added(step(ts, p1))
            } else {
                self.fault(at(ts, p1).position, "missing closing bracket"@)
            },
        }
    }

    /// A field of the definition of a structure: its name, a colon, and
    /// the name of its datatype.
    pub open spec fn s_member(&self, ts: Seq<Token>, p: Place) -> Parsed {
        if !(at(ts, p).kind is Identifier) {
            Err("identifier not found"@)
        } else if !TokenScanner::is_operator(at(ts, step(ts, p)), ":"@) {
            Err("operator not found"@)
        } else if !(at(ts, step(ts, step(ts, p))).kind is Identifier) {
            Err("identifier not found"@)
        } else {
            Ok(step(ts, step(ts, step(ts, p))))
        }
    }

    /// The fields of the definition of a structure behind its opening
    /// bracket, with commas between them, and the closing bracket; a
    /// node for the definition.
    pub open spec fn s_structure(&self, ts: Seq<Token>, p: Place) -> Parsed
        decreases left(ts, p),
    {
        match further(p, self.s_member(ts, p)) {
            Err(e) => Err(e),
            Ok(p1) => if TokenScanner::is_punctuation(at(ts, p1), ","@) {
                self.s_structure(ts, step(ts, p1))
            } else if TokenScanner::is_punctuation(at(ts, p1), "]"@) {
                added(step(ts, p1))
            } else {
                self.fault(at(ts, p1).position, "syntax error in structure definition"@)
            },
        }
    }

    /// The definition of a sequence behind its opening bracket: the
    /// lower bound, a colon, the upper bound, which may be left out, the
    /// closing bracket, and the name of the datatype of the elements; a
    /// node for the definition.
    pub open spec fn s_sequence(&self, ts: Seq<Token>, p: Place) -> Parsed {
        if !(at(ts, p).kind is Integer) {
            Err("integer not found"@)
        } else if !TokenScanner::is_operator(at(ts, step(ts, p)), ":"@) {
            Err("operator not found"@)
        } else {
            let p2 = step(ts, step(ts, p));
            let p3 = if at(ts, p2).kind is Integer {
                step(ts, p2)
            } else {
                p2
            };
            if !TokenScanner::is_punctuation(at(ts, p3), "]"@) {
                Err("punctuation not found"@)
            } else if !(at(ts, step(ts, p3)).kind is Identifier) {
                Err("identifier not found"@)
            } else {
                added(step(ts, step(ts, p3)))
            }
        }
    }

    /// The datatypes of a sum, with `!` between them: a node for each
    /// name, and a node for the definition.
    pub open spec fn s_alternate(&self, ts: Seq<Token>, p: Place) -> Parsed
        decreases left(ts, p),
    {
        if !(at(ts, p).kind is Identifier) {
            Err("identifier not found"@)
        } else {
            match added(step(ts, p)) {
                Err(e) => Err(e),
                Ok(p1) => if TokenScanner::is_operator(at(ts, p1), "!"@) {
                    self.s_alternate(ts, step(ts, p1))
                } else {
                    added(p1)
                },
            }
        }
    }

    /// The definition of a structure or of a sequence behind the opening
    /// bracket: of a structure where a name comes next.
    pub open spec fn s_structure_or_sequence(&self, ts: Seq<Token>, p: Place) -> Parsed {
        if at(ts, p).kind is Identifier {
            self.s_structure(ts, p)
        } else {
            self.s_sequence(ts, p)
        }
    }

    /// The definition of a datatype behind the equals sign.
    pub open spec fn s_datatype(&self, ts: Seq<Token>, p: Place) -> Parsed {
        if TokenScanner::is_punctuation(at(ts, p), "["@) {
            self.s_structure_or_sequence(ts, step(ts, p))
        } else {
            self.s_alternate(ts, p)
        }
    }

    /// Where parsing stands behind the label that a statement may start
    /// with: a name and a colon, where statements may have labels; a node
    /// for the label. Where there is none, or the executable is full, no
    /// token is taken.
    pub open spec fn s_label(&self, ts: Seq<Token>, p: Place) -> Place {
        if !self.workspace().feature_switches().on(Feature::LineNames) || !(at(ts, p).kind is Identifier) {
            p
        } else if !TokenScanner::is_operator(at(ts, step(ts, p)), ":"@) {
            Place { position: step(ts, p).position, ..p }
        } else {
            match added(step(ts, step(ts, p))) {
                Ok(q) => q,
                Err(_) => Place { position: step(ts, step(ts, p)).position, ..p },
            }
        }
    }

    /// The arguments of the definition of a function behind the opening
    /// parenthesis: each a name, which `$` may stand before and a colon
    /// and the name of a datatype behind, with commas between them, and
    /// the closing parenthesis.
    pub open spec fn s_formals(&self, ts: Seq<Token>, p: Place) -> Parsed
        decreases left(ts, p),
    {
        let p0 = if TokenScanner::is_operator(at(ts, p), "$"@) {
            step(ts, p)
        } else {
            p
        };
        if !(at(ts, p0).kind is Identifier) {
            Err("identifier not found"@)
        } else {
            let p1 = step(ts, p0);
            if TokenScanner::is_operator(at(ts, p1), ":"@) && !(at(ts, step(ts, p1)).kind is Identifier) {
                Err("identifier not found"@)
            } else {
                let p2 = if TokenScanner::is_operator(at(ts, p1), ":"@) {
                    step(ts, step(ts, p1))
                } else {
                    p1
                };
                if TokenScanner::is_punctuation(at(ts, p2), ","@) {
                    if p2.k >= p.k {
                        self.s_formals(ts, step(ts, p2))
                    } else {
                        Err(Seq::empty())
                    }
                } else if TokenScanner::is_punctuation(at(ts, p2), ")"@) {
                    Ok(step(ts, p2))
                } else {
                    self.fault(at(ts, p2).position, "Expected , or )"@)
                }
            }
        }
    }

    /// The node that an expression hands back: the node that its first
    /// value hands back.
    pub open spec fn r_expression(&self, ts: Seq<Token>, p: Place) -> int
        decreases left(ts, p), 2nat,
    {
        self.r_value(ts, at(ts, p), step(ts, p))
    }

    /// The node that a value hands back, behind its first token: the
    /// first node that comes of it; but for an operator with its
    /// argument, the node of the call, which is the last.
    pub open spec fn r_value(&self, ts: Seq<Token>, t: TokenModel, p: Place) -> int
        decreases left(ts, p) + weight(t), 1nat,
    {
        match t.kind {
            TokenKind::Identifier(_) => self.r_identifier(ts, t, p),
            TokenKind::Operator(op) => if op == "$"@ && at(ts, p).kind is Identifier {
                self.r_identifier(ts, t, p)
            } else {
                self.r_monadic(ts, t, p)
            },
            TokenKind::Punctuation(pn) => if pn == "("@ {
                self.r_expression(ts, p)
            } else if pn == "["@ {
                self.r_listed(ts, p, "]"@)
            } else {
                p.n
            },
            _ => p.n,
        }
    }

    /// The node that a name hands back, behind its first token: the
    /// node of the name, or what the call hands back.
    pub open spec fn r_identifier(&self, ts: Seq<Token>, t: TokenModel, p: Place) -> int
        decreases left(ts, p) + weight(t), 0nat,
    {
        if weight(t) != 1 || TokenScanner::is_operator(t, "$"@) {
            p.n
        } else if TokenScanner::is_punctuation(at(ts, p), "("@) && p.k < ts.len() {
            self.r_listed(ts, step(ts, p), ")"@)
        } else {
            p.n
        }
    }

    /// The node that an operator hands back: with an argument the node
    /// of the call, which is the last.
    pub open spec fn r_monadic(&self, ts: Seq<Token>, t: TokenModel, p: Place) -> int {
        if self.workspace().has_arity(t.text, 1) {
            match self.s_expression(ts, p) {
                Ok(p1) => p1.n,
                Err(_) => p.n,
            }
        } else {
            p.n
        }
    }

    /// The node that a list of expressions in brackets hands back,
    /// behind the opening bracket: the node that the first expression
    /// hands back, or the first node that comes where the list is empty.
    pub open spec fn r_listed(&self, ts: Seq<Token>, p: Place, closing: Seq<char>) -> int
        decreases left(ts, p), 3nat,
    {
        if TokenScanner::is_punctuation(at(ts, p), closing) {
            p.n
        } else {
            self.r_expression(ts, p)
        }
    }

    /// The nodes that the expressions of a list hand back, from a place
    /// on, behind those that were found.
    pub open spec fn r_all(&self, ts: Seq<Token>, p: Place, found: Seq<usize>) -> Seq<usize>
        decreases left(ts, p),
    {
        match further(p, self.s_expression(ts, p)) {
            Err(_) => found,
            Ok(p1) => {
                let all = found.push(self.r_expression(ts, p) as usize);
                if TokenScanner::is_punctuation(at(ts, p1), ","@) {
                    self.r_all(ts, step(ts, p1), all)
                } else {
                    all
                }
            },
        }
    }

    /// The nodes of the arguments of a call, or of the members of a
    /// tuple, behind the opening bracket.
    pub open spec fn r_list(&self, ts: Seq<Token>, p: Place, closing: Seq<char>) -> Seq<usize> {
        if TokenScanner::is_punctuation(at(ts, p), closing) {
            Seq::empty()
        } else {
            self.r_all(ts, p, Seq::empty())
        }
    }

    /// Whether the last node of an executable is the call of the
    /// operator that follows a value, with the nodes that the value and
    /// the expression behind the operator hand back; where no operator
    /// follows, nothing is said.
    pub open spec fn diadic_node(&self, ts: Seq<Token>, t: TokenModel, p: Place, executable: &Executable) -> bool {
        match self.s_indexed(ts, t, p) {
            Ok(p1) => at(ts, p1).kind is Operator ==> executable.nodes().len() > 0 && is_call(
                *executable.nodes().last(),
                at(ts, p1).text,
                seq![self.r_value(ts, t, p) as usize, self.r_expression(ts, step(ts, p1)) as usize],
            ),
            Err(_) => true,
        }
    }

    /// Whether a node is the call of an operator: with the node that
    /// its argument hands back, or with no argument.
    pub open spec fn monadic_node(&self, ts: Seq<Token>, t: TokenModel, p: Place, node: Node) -> bool {
        if self.workspace().has_arity(t.text, 1) {
            is_call(node, t.text, seq![self.r_expression(ts, p) as usize])
        } else {
            is_call(node, operator_of(t.kind), Seq::empty())
        }
    }

    /// Whether the nodes of an executable hold what a name comes to:
    /// the name by reference behind `$`; a call, which is the last node,
    /// with the nodes that its arguments hand back; else the name by
    /// value.
    pub open spec fn identifier_node(
        &self,
        ts: Seq<Token>,
        t: TokenModel,
        p: Place,
        executable: &Executable,
        i: int,
    ) -> bool {
        &&& 0 <= i < executable.nodes().len()
        &&& if TokenScanner::is_operator(t, "$"@) {
            is_reference(*executable.nodes()[i], at(ts, p).text)
        } else if TokenScanner::is_punctuation(at(ts, p), "("@) && p.k < ts.len() {
            is_call(*executable.nodes().last(), t.text, self.r_list(ts, step(ts, p), ")"@))
        } else {
            is_name(*executable.nodes()[i], t.text)
        }
    }

    /// The indexings that the indices in brackets give from a place on,
    /// behind a bracket or a comma, behind those that were found: each
    /// index indexes what the index before it gave, the first the value
    /// `value`.
    pub open spec fn indexings_from(&self, ts: Seq<Token>, p: Place, value: int, found: Seq<Indexing>) -> Seq<
        Indexing,
    >
        decreases left(ts, p), 13nat,
    {
        match further(p, self.s_expression(ts, p)) {
            Err(_) => found,
            Ok(p1) => match added(p1) {
                Err(_) => found,
                Ok(p2) => {
                    let all = found.push(Indexing { node: p1.n, value: value, index: self.r_expression(ts, p) });
                    if TokenScanner::is_punctuation(at(ts, p2), ","@) {
                        self.indexings_from(ts, step(ts, p2), p1.n, all)
                    } else if TokenScanner::is_punctuation(at(ts, p2), "]"@) {
                        self.indexings_of(ts, step(ts, p2), p1.n, all)
                    } else {
                        all
                    }
                },
            },
        }
    }

    /// The indexings that pairs of brackets give from a place on, one
    /// pair behind the other.
    pub open spec fn indexings_of(&self, ts: Seq<Token>, p: Place, value: int, found: Seq<Indexing>) -> Seq<
        Indexing,
    >
        decreases left(ts, p), 14nat,
    {
        if TokenScanner::is_punctuation(at(ts, p), "["@) && p.k < ts.len() {
            self.indexings_from(ts, step(ts, p), value, found)
        } else {
            found
        }
    }

    /// The indexings come behind those that were found.
    pub proof fn lemma_indexings_from(&self, ts: Seq<Token>, p: Place, value: int, found: Seq<Indexing>)
        ensures
            self.indexings_from(ts, p, value, found) == found + self.indexings_from(ts, p, value, Seq::empty()),
        decreases left(ts, p), 13nat,
    {
        let none = Seq::<Indexing>::empty();
        match further(p, self.s_expression(ts, p)) {
            Err(_) => {
                assert(found + none =~= found);
            },
            Ok(p1) => match added(p1) {
                Err(_) => {
                    assert(found + none =~= found);
                },
                Ok(p2) => {
                    let x = Indexing { node: p1.n, value: value, index: self.r_expression(ts, p) };
                    let all = found.push(x);
                    let one = none.push(x);
                    assert(found + one =~= all);
                    if TokenScanner::is_punctuation(at(ts, p2), ","@) {
                        self.lemma_indexings_from(ts, step(ts, p2), p1.n, all);
                        self.lemma_indexings_from(ts, step(ts, p2), p1.n, one);
                        let rest = self.indexings_from(ts, step(ts, p2), p1.n, none);
                        assert(all + rest =~= found + (one + rest));
                    } else if TokenScanner::is_punctuation(at(ts, p2), "]"@) {
                        self.lemma_indexings_of(ts, step(ts, p2), p1.n, all);
                        self.lemma_indexings_of(ts, step(ts, p2), p1.n, one);
                        let rest = self.indexings_of(ts, step(ts, p2), p1.n, none);
                        assert(all + rest =~= found + (one + rest));
                    }
                },
            },
        }
    }

    /// The indexings come behind those that were found.
    pub proof fn lemma_indexings_of(&self, ts: Seq<Token>, p: Place, value: int, found: Seq<Indexing>)
        ensures
            self.indexings_of(ts, p, value, found) == found + self.indexings_of(ts, p, value, Seq::empty()),
        decreases left(ts, p), 14nat,
    {
        if TokenScanner::is_punctuation(at(ts, p), "["@) && p.k < ts.len() {
            self.lemma_indexings_from(ts, step(ts, p), value, found);
        } else {
            assert(found + Seq::<Indexing>::empty() =~= found);
        }
    }

    /// The indexings that the fields and indices behind a value give
    /// from a place on, behind those that were found: a field indexes
    /// the value by the node of its name, which comes before the
    /// indexing and is the value that is indexed next.
    pub open spec fn suffixes_of(&self, ts: Seq<Token>, p: Place, value: int, found: Seq<Indexing>) -> Seq<Indexing>
        decreases left(ts, p), 15nat,
    {
        if TokenScanner::is_operator(at(ts, p), "."@) {
            match further(p, self.s_field_reference(ts, p)) {
                Ok(p1) => self.suffixes_of(
                    ts,
                    p1,
                    p.n,
                    found.push(Indexing { node: p.n + 1, value: value, index: p.n }),
                ),
                Err(_) => found,
            }
        } else if TokenScanner::is_punctuation(at(ts, p), "["@) {
            match further(p, self.s_brackets(ts, p)) {
                Ok(p1) => self.suffixes_of(ts, p1, value, self.indexings_of(ts, p, value, found)),
                Err(_) => found,
            }
        } else {
            found
        }
    }

    /// The indexings that a value with the fields and indices behind
    /// it gives, behind its first token.
    pub open spec fn indexed_nodes(&self, ts: Seq<Token>, t: TokenModel, p: Place) -> Seq<Indexing> {
        match self.s_value(ts, t, p) {
            Ok(p1) => self.suffixes_of(ts, p1, self.r_value(ts, t, p), Seq::empty()),
            Err(_) => Seq::empty(),
        }
    }

    /// The fields that the definition of a structure gives from a place
    /// on, behind those that were found.
    pub open spec fn members_from(&self, ts: Seq<Token>, p: Place, found: Seq<Member>) -> Seq<Member>
        decreases left(ts, p),
    {
        match further(p, self.s_member(ts, p)) {
            Err(_) => found,
            Ok(p1) => {
                let all = found.push(Member { name: at(ts, p).text, datatype: at(ts, step(ts, step(ts, p))).text });
                if TokenScanner::is_punctuation(at(ts, p1), ","@) {
                    self.members_from(ts, step(ts, p1), all)
                } else {
                    all
                }
            },
        }
    }

    /// Whether a node defines a structure of the given name with the
    /// fields that the tokens give from a place on.
    pub open spec fn is_structure(&self, ts: Seq<Token>, p: Place, node: Node, name: Seq<char>) -> bool {
        match node {
            Node::Definition(d) => d.name() == name && match d.class() {
                DefinitionType::Structure(definition) => member_models(definition.members@) == self.members_from(
                    ts,
                    p,
                    Seq::empty(),
                ),
                _ => false,
            },
            _ => false,
        }
    }

    /// Whether a node defines a sequence of the given name with the
    /// bounds and the datatype that the tokens give from a place on.
    pub open spec fn is_sequence(&self, ts: Seq<Token>, p: Place, node: Node, name: Seq<char>) -> bool {
        let p2 = step(ts, step(ts, p));
        let p3 = if at(ts, p2).kind is Integer {
            step(ts, p2)
        } else {
            p2
        };
        match node {
            Node::Definition(d) => d.name() == name && match d.class() {
                DefinitionType::Sequence(definition) => {
                    &&& at(ts, p).kind == TokenKind::Integer(definition.lower_bound)
                    &&& definition.upper_bound == match at(ts, p2).kind {
                        TokenKind::Integer(v) => Some(v),
                        _ => None,
                    }
                    &&& definition.root_datatype_name@ == at(ts, step(ts, p3)).text
                },
                _ => false,
            },
            _ => false,
        }
    }

    /// Whether the nodes of an executable from `from` on define a sum
    /// of the given name: a node for the name of each datatype that the
    /// tokens give from a place on, and a node for the definition, which
    /// holds those nodes.
    pub open spec fn is_alternate(
        &self,
        ts: Seq<Token>,
        p: Place,
        executable: &Executable,
        from: int,
        name: Seq<char>,
    ) -> bool {
        let last = executable.nodes().len() - 1;
        &&& 0 <= from < last
        &&& forall|k: int|
            from <= k < last ==> is_name(
                *#[trigger] executable.nodes()[k],
                at(ts, Place { k: p.k + 2 * (k - from), ..p }).text,
            )
        &&& match *executable.nodes()[last] {
            Node::Definition(d) => d.name() == name && match d.class() {
                DefinitionType::Alternate(v) => v@ == Seq::new((last - from) as nat, |j: int| (from + j) as usize),
                _ => false,
            },
            _ => false,
        }
    }

    /// Whether the nodes of an executable from `from` on define a
    /// datatype of the given name as the tokens give it from a place on.
    pub open spec fn is_datatype(
        &self,
        ts: Seq<Token>,
        p: Place,
        executable: &Executable,
        from: int,
        name: Seq<char>,
    ) -> bool {
        if TokenScanner::is_punctuation(at(ts, p), "["@) {
            self.is_bracketed(ts, step(ts, p), executable, from, name)
        } else {
            self.is_alternate(ts, p, executable, from, name)
        }
    }

    /// Whether the node `from` of an executable defines a structure or
    /// a sequence of the given name as the tokens give it from a place
    /// on, behind the opening bracket.
    pub open spec fn is_bracketed(
        &self,
        ts: Seq<Token>,
        p: Place,
        executable: &Executable,
        from: int,
        name: Seq<char>,
    ) -> bool {
        &&& 0 <= from
        &&& from + 1 == executable.nodes().len()
        &&& if at(ts, p).kind is Identifier {
            self.is_structure(ts, p, *executable.nodes()[from], name)
        } else {
            self.is_sequence(ts, p, *executable.nodes()[from], name)
        }
    }

    /// The arguments that the definition of a function gives from a
    /// place on, behind those that were found: `$` before a name passes
    /// by reference, and the datatype is `general` where none is named.
    pub open spec fn formals_from(&self, ts: Seq<Token>, p: Place, found: Seq<Formal>) -> Seq<Formal>
        decreases left(ts, p),
    {
        let by_reference = TokenScanner::is_operator(at(ts, p), "$"@);
        let p0 = if by_reference {
            step(ts, p)
        } else {
            p
        };
        let p1 = step(ts, p0);
        let typed = TokenScanner::is_operator(at(ts, p1), ":"@);
        if !(at(ts, p0).kind is Identifier) || (typed && !(at(ts, step(ts, p1)).kind is Identifier)) {
            found
        } else {
            let p2 = if typed {
                step(ts, step(ts, p1))
            } else {
                p1
            };
            let all = found.push(
                Formal {
                    name: at(ts, p0).text,
                    by_reference: by_reference,
                    datatype: if typed {
                        at(ts, step(ts, p1)).text
                    } else {
                        "general"@
                    },
                },
            );
            if TokenScanner::is_punctuation(at(ts, p2), ","@) && p2.k >= p.k {
                self.formals_from(ts, step(ts, p2), all)
            } else {
                all
            }
        }
    }

    /// The arguments that the head of the definition of a function gives.
    pub open spec fn formals_of(&self, ts: Seq<Token>, p: Place) -> Seq<Formal> {
        if TokenScanner::is_punctuation(at(ts, p), "("@) && !TokenScanner::is_punctuation(
            at(ts, step(ts, p)),
            ")"@,
        ) {
            self.formals_from(ts, step(ts, p), Seq::empty())
        } else {
            Seq::empty()
        }
    }

    /// The local variables that the definition of a function gives from
    /// a place on, behind those that were found.
    pub open spec fn locals_from(&self, ts: Seq<Token>, p: Place, found: Seq<Seq<char>>) -> Seq<Seq<char>>
        decreases left(ts, p),
    {
        if !(at(ts, p).kind is Identifier) {
            found
        } else if TokenScanner::is_punctuation(at(ts, step(ts, p)), ","@) {
            self.locals_from(ts, step(ts, step(ts, p)), found.push(at(ts, p).text))
        } else {
            found.push(at(ts, p).text)
        }
    }

    /// The local variables that the head of the definition of a function
    /// gives, behind its arguments.
    pub open spec fn locals_of(&self, ts: Seq<Token>, p: Place) -> Seq<Seq<char>> {
        let formals = if TokenScanner::is_punctuation(at(ts, p), "("@) {
            if TokenScanner::is_punctuation(at(ts, step(ts, p)), ")"@) {
                Ok(step(ts, step(ts, p)))
            } else {
                self.s_formals(ts, step(ts, p))
            }
        } else {
            Ok(p)
        };
        match formals {
            Ok(p1) => if TokenScanner::is_punctuation(at(ts, p1), ";"@) {
                self.locals_from(ts, step(ts, p1), Seq::empty())
            } else {
                Seq::empty()
            },
            Err(_) => Seq::empty(),
        }
    }

    /// The local variables of the definition of a function behind the
    /// semicolon: names with commas between them.
    pub open spec fn s_locals(&self, ts: Seq<Token>, p: Place) -> Parsed
        decreases left(ts, p),
    {
        if !(at(ts, p).kind is Identifier) {
            Err("identifier not found"@)
        } else if TokenScanner::is_punctuation(at(ts, step(ts, p)), ","@) {
            self.s_locals(ts, step(ts, step(ts, p)))
        } else {
            Ok(step(ts, p))
        }
    }

    /// The head of the definition of a function behind its name: the
    /// arguments in parentheses, which may be left out, the local
    /// variables behind a semicolon, which may be left out, and the end
    /// of the line.
    pub open spec fn s_head(&self, ts: Seq<Token>, p: Place) -> Parsed {
        let formals = if TokenScanner::is_punctuation(at(ts, p), "("@) {
            if TokenScanner::is_punctuation(at(ts, step(ts, p)), ")"@) {
                Ok(step(ts, step(ts, p)))
            } else {
                self.s_formals(ts, step(ts, p))
            }
        } else {
            Ok(p)
        };
        match formals {
            Err(e) => Err(e),
            Ok(p1) => {
                let locals = if TokenScanner::is_punctuation(at(ts, p1), ";"@) {
                    self.s_locals(ts, step(ts, p1))
                } else {
                    Ok(p1)
                };
                match locals {
                    Err(e) => Err(e),
                    Ok(p2) => if !(at(ts, p2).kind is EOL) {
                        self.fault(at(ts, p2).position, "expected function body"@)
                    } else if at(ts, step(ts, p2)).position.line_number == 0 {
                        self.fault(at(ts, step(ts, p2)).position, "expected function body"@)
                    } else {
                        Ok(step(ts, p2))
                    },
                }
            },
        }
    }

    /// The body of a function behind its statements: where no statement
    /// was the return, one is added on the line behind the last.
    pub open spec fn s_closed(&self, w: Whole) -> Wholly {
        if w.ended is Some {
            Ok(w)
        } else if w.labels.len() >= 0x7fff_ffff || w.place.position.n > w.size {
            Err(parse_error_text(self.text(), w.place.position, "Tokens are out of order"@))
        } else {
            match added(w.place) {
                Err(e) => Err(e),
                Ok(q) => Ok(
                    Whole {
                        place: q,
                        ended: Some((w.labels.len() + 1) as LineNumber),
                        labels: w.labels.push((None, (w.labels.len() + 1) as LineNumber)),
                        size: w.size,
                    },
                ),
            }
        }
    }

    /// The body of a function behind the name of the function: the
    /// head, and the statements, which make an executable of their own
    /// with lines counted from the first of them, and end in a return.
    pub open spec fn s_body(&self, ts: Seq<Token>, p: Place) -> Wholly
        decreases left(ts, p), 6nat,
    {
        match onward(p, self.s_head(ts, p)) {
            Err(e) => Err(e),
            Ok(p1) => {
                let start = Whole {
                    place: Place { n: 0, ..p1 },
                    ended: None,
                    labels: Seq::empty(),
                    size: self.text().len() as int,
                };
                match self.s_statements(ts, start, (at(ts, p1).position.line_number - 1) as u32) {
                    Err(e) => Err(e),
                    Ok(i) => self.s_closed(i.to),
                }
            },
        }
    }

    /// Whether a node defines a function of the given name with the
    /// given arguments, local variables and body: the function gives
    /// back a `general` and has no help text; the executable of the
    /// body has the nodes, the statements with their labels and the
    /// return that parsing the body comes to, and the labels of the
    /// function are those of the statements, in lower case, each with
    /// its line.
    pub open spec fn is_function(
        &self,
        node: Node,
        name: Seq<char>,
        formals: Seq<Formal>,
        locals: Seq<Seq<char>>,
        want: Wholly,
    ) -> bool {
        match (node, want) {
            (Node::Definition(d), Ok(c)) => d.name() == name && match d.class() {
                DefinitionType::Function(f) => f.name@ == name && (match f.arguments {
                    FunctionArgumentList::Fixed(v) => formal_models(v@) == formals,
                    _ => false,
                }) && (match f.local_variables {
                    Some(l) => l@.len() > 0 && name_models(l@) == locals,
                    None => locals.len() == 0,
                }) && (match f.return_value {
                    Some(t) => t@ == "general"@,
                    None => false,
                }) && f.help_text@ == Seq::<char>::empty() && match f.implementation_class {
                    FunctionImplementation::User(body) => {
                        &&& body.executable.text() == self.text()
                        &&& body.executable.nodes().len() == c.place.n
                        &&& body.executable.return_line() == c.ended
                        &&& labelled(&body.executable) == c.labels
                        &&& database(c.labels, 0, Seq::empty()) == Ok::<Seq<(Seq<char>, LineNumber)>, Seq<char>>(
                            label_models(body.labels@),
                        )
                    },
                    _ => false,
                },
                _ => false,
            },
            _ => false,
        }
    }

    /// The definition of a function behind its name: the head, and the
    /// statements of the body, which make an executable of their own
    /// with lines counted from the first of them. No two statements of
    /// the body have the same label. A node for the definition.
    pub open spec fn s_function(&self, ts: Seq<Token>, p: Place) -> Parsed
        decreases left(ts, p), 7nat,
    {
        match self.s_body(ts, p) {
            Err(e) => Err(e),
            Ok(c) => match database(c.labels, 0, Seq::empty()) {
                Err(m) => Err(m),
                Ok(_) => added(Place { n: p.n, ..c.place }),
            },
        }
    }

    /// Whether the nodes of an executable from `from` on are those of
    /// the definition that the tokens give from a place on: of a
    /// datatype, or of a function, which is one node.
    pub open spec fn is_definition(&self, ts: Seq<Token>, p: Place, executable: &Executable, from: int) -> bool {
        let name = at(ts, p).text;
        let p1 = step(ts, p);
        if TokenScanner::is_operator(at(ts, p1), "="@) {
            self.is_datatype(ts, step(ts, p1), executable, from, name)
        } else {
            0 <= from && from + 1 == executable.nodes().len() && self.is_function(
                *executable.nodes()[from],
                name,
                self.formals_of(ts, p1),
                self.locals_of(ts, p1),
                self.s_body(ts, p1),
            )
        }
    }

    /// Whether the nodes of an executable from `from` on are those of
    /// a line that starts with `$`: the return of a function where the
    /// line holds no more, else the definition that follows. Of other
    /// lines nothing is said.
    pub open spec fn dollar_nodes(&self, ts: Seq<Token>, p: Place, executable: &Executable, from: int) -> bool {
        let p1 = step(ts, p);
        if !TokenScanner::is_operator(at(ts, p), "$"@) {
            true
        } else if at(ts, p1).kind is EOL || ended_at(ts, p1) {
            0 <= from < executable.nodes().len() && *executable.nodes()[from] == Node::FunctionReturn
        } else {
            self.is_definition(ts, p1, executable, from)
        }
    }

    /// A definition behind its `$`: a name, then `=` and a datatype, or
    /// the definition of a function.
    pub open spec fn s_definition(&self, ts: Seq<Token>, p: Place) -> Parsed
        decreases left(ts, p), 8nat,
    {
        if !(at(ts, p).kind is Identifier) {
            Err("identifier not found"@)
        } else if TokenScanner::is_operator(at(ts, step(ts, p)), "="@) {
            self.s_datatype(ts, step(ts, step(ts, p)))
        } else {
            self.s_function(ts, step(ts, p))
        }
    }

    /// Statements up to the end of the tokens.
    pub open spec fn s_statements(&self, ts: Seq<Token>, w: Whole, bias: u32) -> Inwardly
        decreases left(ts, w.place), 3nat,
    {
        match self.s_statement(ts, w, bias) {
            Err(e) => Err(e),
            Ok(i) => if ended_at(ts, i.to.place) {
                with_found(false, 0, Ok(i))
            } else if i.to.place.k > w.place.k {
                with_found(i.found, i.root, self.s_statements(ts, i.to, bias))
            } else {
                Err(Seq::empty())
            },
        }
    }

    /// Where parsing a source text sets out: before the first token,
    /// with no node and no statement.
    pub open spec fn outset(&self) -> Whole {
        Whole {
            place: Place { k: 0, position: crate::parser::scanner::no_position(), n: 0 },
            ended: None,
            labels: Seq::empty(),
            size: self.text().len() as int,
        }
    }

    /// A statement: what the line holds, and where it holds anything, a
    /// node for its end; the statement is then finished, with its line
    /// and the label it starts with. The line is counted from `bias`,
    /// and the tokens must stand in the order of the source.
    pub open spec fn s_statement(&self, ts: Seq<Token>, w: Whole, bias: u32) -> Inwardly
        decreases left(ts, w.place), 2nat,
    {
        let start = at(ts, w.place).position;
        if start.line_number < bias {
            Err(parse_error_text(self.text(), start, "Tokens are out of order"@))
        } else {
            let line = (start.line_number - bias) as u32;
            match self.s_internal(ts, w, line, bias) {
                Err(e) => Err(e),
                Ok(i) => if !i.found {
                    Ok(Inner { to: i.to, found: false, root: 0, label: None })
                } else {
                    match added(i.to.place) {
                        Err(e) => Err(e),
                        Ok(q) => if at(ts, q).position.n < start.n || at(ts, q).position.n > i.to.size {
                            Err(parse_error_text(self.text(), at(ts, q).position, "Tokens are out of order"@))
                        } else {
                            Ok(
                                Inner {
                                    to: Whole { place: q, labels: i.to.labels.push((i.label, line)), ..i.to },
                                    found: true,
                                    root: i.root,
                                    label: None,
                                },
                            )
                        },
                    }
                },
            }
        }
    }

    /// What a line holds: nothing; `$` alone, the return of a function,
    /// which must end the tokens; `$` and a definition; a block in
    /// braces; an `if`; a `while`; or an expression, which a label may
    /// stand before.
    pub open spec fn s_internal(&self, ts: Seq<Token>, w: Whole, line: LineNumber, bias: u32) -> Inwardly
        decreases left(ts, w.place), 1nat,
    {
        let p = w.place;
        if at(ts, p).kind is EOL {
            Ok(Inner { to: Whole { place: step(ts, p), ..w }, found: false, root: 0, label: None })
        } else if ended_at(ts, p) {
            Ok(Inner { to: w, found: false, root: 0, label: None })
        } else if TokenScanner::is_operator(at(ts, p), "$"@) {
            let p1 = step(ts, p);
            if at(ts, p1).kind is EOL || ended_at(ts, p1) {
                let p2 = if at(ts, p1).kind is EOL {
                    step(ts, p1)
                } else {
                    p1
                };
                if !ended_at(ts, p2) {
                    Err(parse_error_text(self.text(), p2.position, "expected end-of-string"@))
                } else {
                    match added(p2) {
                        Err(e) => Err(e),
                        Ok(q) => Ok(
                            Inner {
                                to: Whole { place: q, ended: Some(line), ..w },
                                found: true,
                                root: p2.n as usize,
                                label: None,
                            },
                        ),
                    }
                }
            } else {
                match self.s_definition(ts, p1) {
                    Err(e) => Err(e),
                    Ok(p2) => match line_ended(self.text(), ts, p2) {
                        Err(e) => Err(e),
                        Ok(q) => Ok(Inner { to: Whole { place: q, ..w }, found: true, root: (p2.n - 1) as usize, label: None }),
                    },
                }
            }
        } else if TokenScanner::is_punctuation(at(ts, p), "{"@) {
            with_found(false, 0, self.s_block(ts, Whole { place: step(ts, p), ..w }, bias))
        } else if TokenScanner::is_keyword(at(ts, p), "if"@) {
            match self.s_if(ts, Whole { place: step(ts, p), ..w }, bias) {
                Err(e) => Err(e),
                Ok(to) => Ok(
                    Inner { to: to, found: true, root: self.r_expression(ts, step(ts, p)) as usize, label: None },
                ),
            }
        } else if TokenScanner::is_keyword(at(ts, p), "while"@) {
            match self.s_while(ts, Whole { place: step(ts, p), ..w }, bias) {
                Err(e) => Err(e),
                Ok(to) => Ok(
                    Inner { to: to, found: true, root: self.r_expression(ts, step(ts, p)) as usize, label: None },
                ),
            }
        } else {
            let p1 = self.s_label(ts, p);
            match self.s_expression(ts, p1) {
                Err(e) => Err(e),
                Ok(p2) => match line_ended(self.text(), ts, p2) {
                    Err(e) => Err(e),
                    Ok(q) => Ok(
                        Inner {
                            to: Whole { place: q, ..w },
                            found: true,
                            root: if p1.n > p.n {
                                p.n as usize
                            } else {
                                self.r_expression(ts, p1) as usize
                            },
                            label: if p1.n > p.n {
                                Some(at(ts, p).text)
                            } else {
                                None
                            },
                        },
                    ),
                },
            }
        }
    }

    /// A block behind its opening brace: the end of the line, and statements.
    pub open spec fn s_block(&self, ts: Seq<Token>, w: Whole, bias: u32) -> Inwardly
        decreases left(ts, w.place), 4nat,
    {
        if !(at(ts, w.place).kind is EOL) {
            Err("newline not found"@)
        } else if step(ts, w.place).k >= w.place.k {
            self.s_block_rest(ts, Whole { place: step(ts, w.place), ..w }, bias)
        } else {
            Err(Seq::empty())
        }
    }

    /// The statements of a block up to the closing brace, which the end
    /// of a line follows.
    pub open spec fn s_block_rest(&self, ts: Seq<Token>, w: Whole, bias: u32) -> Inwardly
        decreases left(ts, w.place), 3nat,
    {
        match self.s_statement(ts, w, bias) {
            Err(e) => Err(e),
            Ok(i) => {
                let p1 = i.to.place;
                if TokenScanner::is_punctuation(at(ts, p1), "}"@) {
                    if at(ts, step(ts, p1)).kind is EOL {
                        Ok(
                            Inner {
                                to: Whole { place: step(ts, step(ts, p1)), ..i.to },
                                found: i.found,
                                root: i.root,
                                label: None,
                            },
                        )
                    } else {
                        Err("newline not found"@)
                    }
                } else if ended_at(ts, p1) {
                    Err(parse_error_text(self.text(), at(ts, p1).position, "expected }"@))
                } else if p1.k > w.place.k {
                    with_found(i.found, i.root, self.s_block_rest(ts, i.to, bias))
                } else {
                    Err(Seq::empty())
                }
            },
        }
    }

    /// The statement that an `if` or a `while` holds, behind four nodes
    /// and the end of the line.
    pub open spec fn s_held(&self, ts: Seq<Token>, w: Whole, from: Place, r: Parsed, bias: u32) -> Inwardly
        decreases left(ts, from), 4nat,
    {
        match onward(from, more(more(more(more(r))))) {
            Err(e) => Err(e),
            Ok(p1) => if !(at(ts, p1).kind is EOL) {
                Err("newline not found"@)
            } else if step(ts, p1).k >= p1.k {
                self.s_statement(ts, Whole { place: step(ts, p1), ..w }, bias)
            } else {
                Err(Seq::empty())
            },
        }
    }

    /// An `if` behind its keyword: the condition, three nodes for the
    /// branch round the statement and one for the end, the end of the
    /// line and the statement; then `else` may follow, with the end of
    /// the line, three nodes and the other statement.
    pub open spec fn s_if(&self, ts: Seq<Token>, w: Whole, bias: u32) -> Wholly
        decreases left(ts, w.place), 5nat,
    {
        match self.s_held(ts, w, w.place, self.s_expression(ts, w.place), bias) {
            Err(e) => Err(e),
            Ok(i) => {
                let p1 = i.to.place;
                if !TokenScanner::is_keyword(at(ts, p1), "else"@) {
                    if p1.n > MAX_NODES {
                        Err(crate::parser::statementbuilder::too_large_message())
                    } else {
                        Ok(i.to)
                    }
                } else if !(at(ts, step(ts, p1)).kind is EOL) {
                    Err("newline not found"@)
                } else {
                    match more(more(added(step(ts, step(ts, p1))))) {
                        Err(e) => Err(e),
                        Ok(p2) => if p2.k >= w.place.k {
                            match self.s_statement(ts, Whole { place: p2, ..i.to }, bias) {
                                Err(e) => Err(e),
                                Ok(j) => if j.to.place.n > MAX_NODES {
                                    Err(crate::parser::statementbuilder::too_large_message())
                                } else {
                                    Ok(j.to)
                                },
                            }
                        } else {
                            Err(Seq::empty())
                        },
                    }
                }
            },
        }
    }

    /// The nodes of an `if` whose condition is the node `condition`:
    /// behind the condition the branch round the statement, to the node
    /// behind the last where there is no `else`. With an `else` the
    /// branch goes to the node that the other statement hands back, or
    /// behind the last if that statement hands none back, and the first
    /// statement is followed by a branch to the node behind the last.
    pub open spec fn if_lowered(
        &self,
        ts: Seq<Token>,
        w: Whole,
        bias: u32,
        executable: &Executable,
        condition: usize,
    ) -> bool {
        let from = self.s_expression(ts, w.place)->Ok_0.n;
        let n = executable.nodes().len() as int;
        match self.s_held(ts, w, w.place, self.s_expression(ts, w.place), bias) {
            Ok(i) => if TokenScanner::is_keyword(at(ts, i.to.place), "else"@) {
                match more(more(added(step(ts, step(ts, i.to.place))))) {
                    Ok(p2) => match self.s_statement(ts, Whole { place: p2, ..i.to }, bias) {
                        Ok(j) => {
                            let target = if j.found {
                                j.root as int
                            } else {
                                n
                            };
                            branches_round(executable, from, condition, target, target) && branches_to(
                                executable,
                                i.to.place.n,
                                n,
                                i.to.place.n as usize,
                            )
                        },
                        Err(_) => false,
                    },
                    Err(_) => false,
                }
            } else {
                branches_round(executable, from, condition, n, n)
            },
            Err(_) => false,
        }
    }

    /// The nodes of a `while` whose condition is the node `condition`:
    /// behind the condition the branch round the statement to the node
    /// behind the last, and the last three are the branch back to the
    /// condition.
    pub open spec fn while_lowered(&self, ts: Seq<Token>, w: Whole, executable: &Executable, condition: usize) -> bool {
        let from = self.s_expression(ts, w.place)->Ok_0.n;
        let n = executable.nodes().len() as int;
        branches_round(executable, from, condition, n, n) && branches_to(executable, n - 3, condition as int, condition)
    }

    /// A `while` behind its keyword: the condition, three nodes for the
    /// branch round the statement and one for the end, the end of the
    /// line and the statement, and three nodes for the branch back.
    pub open spec fn s_while(&self, ts: Seq<Token>, w: Whole, bias: u32) -> Wholly
        decreases left(ts, w.place), 5nat,
    {
        match self.s_held(ts, w, w.place, self.s_expression(ts, w.place), bias) {
            Err(e) => Err(e),
            Ok(i) => match more(more(added(i.to.place))) {
                Err(e) => Err(e),
                Ok(q) => if q.n > MAX_NODES {
                    Err(crate::parser::statementbuilder::too_large_message())
                } else {
                    Ok(Whole { place: q, ..i.to })
                },
            },
        }
    }

    /// What every parsing routine asks for: the tables of the workspace in
    /// order, the cursor in order with no place saved, the executable in
    /// order, and the nodes of the statement among its unsettled nodes.
    pub open spec fn ready(
        &self,
        scanner: &TokenScanner,
        builder: &StatementBuilder,
        executable: &Executable,
    ) -> bool {
        &&& self.workspace().tables_wf()
        &&& scanner.wf()
        &&& scanner.saved() is None
        &&& executable.wf()
        &&& builder.pending_in(executable)
    }

    /// What a parsing routine owes where it succeeds: the cursor has moved
    /// on or stayed, the executable has grown in order since the given
    /// start, and the node it hands back is a node of the executable.
    pub open spec fn done(
        base: (Executable, StatementBuilder),
        old_scanner: &TokenScanner,
        scanner: &TokenScanner,
        builder: &StatementBuilder,
        old_executable: &Executable,
        executable: &Executable,
        r: Result<usize, String>,
    ) -> bool {
        r matches Ok(i) ==> advanced(old_scanner, scanner) && built(
            &base.0,
            executable,
            &base.1,
            builder,
        ) && i < executable.nodes().len() && old_executable.nodes().len() <= executable.nodes().len() && (
        nodes_finished(old_executable) ==> nodes_finished(executable))
    }

    /// What every parsing routine asks for, and that the executable has
    /// grown in order since the given start.
    pub open spec fn ready_since(
        &self,
        base: (Executable, StatementBuilder),
        scanner: &TokenScanner,
        builder: &StatementBuilder,
        executable: &Executable,
    ) -> bool {
        self.ready(scanner, builder, executable) && built(&base.0, executable, &base.1, builder)
    }

    pub fn new(source: &'a str, workspace: &'a WorkSpace) -> (r: Parser<'a>)
        ensures
            r.text() == source@,
            r.workspace() == *workspace,
            r.bias() == 0,
    {
        Parser { source: source, workspace: workspace, line_number_bias: 0 }
    }

    /// An error message with its context.
    fn error(&self, starting_position: &TokenPosition, message: &str) -> (r: String)
        ensures
            r@ == parse_error_text(self.text(), *starting_position, message@),
    {
        let source = chars_of(self.source);
        let line = pick_line(&source, starting_position.line_number);
        let column: u32 = if starting_position.column > 0 {
            starting_position.column - 1
        } else {
            0
        };
        let mut out: Vec<char> = Vec::new();
        out.push('\n');
        append_chars(&mut out, &line);
        out.push('\n');
        let blanks = repeat_char(' ', column as usize);
        append_chars(&mut out, &blanks);
        out.push('^');
        out.push('\n');
        append_chars(&mut out, &chars_of(message));
        proof {
            assert(blanks@ =~= fill(' ', starting_position.column - 1));
            assert(out@ =~= parse_error_text(self.text(), *starting_position, message@));
        }
        string_of(&out)
    }

    /// An error message made of a name and what is wrong with it.
    fn error_about(&self, starting_position: &TokenPosition, head: &str, name: &str, tail: &str) -> (r:
        String)
        ensures
            r@ == parse_error_text(self.text(), *starting_position, head@ + name@ + tail@),
    {
        let mut message = String::from_str(head);
        message.append(name);
        message.append(tail);
        self.error(starting_position, message.as_str())
    }

    fn is_diadic_operator(&self, op: &str) -> (r: bool)
        requires
            self.workspace().tables_wf(),
        ensures
            r == self.workspace().has_arity(op@, 2),
    {
        self.is_n_ary_operator(op, 2)
    }

    fn is_monadic_operator(&self, op: &str) -> (r: bool)
        requires
            self.workspace().tables_wf(),
        ensures
            r == self.workspace().has_arity(op@, 1),
    {
        self.is_n_ary_operator(op, 1)
    }

    fn is_nullary_operator(&self, op: &str) -> (r: bool)
        requires
            self.workspace().tables_wf(),
        ensures
            r == self.workspace().has_arity(op@, 0),
    {
        self.is_n_ary_operator(op, 0)
    }

    fn is_n_ary_operator(&self, op: &str, n: usize) -> (r: bool)
        requires
            self.workspace().tables_wf(),
        ensures
            r == self.workspace().has_arity(op@, n as nat),
    {
        self.workspace.is_n_ary(op, n)
    }

    /// Adds a node; where the executable is full, the failure is that of the parser.
    fn add(
        &self,
        builder: &mut StatementBuilder,
        executable: &mut Executable,
        node: Node,
        Ghost(base): Ghost<(Executable, StatementBuilder)>,
    ) -> (r: Result<usize, String>)
        requires
            old(executable).wf(),
            old(builder).pending_in(old(executable)),
            built(&base.0, old(executable), &base.1, old(builder)),
            node_finished(node),
        ensures
            r matches Ok(i) ==> built(&base.0, final(executable), &base.1, final(builder)) && i == old(executable).nodes().len() && final(executable).nodes().len() == i + 1 && i < MAX_NODES && final(executable).statements() == old(executable).statements() && (nodes_finished(old(executable)) ==> nodes_finished(final(executable))),
            r is Err ==> *final(executable) == *old(executable) && final(builder).indices() == old(builder).indices() && final(builder).line() == old(builder).line() && final(builder).offset() == old(builder).offset(),
            match r {
                Ok(i) => old(executable).nodes().len() < MAX_NODES && final(executable).nodes() == old(executable).nodes().push(Rc::new(node)) && final(executable).owners() == old(executable).owners().push(None)
                    && final(builder).nodes() == old(builder).nodes().insert(i) && final(executable).return_line()
                    == old(executable).return_line() && labelled(final(executable)) == labelled(old(executable)) && (
                label_of(node) is None ==> plain(old(builder), final(builder), old(executable), final(executable))),
                Err(e) => old(executable).nodes().len() >= MAX_NODES && e@
                    == crate::parser::statementbuilder::too_large_message(),
            },
    {
        let ghost e1 = *executable;
        let ghost b1 = *builder;
        let r = builder.add_node(executable, node);
        proof {
            if r is Ok {
                let i = r->Ok_0;
                lemma_labels_stay(&e1, executable);
                assert forall|k: int| e1.nodes().len() <= k < executable.owners().len() implies (
                #[trigger] executable.owners()[k]) is Some || builder.nodes().contains(k as usize) by {
                    assert(k == i);
                }
                assert(built(&e1, executable, &b1, builder));
                lemma_built_chain(&base.0, &e1, executable, &base.1, &b1, builder);
            }
        }
        r
    }

    fn parse_atomic_value(
        &self,
        token: &Token,
        builder: &mut StatementBuilder,
        executable: &mut Executable,
        Ghost(base): Ghost<(Executable, StatementBuilder)>,
    ) -> (r: Result<usize, String>)
        requires
            old(executable).wf(),
            old(builder).pending_in(old(executable)),
            built(&base.0, old(executable), &base.1, old(builder)),
        ensures
            forall|p: Place|
                p.n == old(executable).nodes().len() ==> counts(r, final(executable), #[trigger] self.s_atomic(
                    token.model(),
                    p,
                )),
            r is Ok ==> plain(old(builder), final(builder), old(executable), final(executable)),
            r matches Ok(i) ==> i == old(executable).nodes().len() && is_literal(
                *final(executable).nodes()[i as int],
                token.model().kind,
            ),
            r matches Ok(i) ==> built(&base.0, final(executable), &base.1, final(builder)) && i < final(executable).nodes().len() && weight(token.model()) == 1 && old(executable).nodes().len() <= final(executable).nodes().len() && (nodes_finished(old(executable)) ==> nodes_finished(final(executable))),
    {
        match &token.token_type {
            TokenType::Character(c) => self.add(
                builder,
                executable,
                Node::Value(Literal::Char(*c)),
                Ghost(base),
            ),
            TokenType::Real(v) => {
                match v.bits {
                    Some(bits) => {
                        if bits > u32::MAX as u64 {
                            Err(self.error(&token.starting_position, "Number has no value"))
                        } else {
                            self.add(builder, executable, Node::Value(Literal::Real(bits as u32)), Ghost(base))
                        }
                    },
                    None => Err(self.error(&token.starting_position, "Number has no value")),
                }
            },
            TokenType::Double(v) => {
                match v.bits {
                    Some(bits) => self.add(
                        builder,
                        executable,
                        Node::Value(Literal::Double(bits)),
                        Ghost(base),
                    ),
                    None => Err(self.error(&token.starting_position, "Number has no value")),
                }
            },
            TokenType::Integer(v) => self.add(builder, executable, Node::Value(Literal::Int(*v)), Ghost(base)),
            TokenType::String(s) => self.add(
                builder,
                executable,
                Node::Value(Literal::Text(s.clone())),
                Ghost(base),
            ),
            _ => Err(
                self.error_about(
                    &token.starting_position,
                    "Unexpected symbol: ",
                    token.string_value.as_str(),
                    "",
                ),
            ),
        }
    }

    fn parse_nullary_operator(
        &self,
        token: &Token,
        builder: &mut StatementBuilder,
        executable: &mut Executable,
        Ghost(base): Ghost<(Executable, StatementBuilder)>,
    ) -> (r: Result<usize, String>)
        requires
            self.workspace().tables_wf(),
            old(executable).wf(),
            old(builder).pending_in(old(executable)),
            built(&base.0, old(executable), &base.1, old(builder)),
        ensures
            forall|p: Place|
                p.n == old(executable).nodes().len() ==> counts(r, final(executable), #[trigger] self.s_nullary(
                    token.model(),
                    p,
                )),
            r is Ok ==> plain(old(builder), final(builder), old(executable), final(executable)),
            r matches Ok(i) ==> i == old(executable).nodes().len() && is_call(
                *final(executable).nodes()[i as int],
                operator_of(token.model().kind),
                Seq::empty(),
            ),
            r matches Ok(i) ==> built(&base.0, final(executable), &base.1, final(builder)) && i < final(executable).nodes().len() && old(executable).nodes().len() <= final(executable).nodes().len() && (nodes_finished(old(executable)) ==> nodes_finished(final(executable))),
    {
        if let TokenType::Operator(operator_string_value) = &token.token_type {
            if self.is_nullary_operator(operator_string_value.as_str()) {
                self.add(
                    builder,
                    executable,
                    Node::Operation(OperationNode::from_string(operator_string_value, Vec::new())),
                    Ghost(base),
                )
            } else {
                Err(
                    self.error_about(
                        &token.starting_position,
                        "",
                        operator_string_value.as_str(),
                        " is not a nullary operator",
                    ),
                )
            }
        } else {
            Err(self.error(&token.starting_position, "Expected an operator"))
        }
    }

    fn parse_field_reference(
        &self,
        value_index_position: usize,
        scanner: &mut TokenScanner,
        builder: &mut StatementBuilder,
        executable: &mut Executable,
        Ghost(base): Ghost<(Executable, StatementBuilder)>,
    ) -> (r: Result<usize, String>)
        requires
            self.ready_since(base, old(scanner), old(builder), old(executable)),
        ensures
            tells(r, final(scanner), final(executable), self.s_field_reference(old(scanner).tokens(), place_of(old(scanner), old(executable)))),
            Self::done(base, old(scanner), final(scanner), final(builder), old(executable), final(executable), r),
            r is Ok ==> plain(old(builder), final(builder), old(executable), final(executable)),
            r matches Ok(i) ==> i == old(executable).nodes().len() && is_name(
                *final(executable).nodes()[i as int],
                at(old(scanner).tokens(), step(old(scanner).tokens(), place_of(old(scanner), old(executable)))).text,
            ) && *final(executable).nodes()[i + 1] == Node::Index(
                IndexNode { value_position: value_index_position, index_position: i },
            ),
            r is Ok ==> final(scanner).taken() > old(scanner).taken(),
    {
        match scanner.consume_operator(".") {
            Ok(_) => {},
            Err(e) => {
                return Err(e);
            },
        }
        let member_name = match scanner.consume_identifier() {
            Ok(name) => name,
            Err(e) => {
                return Err(e);
            },
        };
        let member_name_index = match self.add(
            builder,
            executable,
            Node::IdentifierByValue(ReferenceNode::from_string(&member_name)),
            Ghost(base),
        ) {
            Ok(i) => i,
            Err(e) => {
                return Err(e);
            },
        };
        match self.add(
            builder,
            executable,
            Node::Index(IndexNode { value_position: value_index_position, index_position: member_name_index }),
            Ghost(base),
        ) {
            Ok(_) => {},
            Err(e) => {
                return Err(e);
            },
        }
        Ok(member_name_index)
    }

    fn parse_expression(
        &self,
        scanner: &mut TokenScanner,
        builder: &mut StatementBuilder,
        executable: &mut Executable,
        Ghost(base): Ghost<(Executable, StatementBuilder)>,
    ) -> (r: Result<usize, String>)
        requires
            self.ready_since(base, old(scanner), old(builder), old(executable)),
        ensures
            tells(r, final(scanner), final(executable), self.s_expression(old(scanner).tokens(), place_of(old(scanner), old(executable)))),
            Self::done(base, old(scanner), final(scanner), final(builder), old(executable), final(executable), r),
            r is Ok ==> plain(old(builder), final(builder), old(executable), final(executable)),
            r matches Ok(i) ==> i == self.r_expression(old(scanner).tokens(), place_of(old(scanner), old(executable))),
            r is Ok ==> final(scanner).taken() > old(scanner).taken(),
        decreases old(scanner).remaining(), 10nat,
    {
        proof {
            scanner.lemma_in_order();
        }
        let token = scanner.next();
        self.parse_diadic_operation(&token, scanner, builder, executable, Ghost(base))
    }

    fn parse_diadic_operation(
        &self,
        token: &Token,
        scanner: &mut TokenScanner,
        builder: &mut StatementBuilder,
        executable: &mut Executable,
        Ghost(base): Ghost<(Executable, StatementBuilder)>,
    ) -> (r: Result<usize, String>)
        requires
            self.ready_since(base, old(scanner), old(builder), old(executable)),
        ensures
            tells(r, final(scanner), final(executable), self.s_diadic(old(scanner).tokens(), token.model(), place_of(old(scanner), old(executable)))),
            Self::done(base, old(scanner), final(scanner), final(builder), old(executable), final(executable), r),
            r is Ok ==> plain(old(builder), final(builder), old(executable), final(executable)),
            r matches Ok(i) ==> i == self.r_value(old(scanner).tokens(), token.model(), place_of(old(scanner), old(executable))),
            r is Ok ==> self.diadic_node(old(scanner).tokens(), token.model(), place_of(old(scanner), old(executable)), final(executable)),
            r is Ok ==> weight(token.model()) == 1,
        decreases old(scanner).remaining() + weight(token.model()), 9nat,
    {
        let left = match self.parse_indexed_value(token, scanner, builder, executable, Ghost(base)) {
            Ok(i) => i,
            Err(e) => {
                return Err(e);
            },
        };
        proof {
            scanner.lemma_in_order();
        }
        if let Ok(operator_name) = scanner.consume_any_operator() {
            if self.is_diadic_operator(operator_name.as_str()) {
                let right = match self.parse_expression(scanner, builder, executable, Ghost(base)) {
                    Ok(i) => i,
                    Err(e) => {
                        return Err(e);
                    },
                };
                let mut arguments: Vec<usize> = Vec::new();
                arguments.push(left);
                arguments.push(right);
                proof {
                    assert(arguments@ =~= seq![left, right]);
                }
                match self.add(
                    builder,
                    executable,
                    Node::Operation(OperationNode::from_string(&operator_name, arguments)),
                    Ghost(base),
                ) {
                    Ok(_) => {},
                    Err(e) => {
                        return Err(e);
                    },
                }
                Ok(left)
            } else {
                let position = scanner.peek().starting_position;
                Err(self.error_about(&position, "", operator_name.as_str(), " is not a binary operator"))
            }
        } else {
            Ok(left)
        }
    }

    fn parse_indexed_value(
        &self,
        token: &Token,
        scanner: &mut TokenScanner,
        builder: &mut StatementBuilder,
        executable: &mut Executable,
        Ghost(base): Ghost<(Executable, StatementBuilder)>,
    ) -> (r: Result<usize, String>)
        requires
            self.ready_since(base, old(scanner), old(builder), old(executable)),
        ensures
            tells(r, final(scanner), final(executable), self.s_indexed(old(scanner).tokens(), token.model(), place_of(old(scanner), old(executable)))),
            Self::done(base, old(scanner), final(scanner), final(builder), old(executable), final(executable), r),
            r is Ok ==> plain(old(builder), final(builder), old(executable), final(executable)),
            r matches Ok(i) ==> i == self.r_value(old(scanner).tokens(), token.model(), place_of(old(scanner), old(executable))),
            r is Ok ==> holds_indexings(final(executable), self.indexed_nodes(old(scanner).tokens(), token.model(), place_of(old(scanner), old(executable)))),
            r is Ok ==> weight(token.model()) == 1,
        decreases old(scanner).remaining() + weight(token.model()), 8nat,
    {
        let mut value_index_position = match self.parse_value(token, scanner, builder, executable, Ghost(base)) {
            Ok(i) => i,
            Err(e) => {
                return Err(e);
            },
        };
        let first_value_index_position = value_index_position;
        let ghost ts = old(scanner).tokens();
        let ghost want = self.s_indexed(ts, token.model(), place_of(old(scanner), old(executable)));
        let ghost all = self.indexed_nodes(ts, token.model(), place_of(old(scanner), old(executable)));
        let ghost mut done: Seq<Indexing> = Seq::empty();
        proof {
            scanner.lemma_in_order();
        }
        loop
            invariant
                all == self.indexed_nodes(ts, token.model(), place_of(old(scanner), old(executable))),
                all == self.suffixes_of(ts, place_of(scanner, executable), value_index_position as int, done),
                holds_indexings(executable, done),
                ts == old(scanner).tokens(),
                want == self.s_suffixes(ts, place_of(scanner, executable)),
                want == self.s_indexed(ts, token.model(), place_of(old(scanner), old(executable))),
                first_value_index_position == self.r_value(
                    ts,
                    token.model(),
                    place_of(old(scanner), old(executable)),
                ),
                self.ready_since(base, scanner, builder, executable),
                advanced(old(scanner), scanner),
                weight(token.model()) == 1,
                old(executable).nodes().len() <= executable.nodes().len(),
                plain(old(builder), builder, old(executable), executable),
                nodes_finished(old(executable)) ==> nodes_finished(executable),
                value_index_position < executable.nodes().len(),
                first_value_index_position < executable.nodes().len(),
                0 <= scanner.taken() <= scanner.tokens().len(),
            decreases scanner.remaining(),
        {
            let ghost earlier = done;
            let ghost here = place_of(scanner, executable);
            let ghost indexed = value_index_position;
            if scanner.peek_operator(".") {
                value_index_position =
                match self.parse_field_reference(
                    value_index_position,
                    scanner,
                    builder,
                    executable,
                    Ghost(base),
                ) {
                    Ok(i) => i,
                    Err(e) => {
                        return Err(e);
                    },
                };
                proof {
                    done = earlier.push(Indexing { node: here.n + 1, value: indexed as int, index: here.n });
                    assert forall|j: int| 0 <= j < done.len() implies 0 <= (#[trigger] done[j]).node
                        < executable.nodes().len() && *executable.nodes()[done[j].node] == Node::Index(
                        IndexNode { value_position: done[j].value as usize, index_position: done[j].index as usize },
                    ) by {
                        if j < earlier.len() {
                            assert(done[j] == earlier[j]);
                        }
                    }
                }
            } else if scanner.peek_punctuation("[") {
                value_index_position =
                match self.parse_index(value_index_position, scanner, builder, executable, Ghost(base)) {
                    Ok(i) => i,
                    Err(e) => {
                        return Err(e);
                    },
                };
                proof {
                    let none = Seq::<Indexing>::empty();
                    let new = self.indexings_of(ts, here, indexed as int, none);
                    self.lemma_indexings_of(ts, here, indexed as int, earlier);
                    done = earlier + new;
                    assert forall|j: int| 0 <= j < done.len() implies 0 <= (#[trigger] done[j]).node
                        < executable.nodes().len() && *executable.nodes()[done[j].node] == Node::Index(
                        IndexNode { value_position: done[j].value as usize, index_position: done[j].index as usize },
                    ) by {
                        if j < earlier.len() {
                            assert(done[j] == earlier[j]);
                        } else {
                            assert(done[j] == new[j - earlier.len()]);
                        }
                    }
                }
            } else {
                return Ok(first_value_index_position);
            }
            proof {
                scanner.lemma_in_order();
            }
        }
    }

    /// Parses indexings: brackets with one index or more. More indices
    /// in one pair of brackets index what the index before them gave.
    fn parse_index(
        &self,
        value_index_position: usize,
        scanner: &mut TokenScanner,
        builder: &mut StatementBuilder,
        executable: &mut Executable,
        Ghost(base): Ghost<(Executable, StatementBuilder)>,
    ) -> (r: Result<usize, String>)
        requires
            self.ready_since(base, old(scanner), old(builder), old(executable)),
            value_index_position < old(executable).nodes().len(),
            TokenScanner::is_punctuation(old(scanner).upcoming(), "["@),
        ensures
            tells(r, final(scanner), final(executable), self.s_brackets(old(scanner).tokens(), place_of(old(scanner), old(executable)))),
            Self::done(base, old(scanner), final(scanner), final(builder), old(executable), final(executable), r),
            r is Ok ==> plain(old(builder), final(builder), old(executable), final(executable)),
            r matches Ok(i) ==> i == value_index_position,
            r is Ok ==> holds_indexings(
                final(executable),
                self.indexings_of(
                    old(scanner).tokens(),
                    place_of(old(scanner), old(executable)),
                    value_index_position as int,
                    Seq::empty(),
                ),
            ),
            r is Ok ==> final(scanner).taken() > old(scanner).taken(),
        decreases old(scanner).remaining(), 11nat,
    {
        let mut value_position = value_index_position;
        let mut first = true;
        let ghost ts = old(scanner).tokens();
        let ghost want = self.s_brackets(ts, place_of(old(scanner), old(executable)));
        let ghost all = self.indexings_of(
            ts,
            place_of(old(scanner), old(executable)),
            value_index_position as int,
            Seq::empty(),
        );
        let ghost mut done: Seq<Indexing> = Seq::empty();
        proof {
            scanner.lemma_in_order();
        }
        loop
            invariant_except_break
                first ==> scanner.taken() == old(scanner).taken() && TokenScanner::is_punctuation(
                    scanner.upcoming(),
                    "["@,
                ),
                want == self.s_brackets(ts, place_of(scanner, executable)),
                all == self.indexings_of(ts, place_of(scanner, executable), value_position as int, done),
            invariant
                holds_indexings(executable, done),
                ts == old(scanner).tokens(),
                want == self.s_brackets(ts, place_of(old(scanner), old(executable))),
                self.ready_since(base, scanner, builder, executable),
                advanced(old(scanner), scanner),
                old(executable).nodes().len() <= executable.nodes().len(),
                plain(old(builder), builder, old(executable), executable),
                nodes_finished(old(executable)) ==> nodes_finished(executable),
                value_position < executable.nodes().len(),
                0 <= scanner.taken() <= scanner.tokens().len(),
                !first ==> scanner.taken() > old(scanner).taken(),
            ensures
                !first,
                want == Ok::<Place, Seq<char>>(place_of(scanner, executable)),
                all == done,
            decreases scanner.remaining(),
        {
            if !scanner.consume_punctuation("[").is_ok() {
                break ;
            }
            first = false;
            let ghost start_remaining = scanner.remaining();
            proof {
                scanner.lemma_in_order();
            }
            loop
                invariant_except_break
                    want == self.s_indices(ts, place_of(scanner, executable)),
                    all == self.indexings_from(ts, place_of(scanner, executable), value_position as int, done),
                invariant
                    holds_indexings(executable, done),
                    ts == old(scanner).tokens(),
                    want == self.s_brackets(ts, place_of(old(scanner), old(executable))),
                    self.ready_since(base, scanner, builder, executable),
                    advanced(old(scanner), scanner),
                    old(executable).nodes().len() <= executable.nodes().len(),
                    plain(old(builder), builder, old(executable), executable),
                    nodes_finished(old(executable)) ==> nodes_finished(executable),
                    value_position < executable.nodes().len(),
                    0 <= scanner.taken() <= scanner.tokens().len(),
                    scanner.taken() > old(scanner).taken(),
                    scanner.remaining() <= start_remaining,
                    !first,
                ensures
                    want == if TokenScanner::is_punctuation(at(ts, place_of(scanner, executable)), "]"@) {
                        self.s_brackets(ts, step(ts, place_of(scanner, executable)))
                    } else {
                        Err::<Place, Seq<char>>("punctuation not found"@)
                    },
                    TokenScanner::is_punctuation(at(ts, place_of(scanner, executable)), "]"@) ==> all
                        == self.indexings_of(ts, step(ts, place_of(scanner, executable)), value_position as int, done),
                decreases scanner.remaining(),
            {
                let ghost earlier = done;
                let ghost indexed = value_position;
                let index_position = match self.parse_expression(scanner, builder, executable, Ghost(base)) {
                    Ok(i) => i,
                    Err(e) => {
                        return Err(e);
                    },
                };
                let ghost e1 = *executable;
                value_position =
                match self.add(
                    builder,
                    executable,
                    Node::Index(IndexNode { value_position: value_position, index_position: index_position }),
                    Ghost(base),
                ) {
                    Ok(i) => i,
                    Err(e) => {
                        return Err(e);
                    },
                };
                proof {
                    scanner.lemma_in_order();
                    done = earlier.push(
                        Indexing { node: e1.nodes().len() as int, value: indexed as int, index: index_position as int },
                    );
                    assert forall|j: int| 0 <= j < done.len() implies 0 <= (#[trigger] done[j]).node
                        < executable.nodes().len() && *executable.nodes()[done[j].node] == Node::Index(
                        IndexNode { value_position: done[j].value as usize, index_position: done[j].index as usize },
                    ) by {
                        if j < earlier.len() {
                            assert(done[j] == earlier[j]);
                        }
                    }
                }
                if !scanner.consume_punctuation(",").is_ok() {
                    break ;
                }
                proof {
                    scanner.lemma_in_order();
                }
            }
            match scanner.consume_punctuation("]") {
                Ok(_) => {},
                Err(e) => {
                    return Err(e);
                },
            }
            proof {
                scanner.lemma_in_order();
            }
        }
        Ok(value_index_position)
    }

    fn parse_value(
        &self,
        token: &Token,
        scanner: &mut TokenScanner,
        builder: &mut StatementBuilder,
        executable: &mut Executable,
        Ghost(base): Ghost<(Executable, StatementBuilder)>,
    ) -> (r: Result<usize, String>)
        requires
            self.ready_since(base, old(scanner), old(builder), old(executable)),
        ensures
            tells(r, final(scanner), final(executable), self.s_value(old(scanner).tokens(), token.model(), place_of(old(scanner), old(executable)))),
            Self::done(base, old(scanner), final(scanner), final(builder), old(executable), final(executable), r),
            r is Ok ==> plain(old(builder), final(builder), old(executable), final(executable)),
            r matches Ok(i) ==> i == self.r_value(old(scanner).tokens(), token.model(), place_of(old(scanner), old(executable))),
            r is Ok ==> weight(token.model()) == 1,
        decreases old(scanner).remaining() + weight(token.model()), 7nat,
    {
        match &token.token_type {
            TokenType::Identifier(_) => self.parse_identifier(token, scanner, builder, executable, Ghost(base)),
            TokenType::Operator(op) => {
                if string_is(op, "$") {
                    if scanner.peek_identifier() {
                        return self.parse_identifier(token, scanner, builder, executable, Ghost(base));
                    }
                }
                self.parse_monadic_operator(token, scanner, builder, executable, Ghost(base))
            },
            TokenType::Punctuation(p) => {
                if string_is(p, "(") {
                    self.parse_parenthetical_expression(scanner, builder, executable, Ghost(base))
                } else if string_is(p, "[") {
                    self.parse_tuple_expression(scanner, builder, executable, Ghost(base))
                } else {
                    Err(self.error_about(&token.starting_position, "Syntax error near ", p.as_str(), ""))
                }
            },
            _ => self.parse_atomic_value(token, builder, executable, Ghost(base)),
        }
    }

    fn parse_identifier(
        &self,
        token: &Token,
        scanner: &mut TokenScanner,
        builder: &mut StatementBuilder,
        executable: &mut Executable,
        Ghost(base): Ghost<(Executable, StatementBuilder)>,
    ) -> (r: Result<usize, String>)
        requires
            self.ready_since(base, old(scanner), old(builder), old(executable)),
            weight(token.model()) == 1,
        ensures
            tells(r, final(scanner), final(executable), self.s_identifier(old(scanner).tokens(), token.model(), place_of(old(scanner), old(executable)))),
            Self::done(base, old(scanner), final(scanner), final(builder), old(executable), final(executable), r),
            r is Ok ==> plain(old(builder), final(builder), old(executable), final(executable)),
            r matches Ok(i) ==> i == self.r_identifier(old(scanner).tokens(), token.model(), place_of(old(scanner), old(executable))),
            r matches Ok(i) ==> self.identifier_node(old(scanner).tokens(), token.model(), place_of(old(scanner), old(executable)), final(executable), i as int),
        decreases old(scanner).remaining() + weight(token.model()), 6nat,
    {
        if let TokenType::Operator(op) = &token.token_type {
            if string_is(op, "$") {
                let identifier_name = match scanner.consume_identifier() {
                    Ok(name) => name,
                    Err(e) => {
                        return Err(e);
                    },
                };
                return self.add(
                    builder,
                    executable,
                    Node::IdentifierByReference(ReferenceNode::from_string(&identifier_name)),
                    Ghost(base),
                );
            }
        }
        let identifier_name = token.string_value.clone();
        proof {
            scanner.lemma_in_order();
        }
        if scanner.consume_punctuation("(").is_ok() {
            return self.parse_function_call(&identifier_name, scanner, builder, executable, Ghost(base));
        }
        self.add(
            builder,
            executable,
            Node::IdentifierByValue(ReferenceNode::from_string(&token.string_value)),
            Ghost(base),
        )
    }

    /// Parses the arguments of a call, behind the opening parenthesis.
    fn parse_function_call(
        &self,
        identifier_name: &String,
        scanner: &mut TokenScanner,
        builder: &mut StatementBuilder,
        executable: &mut Executable,
        Ghost(base): Ghost<(Executable, StatementBuilder)>,
    ) -> (r: Result<usize, String>)
        requires
            self.ready_since(base, old(scanner), old(builder), old(executable)),
        ensures
            tells(r, final(scanner), final(executable), self.s_call(old(scanner).tokens(), place_of(old(scanner), old(executable)))),
            Self::done(base, old(scanner), final(scanner), final(builder), old(executable), final(executable), r),
            r is Ok ==> plain(old(builder), final(builder), old(executable), final(executable)),
            r matches Ok(i) ==> i == self.r_listed(old(scanner).tokens(), place_of(old(scanner), old(executable)), ")"@),
            r is Ok ==> final(executable).nodes().len() > 0 && is_call(
                *final(executable).nodes().last(),
                identifier_name@,
                self.r_list(old(scanner).tokens(), place_of(old(scanner), old(executable)), ")"@),
            ),
        decreases old(scanner).remaining(), 12nat,
    {
        let mut argument_list: Vec<usize> = Vec::new();
        let token = scanner.peek();
        if let TokenType::Punctuation(p) = &token.token_type {
            if string_is(p, ")") {
                scanner.next();
                return self.add(
                    builder,
                    executable,
                    Node::Operation(OperationNode::from_string(identifier_name, argument_list)),
                    Ghost(base),
                );
            }
        }
        let ghost ts = old(scanner).tokens();
        let ghost want = self.s_call(ts, place_of(old(scanner), old(executable)));
        proof {
            scanner.lemma_in_order();
        }
        loop
            invariant
                ts == old(scanner).tokens(),
                want == self.s_arguments(ts, place_of(scanner, executable)),
                want == self.s_call(ts, place_of(old(scanner), old(executable))),
                !TokenScanner::is_punctuation(at(ts, place_of(old(scanner), old(executable))), ")"@),
                self.r_list(ts, place_of(old(scanner), old(executable)), ")"@) == self.r_all(
                    ts,
                    place_of(scanner, executable),
                    argument_list@,
                ),
                argument_list@.len() == 0 ==> place_of(scanner, executable) == place_of(old(scanner), old(executable)),
                argument_list@.len() > 0 ==> argument_list@[0] == self.r_expression(
                    ts,
                    place_of(old(scanner), old(executable)),
                ),
                self.ready_since(base, scanner, builder, executable),
                advanced(old(scanner), scanner),
                0 <= scanner.taken() <= scanner.tokens().len(),
                old(executable).nodes().len() <= executable.nodes().len(),
                plain(old(builder), builder, old(executable), executable),
                nodes_finished(old(executable)) ==> nodes_finished(executable),
                positions_in(argument_list@, executable),
            decreases scanner.remaining(),
        {
            let ghost here = place_of(scanner, executable);
            let argument = match self.parse_expression(scanner, builder, executable, Ghost(base)) {
                Ok(i) => i,
                Err(e) => {
                    return Err(e);
                },
            };
            let ghost earlier = argument_list@;
            argument_list.push(argument);
            proof {
                scanner.lemma_in_order();
                assert(argument_list@ == earlier.push(self.r_expression(ts, here) as usize));
                assert forall|i: int| 0 <= i < argument_list@.len() implies (#[trigger] argument_list@[i])
                    < executable.nodes().len() by {
                    if i < earlier.len() {
                        assert(argument_list@[i] == earlier[i]);
                    }
                }
            }
            let token = scanner.peek();
            match &token.token_type {
                TokenType::Punctuation(p) => {
                    if string_is(p, ")") {
                        proof {
                            reveal_strlit(")");
                            reveal_strlit(",");
                            assert(!TokenScanner::is_punctuation(at(ts, place_of(scanner, executable)), ","@)) by {
                                assert(")"@.len() == 1 && ","@.len() == 1 && ")"@[0] != ","@[0]);
                            }
                            assert(self.r_all(ts, here, earlier) == argument_list@);
                        }
                        scanner.next();
                        let first_argument_index = argument_list[0];
                        match self.add(
                            builder,
                            executable,
                            Node::Operation(OperationNode::from_string(identifier_name, argument_list)),
                            Ghost(base),
                        ) {
                            Ok(_) => {},
                            Err(e) => {
                                return Err(e);
                            },
                        }
                        return Ok(first_argument_index);
                    } else if string_is(p, ",") {
                        scanner.next();
                    } else {
                        return Err(self.error(&token.starting_position, "invalid function argument"));
                    }
                },
                TokenType::EOL => {
                    return Err(self.error(&token.starting_position, "missing close paren on function call"));
                },
                _ => {
                    return Err(self.error(&token.starting_position, "invalid function argument"));
                },
            }
            proof {
                scanner.lemma_in_order();
            }
        }
    }

    fn parse_monadic_operator(
        &self,
        token: &Token,
        scanner: &mut TokenScanner,
        builder: &mut StatementBuilder,
        executable: &mut Executable,
        Ghost(base): Ghost<(Executable, StatementBuilder)>,
    ) -> (r: Result<usize, String>)
        requires
            self.ready_since(base, old(scanner), old(builder), old(executable)),
            weight(token.model()) == 1,
        ensures
            tells(r, final(scanner), final(executable), self.s_monadic(old(scanner).tokens(), token.model(), place_of(old(scanner), old(executable)))),
            Self::done(base, old(scanner), final(scanner), final(builder), old(executable), final(executable), r),
            r is Ok ==> plain(old(builder), final(builder), old(executable), final(executable)),
            r matches Ok(i) ==> i == self.r_monadic(old(scanner).tokens(), token.model(), place_of(old(scanner), old(executable))),
            r matches Ok(i) ==> i == final(executable).nodes().len() - 1 && self.monadic_node(
                old(scanner).tokens(),
                token.model(),
                place_of(old(scanner), old(executable)),
                *final(executable).nodes()[i as int],
            ),
        decreases old(scanner).remaining() + weight(token.model()), 6nat,
    {
        if self.is_monadic_operator(token.string_value.as_str()) {
            let argument_index = match self.parse_expression(scanner, builder, executable, Ghost(base)) {
                Ok(i) => i,
                Err(e) => {
                    return Err(e);
                },
            };
            let mut arguments: Vec<usize> = Vec::new();
            arguments.push(argument_index);
            return self.add(
                builder,
                executable,
                Node::Operation(OperationNode::from_string(&token.string_value, arguments)),
                Ghost(base),
            );
        }
        self.parse_nullary_operator(token, builder, executable, Ghost(base))
    }

    /// Parses an expression in parentheses, behind the opening parenthesis.
    fn parse_parenthetical_expression(
        &self,
        scanner: &mut TokenScanner,
        builder: &mut StatementBuilder,
        executable: &mut Executable,
        Ghost(base): Ghost<(Executable, StatementBuilder)>,
    ) -> (r: Result<usize, String>)
        requires
            self.ready_since(base, old(scanner), old(builder), old(executable)),
        ensures
            tells(r, final(scanner), final(executable), self.s_parenthetical(old(scanner).tokens(), place_of(old(scanner), old(executable)))),
            Self::done(base, old(scanner), final(scanner), final(builder), old(executable), final(executable), r),
            r is Ok ==> plain(old(builder), final(builder), old(executable), final(executable)),
            r matches Ok(i) ==> i == self.r_expression(old(scanner).tokens(), place_of(old(scanner), old(executable))),
        decreases old(scanner).remaining(), 11nat,
    {
        let root_index = match self.parse_expression(scanner, builder, executable, Ghost(base)) {
            Ok(i) => i,
            Err(e) => {
                return Err(e);
            },
        };
        if scanner.consume_punctuation(")").is_err() {
            let position = scanner.peek().starting_position;
            return Err(self.error(&position, "missing close paren"));
        }
        Ok(root_index)
    }

    /// Parses a tuple, behind its opening bracket.
    fn parse_tuple_expression(
        &self,
        scanner: &mut TokenScanner,
        builder: &mut StatementBuilder,
        executable: &mut Executable,
        Ghost(base): Ghost<(Executable, StatementBuilder)>,
    ) -> (r: Result<usize, String>)
        requires
            self.ready_since(base, old(scanner), old(builder), old(executable)),
        ensures
            tells(r, final(scanner), final(executable), self.s_tuple(old(scanner).tokens(), place_of(old(scanner), old(executable)))),
            Self::done(base, old(scanner), final(scanner), final(builder), old(executable), final(executable), r),
            r is Ok ==> plain(old(builder), final(builder), old(executable), final(executable)),
            r matches Ok(i) ==> i == self.r_listed(old(scanner).tokens(), place_of(old(scanner), old(executable)), "]"@),
            r is Ok ==> final(executable).nodes().len() > 0 && is_call(
                *final(executable).nodes().last(),
                "tuple"@,
                self.r_list(old(scanner).tokens(), place_of(old(scanner), old(executable)), "]"@),
            ),
        decreases old(scanner).remaining(), 11nat,
    {
        let mut members: Vec<usize> = Vec::new();
        let ghost ts = old(scanner).tokens();
        let ghost want = self.s_tuple(ts, place_of(old(scanner), old(executable)));
        proof {
            scanner.lemma_in_order();
        }
        if scanner.consume_punctuation("]").is_err() {
            loop
                invariant_except_break
                    want == self.s_members(ts, place_of(scanner, executable)),
                    self.r_list(ts, place_of(old(scanner), old(executable)), "]"@) == self.r_all(
                        ts,
                        place_of(scanner, executable),
                        members@,
                    ),
                invariant
                    !TokenScanner::is_punctuation(at(ts, place_of(old(scanner), old(executable))), "]"@),
                    members@.len() == 0 ==> place_of(scanner, executable) == place_of(old(scanner), old(executable)),
                    members@.len() > 0 ==> members@[0] == self.r_expression(
                        ts,
                        place_of(old(scanner), old(executable)),
                    ),
                    ts == old(scanner).tokens(),
                    want == self.s_tuple(ts, place_of(old(scanner), old(executable))),
                    self.ready_since(base, scanner, builder, executable),
                    advanced(old(scanner), scanner),
                    0 <= scanner.taken() <= scanner.tokens().len(),
                    old(executable).nodes().len() <= executable.nodes().len(),
                    plain(old(builder), builder, old(executable), executable),
                    nodes_finished(old(executable)) ==> nodes_finished(executable),
                    positions_in(members@, executable),
                ensures
                    want == added(place_of(scanner, executable)),
                    members@.len() > 0,
                    self.r_list(ts, place_of(old(scanner), old(executable)), "]"@) == members@,
                decreases scanner.remaining(),
            {
                let member = match self.parse_expression(scanner, builder, executable, Ghost(base)) {
                    Ok(i) => i,
                    Err(e) => {
                        return Err(e);
                    },
                };
                let ghost earlier = members@;
                members.push(member);
                proof {
                    scanner.lemma_in_order();
                    assert forall|i: int| 0 <= i < members@.len() implies (#[trigger] members@[i])
                        < executable.nodes().len() by {
                        if i < earlier.len() {
                            assert(members@[i] == earlier[i]);
                        }
                    }
                }
                if scanner.consume_punctuation(",").is_err() {
                    if scanner.consume_punctuation("]").is_ok() {
                        break ;
                    } else {
                        let position = scanner.peek().starting_position;
                        return Err(self.error(&position, "missing closing bracket"));
                    }
                }
                proof {
                    scanner.lemma_in_order();
                }
            }
        }
        if members.len() > 0 {
            let first_member_index = members[0];
            match self.add(
                builder,
                executable,
                Node::Operation(OperationNode::from_str("tuple", members)),
                Ghost(base),
            ) {
                Ok(_) => {},
                Err(e) => {
                    return Err(e);
                },
            }
            Ok(first_member_index)
        } else {
            self.add(builder, executable, Node::Operation(OperationNode::from_str("tuple", members)), Ghost(base))
        }
    }

    /// What parsing a statement, or statements, owes where it succeeds:
    /// the cursor has moved on or stayed, the executable has grown by
    /// whole statements, and a node that is handed back is a node of it.
    pub open spec fn done_whole(
        old_scanner: &TokenScanner,
        scanner: &TokenScanner,
        old_executable: &Executable,
        executable: &Executable,
        r: Result<Option<usize>, String>,
    ) -> bool {
        r matches Ok(o) ==> advanced(old_scanner, scanner) && grown(old_executable, executable) && settled(
            executable,
            old_executable.nodes().len() as int,
            Set::<usize>::empty(),
        ) && (o matches Some(i) ==> i < executable.nodes().len()) && (scanner.taken() > old_scanner.taken()
            || scanner.at_end()) && (nodes_finished(old_executable) ==> nodes_finished(executable))
    }

    /// What parsing a part of a statement that may come to nothing owes
    /// where it succeeds. Where it comes to nothing, the statement has
    /// the nodes it had.
    pub open spec fn done_maybe(
        base: (Executable, StatementBuilder),
        old_scanner: &TokenScanner,
        scanner: &TokenScanner,
        old_builder: &StatementBuilder,
        builder: &StatementBuilder,
        old_executable: &Executable,
        executable: &Executable,
        r: Result<Option<usize>, String>,
    ) -> bool {
        r matches Ok(o) ==> advanced(old_scanner, scanner) && built(
            &base.0,
            executable,
            &base.1,
            builder,
        ) && old_executable.nodes().len() <= executable.nodes().len() && (match o {
            Some(i) => i < executable.nodes().len(),
            None => builder.nodes() == old_builder.nodes(),
        }) && (scanner.taken() > old_scanner.taken() || scanner.at_end()) && (nodes_finished(
            old_executable,
        ) ==> nodes_finished(executable))
    }

    /// What parsing statements asks for.
    pub open spec fn ready_whole(&self, scanner: &TokenScanner, executable: &Executable) -> bool {
        &&& self.workspace().tables_wf()
        &&& scanner.wf()
        &&& scanner.saved() is None
        &&& executable.wf()
    }

    /// Parses a statement inside another: the statement that is being
    /// parsed stays as it is.
    fn parse_inner_statement(
        &self,
        scanner: &mut TokenScanner,
        builder: &StatementBuilder,
        executable: &mut Executable,
        bias: u32,
        Ghost(base): Ghost<(Executable, StatementBuilder)>,
    ) -> (r: Result<Option<usize>, String>)
        requires
            self.ready_since(base, old(scanner), builder, old(executable)),
        ensures
            Self::done_maybe(
                base,
                old(scanner),
                final(scanner),
                builder,
                builder,
                old(executable),
                final(executable),
                r,
            ),
            r is Ok ==> self.ready_since(base, final(scanner), builder, final(executable)),
            inwardly(
                r,
                final(scanner),
                final(executable),
                self.s_statement(old(scanner).tokens(), whole_of(old(scanner), old(executable)), bias),
            ),
            r is Ok ==> nodes_stay(old(executable), final(executable)),
        decreases old(scanner).remaining(), 31nat,
    {
        let ghost e1 = *executable;
        let r = self.parse_statement(scanner, executable, bias);
        proof {
            if r is Ok {
                lemma_built_around(&e1, executable, builder);
                lemma_built_chain(&base.0, &e1, executable, &base.1, builder, builder);
            }
        }
        r
    }

    #[verifier::rlimit(60)]
    fn parse_statement(&self, scanner: &mut TokenScanner, executable: &mut Executable, bias: u32) -> (r:
        Result<Option<usize>, String>)
        requires
            self.ready_whole(old(scanner), old(executable)),
        ensures
            Self::done_whole(old(scanner), final(scanner), old(executable), final(executable), r),
            inwardly(
                r,
                final(scanner),
                final(executable),
                self.s_statement(old(scanner).tokens(), whole_of(old(scanner), old(executable)), bias),
            ),
            r is Ok ==> nodes_stay(old(executable), final(executable)),
            r matches Ok(Some(root)) ==> *final(executable).nodes().last() == Node::StatementEnd(root)
                && final(executable).statements().last().nodes().contains(
                (final(executable).nodes().len() - 1) as usize,
            ) && forall|x: usize| #[trigger]
                final(executable).statements().last().nodes().contains(x) ==> old(executable).nodes().len() <= x,
        decreases old(scanner).remaining(), 30nat,
    {
        let ghost ts = scanner.tokens();
        let ghost w0 = whole_of(scanner, executable);
        let statement_starting_position = scanner.peek().starting_position;
        if statement_starting_position.line_number < bias {
            return Err(self.error(&statement_starting_position, "Tokens are out of order"));
        }
        let mut builder = StatementBuilder::begin_statement(
            statement_starting_position.line_number - bias,
            statement_starting_position.n,
        );
        let ghost base = (*executable, builder);
        proof {
            assert(built(&base.0, executable, &base.1, &builder));
        }
        let line = builder.as_starting_line_number();
        let ghost inner = self.s_internal(ts, w0, line, bias);
        match self.parse_statement_internal(line, scanner, &mut builder, executable, bias, Ghost(base)) {
            Err(e) => Err(e),
            Ok(None) => {
                proof {
                    assert forall|k: int| base.0.nodes().len() <= k < executable.owners().len() implies (
                    #[trigger] executable.owners()[k]) is Some || Set::<usize>::empty().contains(
                        k as usize,
                    ) by {
                        assert(executable.owners()[k] is Some || builder.nodes().contains(k as usize));
                    }
                }
                Ok(None)
            },
            Ok(Some(statement_root_index)) => {
                let ghost ea = *executable;
                let ghost ba = builder;
                match self.add(&mut builder, executable, Node::StatementEnd(statement_root_index), Ghost(base)) {
                    Ok(_) => {},
                    Err(e) => {
                        return Err(e);
                    },
                }
                proof {
                    assert(builder.nodes().contains(ea.nodes().len() as usize));
                    assert(executable.text() == ea.text());
                }
                let statement_ending_position = scanner.peek().starting_position;
                if statement_ending_position.n < statement_starting_position.n
                    || statement_ending_position.n > executable.as_source().len() || builder.is_empty() {
                    return Err(self.error(&statement_ending_position, "Tokens are out of order"));
                }
                let ghost e1 = *executable;
                builder.finish_statement(executable, statement_ending_position.n);
                proof {
                    assert forall|k: int| 0 <= k < base.0.owners().len() implies #[trigger] executable.owners()[k]
                        == base.0.owners()[k] by {
                        assert(e1.owners()[k] == base.0.owners()[k]);
                        if builder.nodes().contains(k as usize) {
                            assert(base.1.nodes().contains(k as usize));
                        }
                    }
                    assert forall|k: int| base.0.nodes().len() <= k < executable.owners().len() implies (
                    #[trigger] executable.owners()[k]) is Some || Set::<usize>::empty().contains(
                        k as usize,
                    ) by {
                        assert(e1.owners()[k] is Some || builder.nodes().contains(k as usize));
                    }
                    let label = inner->Ok_0.label;
                    let n0 = base.0.nodes().len() as usize;
                    assert forall|x: usize| builder.nodes().contains(x) implies n0 <= x < e1.nodes().len()
                        && node_label(&e1, x as int) == if x == n0 {
                        label
                    } else {
                        None
                    } by {
                        if ba.nodes().contains(x) {
                            assert(node_label(&ea, x as int) == if x == n0 {
                                label
                            } else {
                                None
                            });
                        } else {
                            assert(x == ea.nodes().len());
                        }
                    }
                    if label is Some {
                        assert(ba.nodes().contains(n0));
                    }
                    lemma_finished(&e1, executable, builder.nodes(), n0, label, line);
                }
                Ok(Some(statement_root_index))
            },
        }
    }

    #[verifier::rlimit(60)]
    fn parse_statement_internal(
        &self,
        normalized_line_number: LineNumber,
        scanner: &mut TokenScanner,
        builder: &mut StatementBuilder,
        executable: &mut Executable,
        bias: u32,
        Ghost(base): Ghost<(Executable, StatementBuilder)>,
    ) -> (r: Result<Option<usize>, String>)
        requires
            self.ready_since(base, old(scanner), old(builder), old(executable)),
        ensures
            Self::done_maybe(
                base,
                old(scanner),
                final(scanner),
                old(builder),
                final(builder),
                old(executable),
                final(executable),
                r,
            ),
            inwardly(
                r,
                final(scanner),
                final(executable),
                self.s_internal(
                    old(scanner).tokens(),
                    whole_of(old(scanner), old(executable)),
                    normalized_line_number,
                    bias,
                ),
            ),
            r is Ok ==> nodes_stay(old(executable), final(executable)),
            r matches Ok(Some(_)) ==> self.dollar_nodes(
                old(scanner).tokens(),
                place_of(old(scanner), old(executable)),
                final(executable),
                old(executable).nodes().len() as int,
            ),
            r is Ok ==> pending(
                old(builder),
                final(builder),
                old(executable),
                final(executable),
                label_in(
                    self.s_internal(
                        old(scanner).tokens(),
                        whole_of(old(scanner), old(executable)),
                        normalized_line_number,
                        bias,
                    ),
                ),
            ),
        decreases old(scanner).remaining(), 29nat,
    {
        let ghost ts = scanner.tokens();
        let ghost w0 = whole_of(scanner, executable);
        proof {
            scanner.lemma_in_order();
        }
        if scanner.consume_newline().is_ok() || scanner.is_eos() {
            Ok(None)
        } else if scanner.consume_operator("$").is_ok() {
            proof {
                scanner.lemma_in_order();
            }
            if scanner.consume_newline().is_ok() || scanner.is_eos() {
                if !scanner.is_eos() {
                    let position = scanner.get_position();
                    return Err(self.error(&position, "expected end-of-string"));
                }
                let return_node_index = match self.add(builder, executable, Node::FunctionReturn, Ghost(base)) {
                    Ok(i) => i,
                    Err(e) => {
                        return Err(e);
                    },
                };
                let ghost e1 = *executable;
                executable.set_function_return_line_number(normalized_line_number);
                proof {
                    lemma_labels_stay(&e1, executable);
                }
                return Ok(Some(return_node_index));
            } else {
                let result = match self.parse_definition(scanner, builder, executable, bias, Ghost(base)) {
                    Ok(i) => i,
                    Err(e) => {
                        return Err(e);
                    },
                };
                if scanner.consume_newline().is_err() && !scanner.is_eos() {
                    let position = scanner.peek().starting_position;
                    return Err(self.error(&position, "expected newline"));
                }
                return Ok(Some(result));
            }
        } else if scanner.consume_punctuation("{").is_ok() {
            return self.parse_statement_block(scanner, builder, executable, bias, Ghost(base));
        } else if scanner.consume_keyword("if").is_ok() {
            match self.parse_if(scanner, builder, executable, bias, Ghost(base)) {
                Ok(i) => {
                    return Ok(Some(i));
                },
                Err(e) => {
                    return Err(e);
                },
            }
        } else if scanner.consume_keyword("while").is_ok() {
            match self.parse_while(scanner, builder, executable, bias, Ghost(base)) {
                Ok(i) => {
                    return Ok(Some(i));
                },
                Err(e) => {
                    return Err(e);
                },
            }
        } else {
            let label_index_result = self.parse_statement_label(scanner, builder, executable, Ghost(base));
            let ghost e1 = *executable;
            let ghost b1 = *builder;
            let ghost lab: Option<Seq<char>> = if label_index_result is Some {
                Some(at(ts, w0.place).text)
            } else {
                None
            };
            let expression_index = match self.parse_expression(scanner, builder, executable, Ghost(base)) {
                Ok(i) => i,
                Err(e) => {
                    return Err(e);
                },
            };
            if scanner.consume_newline().is_err() && !scanner.is_eos() {
                let position = scanner.peek().starting_position;
                return Err(self.error(&position, "expected newline"));
            }
            proof {
                let n0 = old(executable).nodes().len() as usize;
                assert(label_in(self.s_internal(ts, w0, normalized_line_number, bias)) == lab);
                assert forall|x: usize| #[trigger] builder.nodes().contains(x) implies old(builder).nodes().contains(x)
                    || (n0 <= x < executable.nodes().len() && node_label(executable, x as int) == if x == n0 {
                    lab
                } else {
                    None
                }) by {
                    if !old(builder).nodes().contains(x) {
                        if b1.nodes().contains(x) {
                            assert(x == n0);
                            assert(node_label(&e1, x as int) == lab);
                        } else {
                            assert(e1.nodes().len() <= x);
                        }
                    }
                }
                if lab is Some {
                    assert(b1.nodes().contains(n0));
                    assert(builder.nodes().contains(n0));
                }
                assert(pending(old(builder), builder, old(executable), executable, lab));
            }
            if let Some(label_index) = label_index_result {
                Ok(Some(label_index))
            } else {
                Ok(Some(expression_index))
            }
        }
    }

    /// Parses the label that may start a statement. Where there is none,
    /// nothing is taken and nothing is added.
    fn parse_statement_label(
        &self,
        scanner: &mut TokenScanner,
        builder: &mut StatementBuilder,
        executable: &mut Executable,
        Ghost(base): Ghost<(Executable, StatementBuilder)>,
    ) -> (r: Option<usize>)
        requires
            self.ready_since(base, old(scanner), old(builder), old(executable)),
        ensures
            place_of(final(scanner), final(executable)) == self.s_label(
                old(scanner).tokens(),
                place_of(old(scanner), old(executable)),
            ),
            match r {
                Some(i) => i == old(executable).nodes().len() && final(executable).nodes().len() == i + 1
                    && final(builder).nodes() == old(builder).nodes().insert(i) && is_label(
                    *final(executable).nodes()[i as int],
                    old(scanner).upcoming().text,
                ),
                None => final(executable).nodes() == old(executable).nodes() && final(builder).nodes() == old(builder).nodes(),
            },
            labelled(final(executable)) == labelled(old(executable)),
            final(executable).return_line() == old(executable).return_line(),
            nodes_stay(old(executable), final(executable)),
            self.ready_since(base, final(scanner), final(builder), final(executable)),
            advanced(old(scanner), final(scanner)),
            old(executable).nodes().len() <= final(executable).nodes().len(),
            nodes_finished(old(executable)) ==> nodes_finished(final(executable)),
            r matches Some(i) ==> i < final(executable).nodes().len(),
    {
        if self.workspace.is_feature_set(Feature::LineNames) {
            proof {
                scanner.lemma_in_order();
            }
            scanner.push_iterator();
            let label = scanner.consume_identifier();
            if let Ok(name) = label {
                if scanner.consume_operator(":").is_ok() {
                    match self.add(
                        builder,
                        executable,
                        Node::StatementLabel(LabelNode { name: name, statement_index: 0 }),
                        Ghost(base),
                    ) {
                        Ok(label_index) => {
                            scanner.discard_saved_iterator();
                            return Some(label_index);
                        },
                        Err(_) => {},
                    }
                }
            }
            scanner.pop_iterator();
        }
        None
    }

    /// Parses the statements of a block, behind its opening brace.
    fn parse_statement_block(
        &self,
        scanner: &mut TokenScanner,
        builder: &mut StatementBuilder,
        executable: &mut Executable,
        bias: u32,
        Ghost(base): Ghost<(Executable, StatementBuilder)>,
    ) -> (r: Result<Option<usize>, String>)
        requires
            self.ready_since(base, old(scanner), old(builder), old(executable)),
        ensures
            Self::done_maybe(
                base,
                old(scanner),
                final(scanner),
                old(builder),
                final(builder),
                old(executable),
                final(executable),
                r,
            ),
            r is Ok ==> final(builder).nodes() == old(builder).nodes(),
            inwardly(
                r,
                final(scanner),
                final(executable),
                self.s_block(old(scanner).tokens(), whole_of(old(scanner), old(executable)), bias),
            ),
            r is Ok ==> nodes_stay(old(executable), final(executable)),
        decreases old(scanner).remaining(), 45nat,
    {
        let ghost ts = scanner.tokens();
        let ghost want = self.s_block(ts, whole_of(scanner, executable), bias);
        proof {
            scanner.lemma_in_order();
        }
        match scanner.consume_newline() {
            Ok(_) => {},
            Err(e) => {
                return Err(e);
            },
        }
        let mut first_node_index: Option<usize> = None;
        proof {
            scanner.lemma_in_order();
        }
        loop
            invariant_except_break
                want == with_found(
                    first_node_index is Some,
                    root_of(first_node_index),
                    self.s_block_rest(ts, whole_of(scanner, executable), bias),
                ),
            invariant
                ts == old(scanner).tokens(),
                want == self.s_block(ts, whole_of(old(scanner), old(executable)), bias),
                nodes_stay(old(executable), executable),
                self.ready_since(base, scanner, builder, executable),
                advanced(old(scanner), scanner),
                old(executable).nodes().len() <= executable.nodes().len(),
                nodes_finished(old(executable)) ==> nodes_finished(executable),
                first_node_index matches Some(i) ==> i < executable.nodes().len(),
                0 <= scanner.taken() <= scanner.tokens().len(),
                builder.nodes() == old(builder).nodes(),
            ensures
                scanner.taken() > old(scanner).taken(),
                want matches Ok(i) && whole_of(scanner, executable) == i.to && first_node_index == handed(i),
            decreases scanner.remaining(),
        {
            match self.parse_inner_statement(scanner, builder, executable, bias, Ghost(base)) {
                Ok(found) => {
                    if first_node_index.is_none() && found.is_some() {
                        first_node_index = found;
                    }
                },
                Err(e) => {
                    return Err(e);
                },
            }
            proof {
                scanner.lemma_in_order();
            }
            if scanner.consume_punctuation("}").is_ok() {
                match scanner.consume_newline() {
                    Ok(_) => {},
                    Err(e) => {
                        return Err(e);
                    },
                }
                break ;
            }
            if scanner.is_eos() {
                let position = scanner.peek().starting_position;
                return Err(self.error(&position, "expected }"));
            }
        }
        proof {
            scanner.lemma_in_order();
        }
        Ok(first_node_index)
    }

    fn parse_statement_block_without_braces(
        &self,
        scanner: &mut TokenScanner,
        executable: &mut Executable,
        bias: u32,
    ) -> (r: Result<Option<usize>, String>)
        requires
            self.ready_whole(old(scanner), old(executable)),
        ensures
            r matches Ok(o) ==> advanced(old(scanner), final(scanner)) && grown(old(executable), final(executable))
                && settled(final(executable), old(executable).nodes().len() as int, Set::<usize>::empty())
                && (o matches Some(i) ==> i < final(executable).nodes().len()) && (nodes_finished(
                old(executable),
            ) ==> nodes_finished(final(executable))),
            inwardly(
                r,
                final(scanner),
                final(executable),
                self.s_statements(old(scanner).tokens(), whole_of(old(scanner), old(executable)), bias),
            ),
            r is Ok ==> nodes_stay(old(executable), final(executable)),
        decreases old(scanner).remaining(), 40nat,
    {
        let ghost ts = scanner.tokens();
        let ghost want = self.s_statements(ts, whole_of(scanner, executable), bias);
        let mut first_node_index: Option<usize> = None;
        proof {
            scanner.lemma_in_order();
        }
        loop
            invariant_except_break
                want == with_found(
                    first_node_index is Some,
                    root_of(first_node_index),
                    self.s_statements(ts, whole_of(scanner, executable), bias),
                ),
            invariant
                ts == old(scanner).tokens(),
                want == self.s_statements(ts, whole_of(old(scanner), old(executable)), bias),
                nodes_stay(old(executable), executable),
                self.ready_whole(scanner, executable),
                advanced(old(scanner), scanner),
                grown(old(executable), executable),
                old(executable).wf(),
                nodes_finished(old(executable)) ==> nodes_finished(executable),
                settled(executable, old(executable).nodes().len() as int, Set::<usize>::empty()),
                first_node_index matches Some(i) ==> i < executable.nodes().len(),
                0 <= scanner.taken() <= scanner.tokens().len(),
            ensures
                want matches Ok(i) && whole_of(scanner, executable) == i.to && first_node_index == handed(i),
            decreases scanner.remaining(),
        {
            let ghost e1 = *executable;
            match self.parse_statement(scanner, executable, bias) {
                Ok(found) => {
                    if first_node_index.is_none() && found.is_some() {
                        first_node_index = found;
                    }
                },
                Err(e) => {
                    return Err(e);
                },
            }
            proof {
                scanner.lemma_in_order();
                assert forall|k: int| 0 <= k < old(executable).owners().len() implies #[trigger] executable.owners()[k]
                    == old(executable).owners()[k] by {
                    assert(e1.owners()[k] == old(executable).owners()[k]);
                }
                assert forall|k: int| old(executable).nodes().len() <= k < executable.owners().len() implies (
                #[trigger] executable.owners()[k]) is Some || Set::<usize>::empty().contains(k as usize) by {
                    if k < e1.owners().len() {
                        assert(executable.owners()[k] == e1.owners()[k]);
                        assert(e1.owners()[k] is Some || Set::<usize>::empty().contains(k as usize));
                    }
                }
            }
            if scanner.is_eos() {
                break ;
            }
        }
        Ok(first_node_index)
    }

    /// Parses an `if`, behind its keyword. The condition is turned round
    /// and followed by a branch on it round the statement; with an `else`
    /// the statement ends in a branch round the other statement.
    #[verifier::rlimit(100)]
    fn parse_if(
        &self,
        scanner: &mut TokenScanner,
        builder: &mut StatementBuilder,
        executable: &mut Executable,
        bias: u32,
        Ghost(base): Ghost<(Executable, StatementBuilder)>,
    ) -> (r: Result<usize, String>)
        requires
            self.ready_since(base, old(scanner), old(builder), old(executable)),
        ensures
            Self::done(base, old(scanner), final(scanner), final(builder), old(executable), final(executable), r),
            r is Ok ==> final(scanner).taken() > old(scanner).taken(),
            wholly(
                r,
                final(scanner),
                final(executable),
                self.s_if(old(scanner).tokens(), whole_of(old(scanner), old(executable)), bias),
            ),
            r matches Ok(i) ==> i == self.r_expression(old(scanner).tokens(), place_of(old(scanner), old(executable))),
            r matches Ok(condition) ==> self.if_lowered(
                old(scanner).tokens(),
                whole_of(old(scanner), old(executable)),
                bias,
                final(executable),
                condition,
            ),
            r is Ok ==> nodes_stay(old(executable), final(executable)),
            r is Ok ==> pending(old(builder), final(builder), old(executable), final(executable), None),
        decreases old(scanner).remaining(), 45nat,
    {
        let ghost ts = scanner.tokens();
        let ghost w0 = whole_of(scanner, executable);
        let bool_expression_index = match self.parse_expression(scanner, builder, executable, Ghost(base)) {
            Ok(i) => i,
            Err(e) => {
                return Err(e);
            },
        };
        let ghost from = executable.nodes().len() as int;
        let mut arguments: Vec<usize> = Vec::new();
        arguments.push(bool_expression_index);
        proof {
            assert(arguments@ =~= seq![bool_expression_index]);
        }
        let condition_index = match self.add(
            builder,
            executable,
            Node::Operation(OperationNode::from_str("-", arguments)),
            Ghost(base),
        ) {
            Ok(i) => i,
            Err(e) => {
                return Err(e);
            },
        };
        let condition_dispatch_destination_index = match self.add(
            builder,
            executable,
            Node::Value(Literal::Int(0)),
            Ghost(base),
        ) {
            Ok(i) => i,
            Err(e) => {
                return Err(e);
            },
        };
        let mut arguments: Vec<usize> = Vec::new();
        arguments.push(condition_index);
        arguments.push(condition_dispatch_destination_index);
        proof {
            assert(arguments@ =~= seq![from as usize, (from + 1) as usize]);
        }
        match self.add(
            builder,
            executable,
            Node::Operation(OperationNode::from_str("cbranch", arguments)),
            Ghost(base),
        ) {
            Ok(_) => {},
            Err(e) => {
                return Err(e);
            },
        }
        match self.add(builder, executable, Node::StatementEnd(0), Ghost(base)) {
            Ok(_) => {},
            Err(e) => {
                return Err(e);
            },
        }
        proof {
            scanner.lemma_in_order();
            assert(branches_round(executable, from, bool_expression_index, 0, 0));
        }
        match scanner.consume_newline() {
            Ok(_) => {},
            Err(e) => {
                return Err(e);
            },
        }
        proof {
            scanner.lemma_in_order();
        }
        match self.parse_inner_statement(scanner, builder, executable, bias, Ghost(base)) {
            Ok(_) => {},
            Err(e) => {
                return Err(e);
            },
        }
        proof {
            scanner.lemma_in_order();
        }
        let ghost held = self.s_held(ts, w0, w0.place, self.s_expression(ts, w0.place), bias);
        let ghost over = executable.nodes().len() as int;
        proof {
            assert(branches_round(executable, from, bool_expression_index, 0, 0));
            assert(held matches Ok(i) && i.to == whole_of(scanner, executable));
        }
        if scanner.consume_keyword("else").is_ok() {
            proof {
                scanner.lemma_in_order();
            }
            match scanner.consume_newline() {
                Ok(_) => {},
                Err(e) => {
                    return Err(e);
                },
            }
            let true_branch_done_destination_index = match self.add(
                builder,
                executable,
                Node::Value(Literal::Int(0)),
                Ghost(base),
            ) {
                Ok(i) => i,
                Err(e) => {
                    return Err(e);
                },
            };
            let mut arguments: Vec<usize> = Vec::new();
            arguments.push(true_branch_done_destination_index);
            proof {
                assert(arguments@ =~= seq![over as usize]);
            }
            match self.add(
                builder,
                executable,
                Node::Operation(OperationNode::from_str("branch", arguments)),
                Ghost(base),
            ) {
                Ok(_) => {},
                Err(e) => {
                    return Err(e);
                },
            }
            match self.add(builder, executable, Node::StatementEnd(0), Ghost(base)) {
                Ok(_) => {},
                Err(e) => {
                    return Err(e);
                },
            }
            proof {
                scanner.lemma_in_order();
                assert(branches_round(executable, from, bool_expression_index, 0, 0));
                assert(branches_to(executable, over, 0, over as usize));
            }
            let false_branch = match self.parse_inner_statement(scanner, builder, executable, bias, Ghost(base)) {
                Ok(found) => found,
                Err(e) => {
                    return Err(e);
                },
            };
            let next_node_index = executable.get_next_node_index();
            if next_node_index > MAX_NODES {
                return Err(String::from_str("Program is too large"));
            }
            let target: usize = match false_branch {
                Some(index) => index,
                None => next_node_index,
            };
            proof {
                assert(branches_round(executable, from, bool_expression_index, 0, 0));
                assert(branches_to(executable, over, 0, over as usize));
            }
            self.replace(builder, executable, condition_dispatch_destination_index, target, Ghost(base));
            proof {
                assert(branches_round(executable, from, bool_expression_index, target as int, target as int));
                assert(branches_to(executable, over, 0, over as usize));
            }
            self.replace(builder, executable, true_branch_done_destination_index, next_node_index, Ghost(base));
            proof {
                let n = next_node_index as int;
                assert(branches_round(executable, from, bool_expression_index, target as int, target as int));
                assert(branches_to(executable, over, n, over as usize));
            }
        } else {
            let next_node_index = executable.get_next_node_index();
            if next_node_index > MAX_NODES {
                return Err(String::from_str("Program is too large"));
            }
            self.replace(builder, executable, condition_dispatch_destination_index, next_node_index, Ghost(base));
            proof {
                let n = next_node_index as int;
                assert(branches_round(executable, from, bool_expression_index, n, n));
            }
        }
        Ok(bool_expression_index)
    }

    /// Puts the number of a node, as a value, in the place of a node.
    fn replace(
        &self,
        builder: &mut StatementBuilder,
        executable: &mut Executable,
        position: usize,
        target: usize,
        Ghost(base): Ghost<(Executable, StatementBuilder)>,
    )
        requires
            old(executable).wf(),
            old(builder).pending_in(old(executable)),
            built(&base.0, old(executable), &base.1, old(builder)),
            position < old(executable).nodes().len(),
            target <= MAX_NODES,
        ensures
            final(executable).wf(),
            final(builder).pending_in(final(executable)),
            built(&base.0, final(executable), &base.1, final(builder)),
            final(executable).nodes().len() == old(executable).nodes().len(),
            nodes_finished(old(executable)) ==> nodes_finished(final(executable)),
            *final(builder) == *old(builder),
            final(executable).nodes() == old(executable).nodes().update(
                position as int,
                Rc::new(Node::Value(Literal::Int(target as i32))),
            ),
            final(executable).owners() == old(executable).owners(),
            final(executable).statements() == old(executable).statements(),
            final(executable).text() == old(executable).text(),
            final(executable).return_line() == old(executable).return_line(),
            label_of(*old(executable).nodes()[position as int]) is None ==> labelled(final(executable)) == labelled(
                old(executable),
            ),
    {
        builder.replace_node(executable, position, Node::Value(Literal::Int(target as i32)));
        proof {
            if node_label(old(executable), position as int) is None {
                lemma_labels_stay(old(executable), executable);
            }
            assert(executable.wf()) by {
                assert forall|i: int, x: usize|
                    0 <= i < executable.statements().len() && #[trigger] executable.statements()[i].nodes().contains(
                        x,
                    ) implies x < executable.nodes().len() && executable.owners()[x as int] == Some(
                    i as usize,
                ) by {
                    assert(old(executable).statements()[i].nodes().contains(x));
                }
            }
        }
    }

    /// Parses a `while`, behind its keyword. The condition is turned
    /// round and followed by a branch on it round the statement, which
    /// ends in a branch back to the condition.
    fn parse_while(
        &self,
        scanner: &mut TokenScanner,
        builder: &mut StatementBuilder,
        executable: &mut Executable,
        bias: u32,
        Ghost(base): Ghost<(Executable, StatementBuilder)>,
    ) -> (r: Result<usize, String>)
        requires
            self.ready_since(base, old(scanner), old(builder), old(executable)),
        ensures
            Self::done(base, old(scanner), final(scanner), final(builder), old(executable), final(executable), r),
            r is Ok ==> final(scanner).taken() > old(scanner).taken(),
            wholly(
                r,
                final(scanner),
                final(executable),
                self.s_while(old(scanner).tokens(), whole_of(old(scanner), old(executable)), bias),
            ),
            r matches Ok(i) ==> i == self.r_expression(old(scanner).tokens(), place_of(old(scanner), old(executable))),
            r matches Ok(condition) ==> self.while_lowered(
                old(scanner).tokens(),
                whole_of(old(scanner), old(executable)),
                final(executable),
                condition,
            ),
            r is Ok ==> nodes_stay(old(executable), final(executable)),
            r is Ok ==> pending(old(builder), final(builder), old(executable), final(executable), None),
        decreases old(scanner).remaining(), 45nat,
    {
        let bool_expression_index = match self.parse_expression(scanner, builder, executable, Ghost(base)) {
            Ok(i) => i,
            Err(e) => {
                return Err(e);
            },
        };
        let ghost from = executable.nodes().len() as int;
        let mut arguments: Vec<usize> = Vec::new();
        arguments.push(bool_expression_index);
        proof {
            assert(arguments@ =~= seq![bool_expression_index]);
        }
        let condition_index = match self.add(
            builder,
            executable,
            Node::Operation(OperationNode::from_str("-", arguments)),
            Ghost(base),
        ) {
            Ok(i) => i,
            Err(e) => {
                return Err(e);
            },
        };
        let condition_dispatch_destination_index = match self.add(
            builder,
            executable,
            Node::Value(Literal::Int(0)),
            Ghost(base),
        ) {
            Ok(i) => i,
            Err(e) => {
                return Err(e);
            },
        };
        let mut arguments: Vec<usize> = Vec::new();
        arguments.push(condition_index);
        arguments.push(condition_dispatch_destination_index);
        proof {
            assert(arguments@ =~= seq![from as usize, (from + 1) as usize]);
        }
        match self.add(
            builder,
            executable,
            Node::Operation(OperationNode::from_str("cbranch", arguments)),
            Ghost(base),
        ) {
            Ok(_) => {},
            Err(e) => {
                return Err(e);
            },
        }
        match self.add(builder, executable, Node::StatementEnd(0), Ghost(base)) {
            Ok(_) => {},
            Err(e) => {
                return Err(e);
            },
        }
        proof {
            scanner.lemma_in_order();
            assert(branches_round(executable, from, bool_expression_index, 0, 0));
        }
        match scanner.consume_newline() {
            Ok(_) => {},
            Err(e) => {
                return Err(e);
            },
        }
        proof {
            scanner.lemma_in_order();
        }
        match self.parse_inner_statement(scanner, builder, executable, bias, Ghost(base)) {
            Ok(_) => {},
            Err(e) => {
                return Err(e);
            },
        }
        proof {
            assert(branches_round(executable, from, bool_expression_index, 0, 0));
        }
        let ghost back = executable.nodes().len() as int;
        match self.add(
            builder,
            executable,
            Node::Value(Literal::Int(bool_expression_index as i32)),
            Ghost(base),
        ) {
            Ok(_) => {},
            Err(e) => {
                return Err(e);
            },
        }
        let mut arguments: Vec<usize> = Vec::new();
        arguments.push(bool_expression_index);
        proof {
            assert(arguments@ =~= seq![bool_expression_index]);
        }
        match self.add(
            builder,
            executable,
            Node::Operation(OperationNode::from_str("branch", arguments)),
            Ghost(base),
        ) {
            Ok(_) => {},
            Err(e) => {
                return Err(e);
            },
        }
        match self.add(builder, executable, Node::StatementEnd(0), Ghost(base)) {
            Ok(_) => {},
            Err(e) => {
                return Err(e);
            },
        }
        let next_node_index = executable.get_next_node_index();
        if next_node_index > MAX_NODES {
            return Err(String::from_str("Program is too large"));
        }
        proof {
            assert(branches_round(executable, from, bool_expression_index, 0, 0));
            assert(branches_to(executable, back, bool_expression_index as int, bool_expression_index));
        }
        self.replace(builder, executable, condition_dispatch_destination_index, next_node_index, Ghost(base));
        proof {
            let n = next_node_index as int;
            assert(branches_round(executable, from, bool_expression_index, n, n));
            assert(branches_to(executable, back, bool_expression_index as int, bool_expression_index));
        }
        Ok(bool_expression_index)
    }

    /// Parses a definition, behind its `$`: a name, then `=` and a
    /// datatype, or the arguments and the body of a function.
    fn parse_definition(
        &self,
        scanner: &mut TokenScanner,
        builder: &mut StatementBuilder,
        executable: &mut Executable,
        bias: u32,
        Ghost(base): Ghost<(Executable, StatementBuilder)>,
    ) -> (r: Result<usize, String>)
        requires
            self.ready_since(base, old(scanner), old(builder), old(executable)),
        ensures
            Self::done(base, old(scanner), final(scanner), final(builder), old(executable), final(executable), r),
            r is Ok ==> final(scanner).taken() > old(scanner).taken(),
            tells(
                r,
                final(scanner),
                final(executable),
                self.s_definition(old(scanner).tokens(), place_of(old(scanner), old(executable))),
            ),
            r is Ok ==> plain(old(builder), final(builder), old(executable), final(executable)),
            r matches Ok(i) ==> i == final(executable).nodes().len() - 1 && self.is_definition(
                old(scanner).tokens(),
                place_of(old(scanner), old(executable)),
                final(executable),
                old(executable).nodes().len() as int,
            ),
        decreases old(scanner).remaining(), 50nat,
    {
        let identifier_name = match scanner.consume_identifier() {
            Ok(name) => name,
            Err(e) => {
                return Err(e);
            },
        };
        proof {
            scanner.lemma_in_order();
        }
        if scanner.consume_operator("=").is_ok() {
            self.parse_datatype_definition(&identifier_name, scanner, builder, executable, Ghost(base))
        } else {
            self.parse_function_definition(&identifier_name, scanner, builder, executable, Ghost(base))
        }
    }

    fn parse_datatype_definition(
        &self,
        identifier_name: &String,
        scanner: &mut TokenScanner,
        builder: &mut StatementBuilder,
        executable: &mut Executable,
        Ghost(base): Ghost<(Executable, StatementBuilder)>,
    ) -> (r: Result<usize, String>)
        requires
            self.ready_since(base, old(scanner), old(builder), old(executable)),
        ensures
            tells(r, final(scanner), final(executable), self.s_datatype(old(scanner).tokens(), place_of(old(scanner), old(executable)))),
            Self::done(base, old(scanner), final(scanner), final(builder), old(executable), final(executable), r),
            r is Ok ==> plain(old(builder), final(builder), old(executable), final(executable)),
            r matches Ok(i) ==> i == final(executable).nodes().len() - 1 && self.is_datatype(
                old(scanner).tokens(),
                place_of(old(scanner), old(executable)),
                final(executable),
                old(executable).nodes().len() as int,
                identifier_name@,
            ),
    {
        if scanner.consume_punctuation("[").is_ok() {
            self.parse_structure_or_sequence_definition(identifier_name, scanner, builder, executable, Ghost(base))
        } else {
            self.parse_alternate_definition(identifier_name, scanner, builder, executable, Ghost(base))
        }
    }

    /// Parses the datatypes of a sum, which stand between `!`.
    fn parse_alternate_definition(
        &self,
        identifier_name: &String,
        scanner: &mut TokenScanner,
        builder: &mut StatementBuilder,
        executable: &mut Executable,
        Ghost(base): Ghost<(Executable, StatementBuilder)>,
    ) -> (r: Result<usize, String>)
        requires
            self.ready_since(base, old(scanner), old(builder), old(executable)),
        ensures
            tells(r, final(scanner), final(executable), self.s_alternate(old(scanner).tokens(), place_of(old(scanner), old(executable)))),
            Self::done(base, old(scanner), final(scanner), final(builder), old(executable), final(executable), r),
            r is Ok ==> plain(old(builder), final(builder), old(executable), final(executable)),
            r matches Ok(i) ==> i == final(executable).nodes().len() - 1 && self.is_alternate(
                old(scanner).tokens(),
                place_of(old(scanner), old(executable)),
                final(executable),
                old(executable).nodes().len() as int,
                identifier_name@,
            ),
    {
        let mut alternate_names: Vec<usize> = Vec::new();
        let ghost ts = old(scanner).tokens();
        let ghost want = self.s_alternate(ts, place_of(old(scanner), old(executable)));
        let ghost p0 = place_of(old(scanner), old(executable));
        let ghost from = old(executable).nodes().len() as int;
        proof {
            scanner.lemma_in_order();
            assert(alternate_names@ =~= Seq::new(0nat, |j: int| (from + j) as usize));
        }
        loop
            invariant
                p0 == place_of(old(scanner), old(executable)),
                from == old(executable).nodes().len(),
                scanner.taken() == p0.k + 2 * (executable.nodes().len() - from),
                alternate_names@ == Seq::new(
                    (executable.nodes().len() - from) as nat,
                    |j: int| (from + j) as usize,
                ),
                forall|k: int|
                    from <= k < executable.nodes().len() ==> is_name(
                        *#[trigger] executable.nodes()[k],
                        at(ts, Place { k: p0.k + 2 * (k - from), ..p0 }).text,
                    ),
                ts == old(scanner).tokens(),
                want == self.s_alternate(ts, place_of(scanner, executable)),
                want == self.s_alternate(ts, place_of(old(scanner), old(executable))),
                self.ready_since(base, scanner, builder, executable),
                advanced(old(scanner), scanner),
                old(executable).nodes().len() <= executable.nodes().len(),
                plain(old(builder), builder, old(executable), executable),
                nodes_finished(old(executable)) ==> nodes_finished(executable),
                0 <= scanner.taken() <= scanner.tokens().len(),
            decreases scanner.remaining(),
        {
            let alternate_name = match scanner.consume_identifier() {
                Ok(name) => name,
                Err(e) => {
                    return Err(e);
                },
            };
            let ghost before = alternate_names@;
            let ghost e1 = *executable;
            match self.add(
                builder,
                executable,
                Node::IdentifierByValue(ReferenceNode::from_string(&alternate_name)),
                Ghost(base),
            ) {
                Ok(i) => {
                    alternate_names.push(i);
                },
                Err(e) => {
                    return Err(e);
                },
            }
            proof {
                scanner.lemma_in_order();
                assert(alternate_names@ =~= Seq::new(
                    (executable.nodes().len() - from) as nat,
                    |j: int| (from + j) as usize,
                ));
                assert forall|k: int| from <= k < executable.nodes().len() implies is_name(
                    *#[trigger] executable.nodes()[k],
                    at(ts, Place { k: p0.k + 2 * (k - from), ..p0 }).text,
                ) by {
                    if k < e1.nodes().len() {
                        assert(executable.nodes()[k] == e1.nodes()[k]);
                    }
                }
            }
            if scanner.consume_operator("!").is_err() {
                return self.add(
                    builder,
                    executable,
                    Node::Definition(
                        DefinitionNode::from_string(identifier_name, DefinitionType::Alternate(alternate_names)),
                    ),
                    Ghost(base),
                );
            }
            proof {
                scanner.lemma_in_order();
            }
        }
    }

    /// Parses the definition of a sequence, behind its opening bracket:
    /// the bounds, of which the upper one may be left out, and the
    /// datatype of the elements.
    fn parse_sequence_definition(
        &self,
        identifier_name: &String,
        scanner: &mut TokenScanner,
        builder: &mut StatementBuilder,
        executable: &mut Executable,
        Ghost(base): Ghost<(Executable, StatementBuilder)>,
    ) -> (r: Result<usize, String>)
        requires
            self.ready_since(base, old(scanner), old(builder), old(executable)),
        ensures
            tells(r, final(scanner), final(executable), self.s_sequence(old(scanner).tokens(), place_of(old(scanner), old(executable)))),
            Self::done(base, old(scanner), final(scanner), final(builder), old(executable), final(executable), r),
            r is Ok ==> plain(old(builder), final(builder), old(executable), final(executable)),
            r matches Ok(i) ==> i == old(executable).nodes().len() && i + 1 == final(executable).nodes().len()
                && self.is_sequence(
                old(scanner).tokens(),
                place_of(old(scanner), old(executable)),
                *final(executable).nodes()[i as int],
                identifier_name@,
            ),
    {
        let lower_bound = match scanner.consume_integer() {
            Ok(v) => v,
            Err(e) => {
                return Err(e);
            },
        };
        match scanner.consume_operator(":") {
            Ok(_) => {},
            Err(e) => {
                return Err(e);
            },
        }
        let upper_bound: Option<i32> = match scanner.consume_integer() {
            Ok(i) => Some(i),
            Err(_) => None,
        };
        match scanner.consume_punctuation("]") {
            Ok(_) => {},
            Err(e) => {
                return Err(e);
            },
        }
        let datatype_name = match scanner.consume_identifier() {
            Ok(name) => name,
            Err(e) => {
                return Err(e);
            },
        };
        self.add(
            builder,
            executable,
            Node::Definition(
                DefinitionNode::from_string(
                    identifier_name,
                    DefinitionType::Sequence(
                        SequenceDefinition::from_string(&datatype_name, lower_bound, upper_bound),
                    ),
                ),
            ),
            Ghost(base),
        )
    }

    /// Parses the fields of the definition of a structure, behind its
    /// opening bracket.
    fn parse_structure_definition(
        &self,
        identifier_name: &String,
        scanner: &mut TokenScanner,
        builder: &mut StatementBuilder,
        executable: &mut Executable,
        Ghost(base): Ghost<(Executable, StatementBuilder)>,
    ) -> (r: Result<usize, String>)
        requires
            self.ready_since(base, old(scanner), old(builder), old(executable)),
        ensures
            tells(r, final(scanner), final(executable), self.s_structure(old(scanner).tokens(), place_of(old(scanner), old(executable)))),
            Self::done(base, old(scanner), final(scanner), final(builder), old(executable), final(executable), r),
            r is Ok ==> plain(old(builder), final(builder), old(executable), final(executable)),
            r matches Ok(i) ==> i == old(executable).nodes().len() && i + 1 == final(executable).nodes().len()
                && self.is_structure(
                old(scanner).tokens(),
                place_of(old(scanner), old(executable)),
                *final(executable).nodes()[i as int],
                identifier_name@,
            ),
    {
        let mut members: Vec<StructureMemberDescription> = Vec::new();
        let ghost ts = old(scanner).tokens();
        let ghost want = self.s_structure(ts, place_of(old(scanner), old(executable)));
        let ghost fields = self.members_from(ts, place_of(old(scanner), old(executable)), Seq::empty());
        proof {
            scanner.lemma_in_order();
            assert(member_models(members@) =~= Seq::empty());
        }
        loop
            invariant
                fields == self.members_from(ts, place_of(scanner, executable), member_models(members@)),
                fields == self.members_from(ts, place_of(old(scanner), old(executable)), Seq::empty()),
                ts == old(scanner).tokens(),
                want == self.s_structure(ts, place_of(scanner, executable)),
                want == self.s_structure(ts, place_of(old(scanner), old(executable))),
                self.ready_since(base, scanner, builder, executable),
                advanced(old(scanner), scanner),
                executable == old(executable),
                builder == old(builder),
                0 <= scanner.taken() <= scanner.tokens().len(),
            decreases scanner.remaining(),
        {
            let ghost before = members@;
            let ghost here = place_of(scanner, executable);
            match self.parse_structure_member_definition(scanner) {
                Ok(member) => {
                    members.push(member);
                },
                Err(e) => {
                    return Err(e);
                },
            }
            proof {
                scanner.lemma_in_order();
                assert(member_models(members@) =~= member_models(before).push(
                    Member { name: at(ts, here).text, datatype: at(ts, step(ts, step(ts, here))).text },
                ));
            }
            if scanner.consume_punctuation(",").is_ok() {
                proof {
                    scanner.lemma_in_order();
                }
                continue ;
            }
            if scanner.consume_punctuation("]").is_ok() {
                return self.add(
                    builder,
                    executable,
                    Node::Definition(
                        DefinitionNode::from_string(
                            identifier_name,
                            DefinitionType::Structure(StructureDefinition { members: members }),
                        ),
                    ),
                    Ghost(base),
                );
            }
            let position = scanner.peek().starting_position;
            return Err(self.error(&position, "syntax error in structure definition"));
        }
    }

    fn parse_structure_member_definition(&self, scanner: &mut TokenScanner) -> (r: Result<
        StructureMemberDescription,
        String,
    >)
        requires
            old(scanner).wf(),
            old(scanner).saved() is None,
        ensures
            forall|n: int|
                cursor_tells(
                    r,
                    final(scanner),
                    #[trigger] self.s_member(
                        old(scanner).tokens(),
                        Place { k: old(scanner).taken(), position: old(scanner).position(), n: n },
                    ),
                ),
            r is Ok ==> advanced(old(scanner), final(scanner)) && final(scanner).taken() > old(scanner).taken(),
            r matches Ok(member) ==> member.name@ == old(scanner).upcoming().text && member.datatype@ == at(
                old(scanner).tokens(),
                step(
                    old(scanner).tokens(),
                    step(old(scanner).tokens(), Place { k: old(scanner).taken(), position: old(scanner).position(), n: 0 }),
                ),
            ).text,
    {
        let member_name = match scanner.consume_identifier() {
            Ok(name) => name,
            Err(e) => {
                return Err(e);
            },
        };
        match scanner.consume_operator(":") {
            Ok(_) => {},
            Err(e) => {
                return Err(e);
            },
        }
        let datatype_name = match scanner.consume_identifier() {
            Ok(name) => name,
            Err(e) => {
                return Err(e);
            },
        };
        proof {
            old(scanner).lemma_in_order();
        }
        Ok(
            StructureMemberDescription {
                name: Name::from_string(&member_name),
                datatype: Name::from_string(&datatype_name),
            },
        )
    }

    fn parse_structure_or_sequence_definition(
        &self,
        identifier_name: &String,
        scanner: &mut TokenScanner,
        builder: &mut StatementBuilder,
        executable: &mut Executable,
        Ghost(base): Ghost<(Executable, StatementBuilder)>,
    ) -> (r: Result<usize, String>)
        requires
            self.ready_since(base, old(scanner), old(builder), old(executable)),
        ensures
            tells(r, final(scanner), final(executable), self.s_structure_or_sequence(old(scanner).tokens(), place_of(old(scanner), old(executable)))),
            Self::done(base, old(scanner), final(scanner), final(builder), old(executable), final(executable), r),
            r is Ok ==> plain(old(builder), final(builder), old(executable), final(executable)),
            r matches Ok(i) ==> i == old(executable).nodes().len() && self.is_bracketed(
                old(scanner).tokens(),
                place_of(old(scanner), old(executable)),
                final(executable),
                i as int,
                identifier_name@,
            ),
    {
        if scanner.peek_identifier() {
            self.parse_structure_definition(identifier_name, scanner, builder, executable, Ghost(base))
        } else {
            self.parse_sequence_definition(identifier_name, scanner, builder, executable, Ghost(base))
        }
    }

    /// The labels of a function body and the line of each. Fails where
    /// two statements have the same label.
    fn construct_label_database(&self, executable: &Executable) -> (r: Result<
        Vec<(String, LineNumber)>,
        String,
    >)
        requires
            executable.wf(),
        ensures
            r matches Ok(labels) ==> forall|i: int, j: int|
                0 <= i < j < labels@.len() ==> (#[trigger] labels@[i]).0@ != (#[trigger] labels@[j]).0@,
            match (r, database(labelled(executable), 0, Seq::empty())) {
                (Ok(labels), Ok(want)) => label_models(labels@) == want,
                (Err(e), Err(m)) => e@ == m,
                _ => false,
            },
    {
        let mut labels: Vec<(String, LineNumber)> = Vec::new();
        let mut statement_number: usize = 0;
        assert(label_models(labels@) =~= Seq::empty());
        while statement_number < executable.get_statement_count()
            invariant
                executable.wf(),
                statement_number <= executable.statements().len(),
                forall|i: int, j: int|
                    0 <= i < j < labels@.len() ==> (#[trigger] labels@[i]).0@ != (#[trigger] labels@[j]).0@,
                database(labelled(executable), statement_number as int, label_models(labels@)) == database(
                    labelled(executable),
                    0,
                    Seq::empty(),
                ),
            decreases executable.statements().len() - statement_number,
        {
            let statement = executable.get_statement(statement_number + 1).unwrap();
            assert(executable.statements()[statement_number as int].wf());
            let first = statement.as_first_node_index();
            assert(executable.statements()[statement_number as int].nodes().contains(first));
            proof {
                let st = executable.statements()[statement_number as int];
                let k = first_node(st);
                assert(st.nodes().contains(first) && forall|x: usize| st.nodes().contains(x) ==> first <= x);
                assert(st.nodes().contains(k) && forall|x: usize| st.nodes().contains(x) ==> k <= x);
                assert(k == first);
            }
            if let Node::StatementLabel(label_node) = executable.get_node(first) {
                let normalized = to_lower(&chars_of(label_node.name.as_str()));
                let ghost found = label_models(labels@);
                assert(label_at(executable, statement_number as int) == Some(label_node.name@));
                let mut k: usize = 0;
                while k < labels.len()
                    invariant
                        k <= labels.len(),
                        found == label_models(labels@),
                        normalized@ == lower(label_node.name@),
                        statement_number < executable.statements().len(),
                        label_at(executable, statement_number as int) == Some(label_node.name@),
                        database(labelled(executable), statement_number as int, found) == database(
                            labelled(executable),
                            0,
                            Seq::empty(),
                        ),
                        forall|i: int| 0 <= i < k ==> (#[trigger] labels@[i]).0@ != normalized@,
                    decreases labels.len() - k,
                {
                    if same_chars(&chars_of(labels[k].0.as_str()), &normalized) {
                        let mut message = String::from_str("Statement label ");
                        message.append(label_node.name.as_str());
                        message.append(" is duplicated");
                        proof {
                            reveal_strlit("Statement label ");
                            reveal_strlit(" is duplicated");
                            assert(message@ == "Statement label "@ + label_node.name@ + " is duplicated"@);
                            assert(found[k as int].0 == lower(label_node.name@));
                            assert(is_listed(found, lower(label_node.name@)));
                        }
                        return Err(message);
                    }
                    k += 1;
                }
                let ghost before = labels@;
                proof {
                    assert(!is_listed(found, lower(label_node.name@))) by {
                        if is_listed(found, lower(label_node.name@)) {
                            let j = choose|j: int| 0 <= j < found.len() && (#[trigger] found[j]).0 == lower(label_node.name@);
                            assert(labels@[j].0@ == found[j].0);
                        }
                    }
                }
                labels.push((string_of(&normalized), statement.as_line_number()));
                proof {
                    assert(label_models(labels@) =~= found.push(
                        (lower(label_node.name@), executable.statements()[statement_number as int].line()),
                    ));
                    assert forall|i: int, j: int| 0 <= i < j < labels@.len() implies (#[trigger] labels@[i]).0@
                        != (#[trigger] labels@[j]).0@ by {
                        if j < before.len() {
                            assert(labels@[i] == before[i] && labels@[j] == before[j]);
                        } else {
                            assert(labels@[i] == before[i]);
                        }
                    }
                }
            } else {
                assert(label_at(executable, statement_number as int) is None);
            }
            statement_number += 1;
        }
        Ok(labels)
    }

    /// Parses the definition of a function, behind its name: the
    /// arguments, the local variables, and the statements of the body up
    /// to a line that holds `$` only.
    #[verifier::rlimit(100)]
    fn parse_function_definition(
        &self,
        identifier_name: &String,
        scanner: &mut TokenScanner,
        builder: &mut StatementBuilder,
        executable: &mut Executable,
        Ghost(base): Ghost<(Executable, StatementBuilder)>,
    ) -> (r: Result<usize, String>)
        requires
            self.ready_since(base, old(scanner), old(builder), old(executable)),
        ensures
            Self::done(base, old(scanner), final(scanner), final(builder), old(executable), final(executable), r),
            tells(
                r,
                final(scanner),
                final(executable),
                self.s_function(old(scanner).tokens(), place_of(old(scanner), old(executable))),
            ),
            r is Ok ==> plain(old(builder), final(builder), old(executable), final(executable)),
            r matches Ok(i) ==> i == old(executable).nodes().len() && self.is_function(
                *final(executable).nodes()[i as int],
                identifier_name@,
                self.formals_of(old(scanner).tokens(), place_of(old(scanner), old(executable))),
                self.locals_of(old(scanner).tokens(), place_of(old(scanner), old(executable))),
                self.s_body(old(scanner).tokens(), place_of(old(scanner), old(executable))),
            ),
        decreases old(scanner).remaining(), 49nat,
    {
        let ghost ts = scanner.tokens();
        let ghost p0 = place_of(scanner, executable);
        let ghost formals: Parsed = if TokenScanner::is_punctuation(at(ts, p0), "("@) {
            if TokenScanner::is_punctuation(at(ts, step(ts, p0)), ")"@) {
                Ok(step(ts, step(ts, p0)))
            } else {
                self.s_formals(ts, step(ts, p0))
            }
        } else {
            Ok(p0)
        };
        let ghost all_formals = self.formals_of(ts, p0);
        let ghost all_locals = self.locals_of(ts, p0);
        let mut formal_args: Vec<FormalArgument> = Vec::new();
        let mut local_variables: Vec<Name> = Vec::new();
        let mut function_executable = Executable::new(self.source);
        proof {
            scanner.lemma_in_order();
            assert(formal_models(formal_args@) =~= Seq::empty());
            assert(name_models(local_variables@) =~= Seq::empty());
        }
        if scanner.consume_punctuation("(").is_ok() {
            proof {
                scanner.lemma_in_order();
            }
            if scanner.consume_punctuation(")").is_err() {
                loop
                    invariant_except_break
                        formals == self.s_formals(ts, place_of(scanner, executable)),
                        all_formals == self.formals_from(
                            ts,
                            place_of(scanner, executable),
                            formal_models(formal_args@),
                        ),
                    invariant
                        local_variables@.len() == 0,
                        formals matches Err(m) ==> self.s_function(ts, place_of(old(scanner), old(executable)))
                            == Err::<Place, Seq<char>>(m),
                        ts == scanner.tokens(),
                        *executable == *old(executable),
                        *builder == *old(builder),
                        scanner.wf(),
                        scanner.saved() is None,
                        advanced(old(scanner), scanner),
                        0 <= scanner.taken() <= scanner.tokens().len(),
                    ensures
                        formals == Ok::<Place, Seq<char>>(place_of(scanner, executable)),
                        all_formals == formal_models(formal_args@),
                    decreases scanner.remaining(),
                {
                    let ghost before = formal_args@;
                    let is_reference_parameter = scanner.consume_operator("$").is_ok();
                    let parameter_name = match scanner.consume_identifier() {
                        Ok(name) => name,
                        Err(e) => {
                            return Err(e);
                        },
                    };
                    let datatype_name = if scanner.consume_operator(":").is_ok() {
                        match scanner.consume_identifier() {
                            Ok(name) => MetaDataTypeName::from_string(&name),
                            Err(e) => {
                                return Err(e);
                            },
                        }
                    } else {
                        MetaDataTypeName::from_str("general")
                    };
                    formal_args.push(
                        FormalArgument {
                            name: Name::from_string(&parameter_name),
                            mechanism: if is_reference_parameter {
                                ArgumentMechanism::ByReference
                            } else {
                                ArgumentMechanism::ByValue
                            },
                            datatype: datatype_name,
                        },
                    );
                    proof {
                        scanner.lemma_in_order();
                        assert(formal_models(formal_args@) =~= formal_models(before).push(
                            formal_model(formal_args@.last()),
                        ));
                    }
                    if scanner.consume_punctuation(",").is_err() {
                        if scanner.consume_punctuation(")").is_ok() {
                            break ;
                        }
                        let position = scanner.peek().starting_position;
                        return Err(self.error(&position, "Expected , or )"));
                    }
                    proof {
                        scanner.lemma_in_order();
                    }
                }
            }
        }
        proof {
            scanner.lemma_in_order();
            assert(formals == Ok::<Place, Seq<char>>(place_of(scanner, executable)));
            assert(all_formals == formal_models(formal_args@));
        }
        let ghost p1 = place_of(scanner, executable);
        let ghost locals: Parsed = if TokenScanner::is_punctuation(at(ts, p1), ";"@) {
            self.s_locals(ts, step(ts, p1))
        } else {
            Ok(p1)
        };
        if scanner.consume_punctuation(";").is_ok() {
            proof {
                scanner.lemma_in_order();
            }
            loop
                invariant_except_break
                    locals == self.s_locals(ts, place_of(scanner, executable)),
                    all_locals == self.locals_from(ts, place_of(scanner, executable), name_models(local_variables@)),
                invariant
                    all_formals == formal_models(formal_args@),
                    locals matches Err(m) ==> self.s_function(ts, place_of(old(scanner), old(executable)))
                        == Err::<Place, Seq<char>>(m),
                    ts == scanner.tokens(),
                    *executable == *old(executable),
                    *builder == *old(builder),
                    scanner.wf(),
                    scanner.saved() is None,
                    advanced(old(scanner), scanner),
                    0 <= scanner.taken() <= scanner.tokens().len(),
                ensures
                    locals == Ok::<Place, Seq<char>>(place_of(scanner, executable)),
                    all_locals == name_models(local_variables@),
                decreases scanner.remaining(),
            {
                let ghost before = local_variables@;
                match scanner.consume_identifier() {
                    Ok(name) => {
                        local_variables.push(Name::from_string(&name));
                        proof {
                            assert(name_models(local_variables@) =~= name_models(before).push(name@));
                        }
                    },
                    Err(e) => {
                        return Err(e);
                    },
                }
                proof {
                    scanner.lemma_in_order();
                }
                if scanner.consume_punctuation(",").is_err() {
                    break ;
                }
                proof {
                    scanner.lemma_in_order();
                }
            }
        }
        proof {
            assert(locals == Ok::<Place, Seq<char>>(place_of(scanner, executable)));
            assert(all_locals == name_models(local_variables@));
        }
        if scanner.consume_newline().is_err() {
            let position = scanner.peek().starting_position;
            return Err(self.error(&position, "expected function body"));
        }
        let first_position = scanner.peek().starting_position;
        if first_position.line_number == 0 {
            return Err(self.error(&first_position, "expected function body"));
        }
        let body_bias: u32 = first_position.line_number - 1;
        let ghost p3 = place_of(scanner, executable);
        proof {
            scanner.lemma_in_order();
            assert(self.s_head(ts, p0) == Ok::<Place, Seq<char>>(p3));
            assert(labelled(&function_executable) =~= Seq::empty());
            assert(whole_of(scanner, &function_executable) == (Whole {
                place: Place { n: 0, ..p3 },
                ended: None,
                labels: Seq::empty(),
                size: self.text().len() as int,
            }));
        }
        match self.parse_statement_block_without_braces(scanner, &mut function_executable, body_bias) {
            Ok(_) => {},
            Err(e) => {
                return Err(e);
            },
        }
        let ghost w1 = whole_of(scanner, &function_executable);
        let ghost closed = self.s_closed(w1);
        proof {
            assert(self.s_body(ts, p0) == closed);
        }
        if function_executable.get_function_return_line_number().is_none() {
            let end_position = scanner.get_position();
            let count = function_executable.get_statement_count();
            if count >= 0x7fff_ffff || end_position.n > function_executable.as_source().len() {
                return Err(self.error(&end_position, "Tokens are out of order"));
            }
            let appended_line_number: LineNumber = (count + 1) as LineNumber;
            let mut return_builder = StatementBuilder::begin_statement(appended_line_number, end_position.n);
            let ghost e0 = function_executable;
            match return_builder.add_node(&mut function_executable, Node::FunctionReturn) {
                Ok(_) => {},
                Err(e) => {
                    return Err(e);
                },
            }
            proof {
                assert(return_builder.nodes().contains(e0.nodes().len() as usize));
                lemma_labels_stay(&e0, &function_executable);
            }
            if return_builder.is_empty() {
                return Err(self.error(&end_position, "Tokens are out of order"));
            }
            let ghost e1 = function_executable;
            return_builder.finish_statement(&mut function_executable, end_position.n);
            let ghost e2 = function_executable;
            function_executable.set_function_return_line_number(appended_line_number);
            proof {
                lemma_labels_stay(&e2, &function_executable);
                assert(return_builder.nodes() =~= Set::<usize>::empty().insert(e0.nodes().len() as usize));
                lemma_finished(
                    &e1,
                    &e2,
                    return_builder.nodes(),
                    e0.nodes().len() as usize,
                    None,
                    appended_line_number,
                );
            }
        }
        proof {
            assert(closed == Ok::<Whole, Seq<char>>(whole_of(scanner, &function_executable)));
        }
        let labels = match self.construct_label_database(&function_executable) {
            Ok(labels) => labels,
            Err(e) => {
                return Err(e);
            },
        };
        let node = Node::Definition(
            DefinitionNode::from_string(
                identifier_name,
                DefinitionType::Function(
                    FunctionDescription {
                        name: Name::from_string(identifier_name),
                        arguments: FunctionArgumentList::Fixed(formal_args),
                        local_variables: if local_variables.len() == 0 {
                            None
                        } else {
                            Some(local_variables)
                        },
                        return_value: Some(MetaDataTypeName::from_str("general")),
                        implementation_class: FunctionImplementation::User(
                            FunctionBody { executable: function_executable, labels: labels },
                        ),
                        help_text: String::from_str(""),
                    },
                ),
            ),
        );
        proof {
            reveal_strlit("");
            assert(""@ =~= Seq::<char>::empty());
            assert(self.is_function(node, identifier_name@, all_formals, all_locals, closed));
        }
        self.add(builder, executable, node, Ghost(base))
    }

    /// Parses the tokens of the source text into an executable. In a
    /// finished executable every node belongs to a statement.
    pub fn parse(&self, tokens: &Vec<Token>) -> (r: Result<Executable, String>)
        requires
            self.workspace().tables_wf(),
        ensures
            r matches Ok(executable) ==> executable.wf() && executable.complete() && executable.text()
                == self.text() && nodes_finished(&executable),
            match (r, self.s_statements(tokens@, self.outset(), self.bias())) {
                (Ok(executable), Ok(i)) => executable.nodes().len() == i.to.place.n && executable.return_line()
                    == i.to.ended && labelled(&executable) == i.to.labels,
                (Err(e), Err(m)) => e@ == m,
                _ => false,
            },
    {
        let mut executable = Executable::new(self.source);
        let mut scanner = TokenScanner::new(tokens);
        proof {
            assert(labelled(&executable) =~= Seq::empty());
            assert(whole_of(&scanner, &executable) == self.outset());
        }
        match self.parse_statement_block_without_braces(&mut scanner, &mut executable, self.line_number_bias) {
            Ok(_) => {
                proof {
                    assert forall|k: int| 0 <= k < executable.owners().len() implies (
                    #[trigger] executable.owners()[k]) is Some by {
                        assert(executable.owners()[k] is Some || Set::<usize>::empty().contains(k as usize));
                    }
                }
                Ok(executable)
            },
            Err(e) => Err(e),
        }
    }
}

} // verus!
