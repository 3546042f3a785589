//! An executable: parsed source, as nodes and statements.

use vstd::prelude::*;
use std::rc::Rc;
use crate::lexical::LineNumber;
use crate::parser::tree::Node;
use crate::text::{chars_of, string_of_range};
use crate::utility::{runs_hold, IndexSet};
use super::statement::Statement;

verus! {

/// Calls `Rc::clone`, which makes another pointer to the same allocation:
/// what the new pointer points to is what the old one points to.
#[verifier::external_body]
pub(crate) fn share<T>(rc: &Rc<T>) -> (r: Rc<T>)
    ensures
        r == *rc,
{
    rc.clone()
}

/// The outcome of parsing a source text: the nodes of the whole text, and
/// its statements, each with the nodes that were made from it.
pub struct Executable {
    source: Vec<char>,
    statements: Vec<Statement>,
    node_list: Vec<Rc<Node>>,
    statement_of_node: Vec<Option<usize>>,
    function_return_line_number: Option<LineNumber>,
}

/// Whether the statements stand in ascending order of their lines.
pub open spec fn lines_ascend(statements: Seq<Statement>) -> bool {
    forall|i: int, j: int|
        0 <= i < j < statements.len() ==> (#[trigger] statements[i]).line() < (#[trigger] statements[j]).line()
}

impl Executable {
    /// The source text.
    pub closed spec fn text(&self) -> Seq<char> {
        self.source@
    }

    /// The statements, in the order in which they were finished.
    pub closed spec fn statements(&self) -> Seq<Statement> {
        self.statements@
    }

    /// The nodes.
    pub closed spec fn nodes(&self) -> Seq<Rc<Node>> {
        self.node_list@
    }

    /// For each node the index of the statement it belongs to, counted
    /// from zero; `None` for a node of a statement that is not finished.
    pub closed spec fn owners(&self) -> Seq<Option<usize>> {
        self.statement_of_node@
    }

    /// The line of the statement that ends the function, if the
    /// executable is the body of a function.
    pub closed spec fn return_line(&self) -> Option<LineNumber> {
        self.function_return_line_number
    }

    /// The invariant: every statement has nodes, all of them nodes of the
    /// executable, and a node belongs to a statement exactly if the
    /// statement holds its index.
    pub open spec fn wf(&self) -> bool {
        &&& self.owners().len() == self.nodes().len()
        &&& self.statements().len() <= usize::MAX
        &&& self.nodes().len() <= usize::MAX
        &&& forall|i: int| 0 <= i < self.statements().len() ==> (#[trigger] self.statements()[i]).wf()
        &&& forall|i: int, x: usize|
            0 <= i < self.statements().len() && #[trigger] self.statements()[i].nodes().contains(x) ==> x
                < self.nodes().len() && self.owners()[x as int] == Some(i as usize)
        &&& forall|k: int|
            0 <= k < self.owners().len() ==> ((#[trigger] self.owners()[k]) matches Some(i) ==> i
                < self.statements().len() && self.statements()[i as int].nodes().contains(k as usize))
    }

    /// Whether every node belongs to a statement.
    pub open spec fn complete(&self) -> bool {
        forall|k: int| 0 <= k < self.owners().len() ==> (#[trigger] self.owners()[k]) is Some
    }

    /// Adds a node behind the nodes there are. The node belongs to no
    /// statement yet.
    pub fn add_node(&mut self, node: Node) -> (node_index: usize)
        requires
            old(self).wf(),
        ensures
            final(self).wf(),
            node_index == old(self).nodes().len(),
            final(self).nodes() == old(self).nodes().push(Rc::new(node)),
            final(self).owners() == old(self).owners().push(None),
            final(self).statements() == old(self).statements(),
            final(self).text() == old(self).text(),
            final(self).return_line() == old(self).return_line(),
    {
        self.node_list.push(Rc::new(node));
        self.statement_of_node.push(None);
        let node_index = self.node_list.len() - 1;
        let statement_count = self.statements.len();
        proof {
            assert forall|i: int, x: usize|
                0 <= i < self.statements().len() && #[trigger] self.statements()[i].nodes().contains(
                    x,
                ) implies x < self.nodes().len() && self.owners()[x as int] == Some(i as usize) by {
                assert(old(self).statements()[i].nodes().contains(x));
            }
            assert forall|k: int| 0 <= k < self.owners().len() implies ((#[trigger] self.owners()[k]) matches Some(
                i,
            ) ==> i < self.statements().len() && self.statements()[i as int].nodes().contains(
                k as usize,
            )) by {
                if k < old(self).owners().len() {
                    assert(self.owners()[k] == old(self).owners()[k]);
                }
            }
        }
        node_index
    }

    /// Records a finished statement: its line, its source, which is the
    /// source text from one character index up to another, and its nodes,
    /// which from now on belong to it.
    #[verifier::loop_isolation(false)]
    pub fn add_statement(
        &mut self,
        line_number: LineNumber,
        starting_offset: usize,
        ending_offset: usize,
        node_indices: &IndexSet,
    ) -> (statement_index: usize)
        requires
            old(self).wf(),
            starting_offset <= ending_offset <= old(self).text().len(),
            node_indices.wf(),
            node_indices.runs().len() > 0,
            forall|x: usize|
                node_indices@.contains(x) ==> x < old(self).nodes().len() && old(self).owners()[x as int]
                    is None,
        ensures
            final(self).wf(),
            statement_index == old(self).statements().len(),
            final(self).statements().len() == old(self).statements().len() + 1,
            final(self).statements().drop_last() == old(self).statements(),
            final(self).statements().last().line() == line_number,
            final(self).statements().last().source() == old(self).text().subrange(
                starting_offset as int,
                ending_offset as int,
            ),
            final(self).statements().last().nodes() == node_indices@,
            final(self).nodes() == old(self).nodes(),
            final(self).text() == old(self).text(),
            final(self).return_line() == old(self).return_line(),
            final(self).owners().len() == old(self).owners().len(),
            forall|k: int|
                0 <= k < old(self).owners().len() ==> #[trigger] final(self).owners()[k] == if node_indices@.contains(
                    k as usize,
                ) {
                    Some(old(self).statements().len() as usize)
                } else {
                    old(self).owners()[k]
                },
    {
        let source = string_of_range(&self.source, starting_offset, ending_offset);
        let statement = Statement::new(line_number, source.as_str(), node_indices);
        let index: usize = self.statements.len();
        let runs = node_indices.as_members();
        let ghost before = self.statement_of_node@;
        let node_count = self.statement_of_node.len();
        assert(before.len() == node_count);
        let mut r: usize = 0;
        while r < runs.len()
            invariant
                r <= runs.len(),
                runs@ == node_indices.runs(),
                self.statement_of_node@.len() == before.len(),
                self.node_list@ == old(self).node_list@,
                self.statements@ == old(self).statements@,
                self.source@ == old(self).source@,
                self.function_return_line_number == old(self).function_return_line_number,
                forall|k: int|
                    0 <= k < before.len() ==> #[trigger] self.statement_of_node@[k] == if runs_hold(
                        runs@.take(r as int),
                        k as usize,
                    ) {
                        Some(index)
                    } else {
                        before[k]
                    },
            decreases runs.len() - r,
        {
            let first = runs[r].get_first();
            let last = runs[r].get_last();
            proof {
                assert(runs_hold(runs@, last));
                assert(node_indices@.contains(last));
            }
            let mut x: usize = first;
            while x <= last
                invariant
                    first <= x <= last + 1,
                    last < before.len(),
                    self.statement_of_node@.len() == before.len(),
                    self.node_list@ == old(self).node_list@,
                    self.statements@ == old(self).statements@,
                    self.source@ == old(self).source@,
                    self.function_return_line_number == old(self).function_return_line_number,
                    forall|k: int|
                        0 <= k < before.len() ==> #[trigger] self.statement_of_node@[k] == if runs_hold(
                            runs@.take(r as int),
                            k as usize,
                        ) || (first <= k < x) {
                            Some(index)
                        } else {
                            before[k]
                        },
                decreases last + 1 - x,
            {
                self.statement_of_node.set(x, Some(index));
                x += 1;
            }
            proof {
                let taken = runs@.take(r as int + 1);
                assert forall|k: int| 0 <= k < before.len() implies (#[trigger] runs_hold(
                    taken,
                    k as usize,
                ) <==> (runs_hold(runs@.take(r as int), k as usize) || (first <= k <= last))) by {
                    let shorter = runs@.take(r as int);
                    assert(taken.len() == r + 1 && shorter.len() == r);
                    assert(taken[r as int] == runs@[r as int]);
                    if runs_hold(taken, k as usize) {
                        let i = choose|i: int|
                            0 <= i < taken.len() && (#[trigger] taken[i]).spec_first() <= k as usize
                                <= taken[i].spec_last();
                        if i < r {
                            assert(shorter[i] == taken[i]);
                            assert(shorter[i].spec_first() <= k as usize <= shorter[i].spec_last());
                            assert(runs_hold(shorter, k as usize));
                        }
                    }
                    if runs_hold(shorter, k as usize) {
                        let i = choose|i: int|
                            0 <= i < shorter.len() && (#[trigger] shorter[i]).spec_first() <= k as usize
                                <= shorter[i].spec_last();
                        assert(taken[i] == shorter[i]);
                        assert(taken[i].spec_first() <= k as usize <= taken[i].spec_last());
                        assert(runs_hold(taken, k as usize));
                    }
                    if first <= k <= last {
                        assert(taken[r as int].spec_first() <= k as usize <= taken[r as int].spec_last());
                        assert(runs_hold(taken, k as usize));
                    }
                }
            }
            r += 1;
        }
        self.statements.push(statement);
        let statement_count = self.statements.len();
        proof {
            assert(runs@.take(runs.len() as int) =~= runs@);
            assert(self.statements@.drop_last() =~= old(self).statements@);
            assert(self.statements@.last().nodes() =~= node_indices@);
            assert forall|i: int, x: usize|
                0 <= i < self.statements().len() && #[trigger] self.statements()[i].nodes().contains(
                    x,
                ) implies x < self.nodes().len() && self.owners()[x as int] == Some(i as usize) by {
                if i < index {
                    assert(self.statements()[i] == old(self).statements()[i]);
                    assert(old(self).statements()[i].nodes().contains(x));
                    assert(!node_indices@.contains(x));
                } else {
                    assert(node_indices@.contains(x));
                }
            }
            assert forall|k: int| 0 <= k < self.owners().len() implies ((#[trigger] self.owners()[k]) matches Some(
                i,
            ) ==> i < self.statements().len() && self.statements()[i as int].nodes().contains(
                k as usize,
            )) by {
                if !node_indices@.contains(k as usize) {
                    assert(self.owners()[k] == old(self).owners()[k]);
                    if old(self).owners()[k] is Some {
                        let i = old(self).owners()[k]->0;
                        assert(self.statements()[i as int] == old(self).statements()[i as int]);
                    }
                }
            }
            assert forall|i: int| 0 <= i < self.statements().len() implies (#[trigger] self.statements()[i]).wf() by {
                if i < index {
                    assert(self.statements()[i] == old(self).statements()[i]);
                }
            }
        }
        index
    }

    /// Whether the executable is a copy of another: the same text, the
    /// same nodes, and statements with the same lines, nodes and flags.
    pub open spec fn same_program(&self, other: &Executable) -> bool {
        &&& self.text() == other.text()
        &&& self.nodes() == other.nodes()
        &&& self.owners() == other.owners()
        &&& self.return_line() == other.return_line()
        &&& self.statements().len() == other.statements().len()
        &&& forall|i: int|
            0 <= i < other.statements().len() ==> (#[trigger] self.statements()[i]).line()
                == other.statements()[i].line() && self.statements()[i].source() == other.statements()[i].source()
                && self.statements()[i].indices().runs() == other.statements()[i].indices().runs()
                && self.statements()[i].stops() == other.statements()[i].stops() && self.statements()[i].traced()
                == other.statements()[i].traced()
    }

    /// A copy of the executable that shares its nodes.
    pub fn duplicate(&self) -> (r: Executable)
        requires
            self.wf(),
        ensures
            r.wf(),
            r.same_program(self),
            r.text() == self.text(),
            r.nodes() == self.nodes(),
            r.owners() == self.owners(),
            r.return_line() == self.return_line(),
            r.statements().len() == self.statements().len(),
            forall|i: int|
                0 <= i < self.statements().len() ==> (#[trigger] r.statements()[i]).line()
                    == self.statements()[i].line() && r.statements()[i].source() == self.statements()[i].source()
                    && r.statements()[i].indices().runs() == self.statements()[i].indices().runs()
                    && r.statements()[i].stops() == self.statements()[i].stops() && r.statements()[i].traced()
                    == self.statements()[i].traced(),
            self.complete() ==> r.complete(),
    {
        let mut source: Vec<char> = Vec::new();
        let mut i: usize = 0;
        while i < self.source.len()
            invariant
                i <= self.source.len(),
                source@ == self.source@.subrange(0, i as int),
            decreases self.source.len() - i,
        {
            source.push(self.source[i]);
            i += 1;
            assert(source@ =~= self.source@.subrange(0, i as int));
        }
        assert(self.source@.subrange(0, self.source.len() as int) =~= self.source@);
        let mut statements: Vec<Statement> = Vec::new();
        let mut i: usize = 0;
        while i < self.statements.len()
            invariant
                i <= self.statements.len(),
                statements@.len() == i,
                forall|k: int|
                    0 <= k < i ==> (#[trigger] statements@[k]).line() == self.statements@[k].line()
                        && statements@[k].source() == self.statements@[k].source()
                        && statements@[k].indices().runs() == self.statements@[k].indices().runs()
                        && statements@[k].stops() == self.statements@[k].stops() && statements@[k].traced()
                        == self.statements@[k].traced(),
            decreases self.statements.len() - i,
        {
            statements.push(self.statements[i].clone());
            i += 1;
        }
        let mut node_list: Vec<Rc<Node>> = Vec::new();
        let mut i: usize = 0;
        while i < self.node_list.len()
            invariant
                i <= self.node_list.len(),
                node_list@ == self.node_list@.subrange(0, i as int),
            decreases self.node_list.len() - i,
        {
            node_list.push(share(&self.node_list[i]));
            i += 1;
            assert(node_list@ =~= self.node_list@.subrange(0, i as int));
        }
        assert(self.node_list@.subrange(0, self.node_list.len() as int) =~= self.node_list@);
        let mut statement_of_node: Vec<Option<usize>> = Vec::new();
        let mut i: usize = 0;
        while i < self.statement_of_node.len()
            invariant
                i <= self.statement_of_node.len(),
                statement_of_node@ == self.statement_of_node@.subrange(0, i as int),
            decreases self.statement_of_node.len() - i,
        {
            statement_of_node.push(self.statement_of_node[i]);
            i += 1;
            assert(statement_of_node@ =~= self.statement_of_node@.subrange(0, i as int));
        }
        assert(self.statement_of_node@.subrange(0, self.statement_of_node.len() as int)
            =~= self.statement_of_node@);
        let r = Executable {
            source: source,
            statements: statements,
            node_list: node_list,
            statement_of_node: statement_of_node,
            function_return_line_number: self.function_return_line_number,
        };
        proof {
            assert forall|i: int| 0 <= i < r.statements().len() implies (#[trigger] r.statements()[i]).wf() by {
                assert(self.statements()[i].wf());
            }
            assert forall|i: int, x: usize|
                0 <= i < r.statements().len() && #[trigger] r.statements()[i].nodes().contains(x) implies x
                < r.nodes().len() && r.owners()[x as int] == Some(i as usize) by {
                assert(r.statements()[i].nodes() =~= self.statements()[i].nodes());
                assert(self.statements()[i].nodes().contains(x));
            }
            assert forall|k: int| 0 <= k < r.owners().len() implies ((#[trigger] r.owners()[k]) matches Some(
                i,
            ) ==> i < r.statements().len() && r.statements()[i as int].nodes().contains(k as usize)) by {
                if r.owners()[k] is Some {
                    let i = r.owners()[k]->0;
                    assert(self.owners()[k] == Some(i));
                    assert(r.statements()[i as int].nodes() =~= self.statements()[i as int].nodes());
                }
            }
        }
        r
    }

    pub fn as_source(&self) -> (r: &Vec<char>)
        ensures
            r@ == self.text(),
    {
        &self.source
    }

    pub fn get_function_return_line_number(&self) -> (r: Option<LineNumber>)
        ensures
            r == self.return_line(),
    {
        self.function_return_line_number
    }

    pub fn get_last_node_index(&self) -> (r: Option<usize>)
        ensures
            r == if self.nodes().len() == 0 {
                None
            } else {
                Some((self.nodes().len() - 1) as usize)
            },
    {
        if self.node_list.len() == 0 {
            None
        } else {
            Some(self.node_list.len() - 1)
        }
    }

    pub fn get_last_statement(&self) -> (r: Option<&Statement>)
        ensures
            match r {
                Some(s) => self.statements().len() > 0 && *s == self.statements().last(),
                None => self.statements().len() == 0,
            },
    {
        if self.statements.len() == 0 {
            None
        } else {
            Some(&self.statements[self.statements.len() - 1])
        }
    }

    /// The index, counted from zero, of the statement that a node belongs to.
    pub fn get_statement_number_from_node_index(&self, node_index: usize) -> (r: Option<usize>)
        requires
            self.wf(),
        ensures
            r == if node_index < self.owners().len() {
                self.owners()[node_index as int]
            } else {
                None
            },
            r matches Some(i) ==> i < self.statements().len(),
    {
        if node_index < self.statement_of_node.len() {
            self.statement_of_node[node_index]
        } else {
            None
        }
    }

    /// The statement that a node belongs to.
    pub fn get_statement_from_node_index(&self, node_index: usize) -> (r: Option<&Statement>)
        requires
            self.wf(),
        ensures
            match r {
                Some(s) => node_index < self.owners().len() && self.owners()[node_index as int] is Some
                    && *s == self.statements()[self.owners()[node_index as int]->0 as int]
                    && s.nodes().contains(node_index),
                None => node_index >= self.owners().len() || self.owners()[node_index as int] is None,
            },
    {
        match self.get_statement_number_from_node_index(node_index) {
            Some(i) => Some(&self.statements[i]),
            None => None,
        }
    }

    /// The node with an index, shared with the executable.
    pub fn share_node(&self, index: usize) -> (r: Rc<Node>)
        requires
            index < self.nodes().len(),
        ensures
            r == self.nodes()[index as int],
    {
        share(&self.node_list[index])
    }

    pub fn get_node(&self, index: usize) -> (r: &Node)
        requires
            index < self.nodes().len(),
        ensures
            *r == *self.nodes()[index as int],
    {
        &self.node_list[index]
    }

    pub fn get_next_node_index(&self) -> (r: usize)
        ensures
            r == self.nodes().len(),
    {
        self.node_list.len()
    }

    /// The statement with the given index; statements count from one.
    pub fn get_statement(&self, statement_index: usize) -> (r: Option<&Statement>)
        ensures
            match r {
                Some(s) => 0 < statement_index <= self.statements().len() && *s == self.statements()[
                    statement_index - 1],
                None => statement_index == 0 || statement_index > self.statements().len(),
            },
    {
        if statement_index > 0 && statement_index <= self.statements.len() {
            Some(&self.statements[statement_index - 1])
        } else {
            None
        }
    }

    pub fn get_statement_count(&self) -> (r: usize)
        ensures
            r == self.statements().len(),
    {
        self.statements.len()
    }

    /// The statement on a line, found by bisection.
    pub fn get_statement_by_line_number(&self, line_number: LineNumber) -> (r: Option<&Statement>)
        ensures
            match crate::workspace::bisected(self.statements(), line_number, 0, self.statements().len() as int) {
                Some(i) => 0 <= i < self.statements().len() && r == Some(&self.statements()[i]),
                None => r is None,
            },
            r matches Some(s) ==> s.line() == line_number && exists|i: int|
                0 <= i < self.statements().len() && self.statements()[i] == *s,
            lines_ascend(self.statements()) && r is None ==> forall|i: int|
                0 <= i < self.statements().len() ==> (#[trigger] self.statements()[i]).line() != line_number,
    {
        match self.get_statement_index_by_line_number(line_number) {
            Some(i) => Some(&self.statements[i - 1]),
            None => None,
        }
    }

    /// The index, counted from one, of the statement on a line, found by
    /// bisection. Where the statements stand in ascending order of their
    /// lines it is found if there is one.
    pub fn get_statement_index_by_line_number(&self, line_number: LineNumber) -> (r: Option<usize>)
        ensures
            r matches Some(i) ==> 0 < i <= self.statements().len() && self.statements()[i - 1].line()
                == line_number,
            match r {
                Some(i) => crate::workspace::bisected(
                    self.statements(),
                    line_number,
                    0,
                    self.statements().len() as int,
                ) == Some(i - 1),
                None => crate::workspace::bisected(
                    self.statements(),
                    line_number,
                    0,
                    self.statements().len() as int,
                ) is None,
            },
            lines_ascend(self.statements()) && r is None ==> forall|i: int|
                0 <= i < self.statements().len() ==> (#[trigger] self.statements()[i]).line() != line_number,
    {
        let mut low: usize = 0;
        let mut high: usize = self.statements.len();
        while low < high
            invariant
                low <= high <= self.statements.len(),
                crate::workspace::bisected(self.statements(), line_number, low as int, high as int)
                    == crate::workspace::bisected(
                    self.statements(),
                    line_number,
                    0,
                    self.statements().len() as int,
                ),
                lines_ascend(self.statements()) ==> forall|i: int|
                    0 <= i < low ==> (#[trigger] self.statements()[i]).line() < line_number,
                lines_ascend(self.statements()) ==> forall|i: int|
                    high <= i < self.statements().len() ==> (#[trigger] self.statements()[i]).line()
                        > line_number,
            decreases high - low,
        {
            let target: usize = low + (high - low) / 2;
            let line = self.statements[target].as_line_number();
            if line == line_number {
                return Some(target + 1);
            } else if line > line_number {
                high = target;
            } else {
                low = target + 1;
            }
        }
        None
    }

    pub fn is_first_executable_node(&self, statement: &Statement, node_index: usize) -> (r: bool)
        requires
            statement.wf(),
        ensures
            r == (statement.nodes().contains(node_index) && forall|x: usize|
                statement.nodes().contains(x) ==> node_index <= x),
    {
        node_index == statement.as_first_node_index()
    }

    pub fn is_last_executable_node(&self, statement: &Statement, node_index: usize) -> (r: bool)
        requires
            statement.wf(),
        ensures
            r == (statement.nodes().contains(node_index) && forall|x: usize|
                statement.nodes().contains(x) ==> x <= node_index),
    {
        node_index == statement.as_last_node_index()
    }

    /// Whether bisection finds a statement on a line.
    pub fn is_line_number_valid(&self, line_number: LineNumber) -> (r: bool)
        ensures
            r == (crate::workspace::bisected(self.statements(), line_number, 0, self.statements().len() as int)
                is Some),
            r ==> exists|i: int|
                0 <= i < self.statements().len() && (#[trigger] self.statements()[i]).line() == line_number,
            lines_ascend(self.statements()) && !r ==> forall|i: int|
                0 <= i < self.statements().len() ==> (#[trigger] self.statements()[i]).line() != line_number,
    {
        match self.get_statement_index_by_line_number(line_number) {
            Some(i) => {
                assert(self.statements()[i - 1].line() == line_number);
                true
            },
            None => false,
        }
    }

    pub fn new(source: &str) -> (r: Executable)
        ensures
            r.wf(),
            r.text() == source@,
            r.nodes().len() == 0,
            r.statements().len() == 0,
            r.return_line() is None,
            r.complete(),
    {
        Executable {
            source: chars_of(source),
            statements: Vec::new(),
            node_list: Vec::new(),
            statement_of_node: Vec::new(),
            function_return_line_number: None,
        }
    }

    /// Puts a node in the place of another. The new node belongs to the
    /// statement the old one belonged to.
    pub fn replace_node(&mut self, position: usize, node: Node)
        requires
            position < old(self).nodes().len(),
        ensures
            final(self).nodes() == old(self).nodes().update(position as int, Rc::new(node)),
            final(self).owners() == old(self).owners(),
            final(self).statements() == old(self).statements(),
            final(self).text() == old(self).text(),
            final(self).return_line() == old(self).return_line(),
    {
        self.node_list.set(position, Rc::new(node));
    }

    pub fn set_function_return_line_number(&mut self, function_return_line_number: LineNumber)
        ensures
            final(self).return_line() == Some(function_return_line_number),
            final(self).nodes() == old(self).nodes(),
            final(self).owners() == old(self).owners(),
            final(self).statements() == old(self).statements(),
            final(self).text() == old(self).text(),
    {
        self.function_return_line_number = Some(function_return_line_number);
    }

    /// Sets or clears the stop flag of the statement with the given
    /// index, counted from zero.
    pub fn set_stop(&mut self, statement: usize, value: bool)
        requires
            old(self).wf(),
            statement < old(self).statements().len(),
        ensures
            final(self).wf(),
            final(self).nodes() == old(self).nodes(),
            final(self).owners() == old(self).owners(),
            final(self).text() == old(self).text(),
            final(self).return_line() == old(self).return_line(),
            final(self).statements().len() == old(self).statements().len(),
            final(self).statements()[statement as int].stops() == value,
            final(self).statements()[statement as int].traced() == old(self).statements()[statement as int].traced(),
            forall|i: int|
                0 <= i < old(self).statements().len() ==> (#[trigger] final(self).statements()[i]).indices()
                    == old(self).statements()[i].indices() && final(self).statements()[i].line() == old(self).statements()[i].line() && final(self).statements()[i].source() == old(self).statements()[i].source() && (i != statement ==> final(self).statements()[i] == old(self).statements()[i]),
    {
        let mut s = self.statements[statement].clone();
        proof {
            assert(s.indices().runs() == old(self).statements()[statement as int].indices().runs());
        }
        let ghost original = old(self).statements()[statement as int];
        let mut changed = self.statements.remove(statement);
        changed.set_stop(value);
        self.statements.insert(statement, changed);
        let statement_count = self.statements.len();
        proof {
            assert forall|i: int| 0 <= i < old(self).statements().len() implies (
            #[trigger] self.statements()[i]).indices() == old(self).statements()[i].indices()
                && self.statements()[i].line() == old(self).statements()[i].line()
                && self.statements()[i].source() == old(self).statements()[i].source() && (i
                != statement ==> self.statements()[i] == old(self).statements()[i]) by {}
            assert forall|i: int, x: usize|
                0 <= i < self.statements().len() && #[trigger] self.statements()[i].nodes().contains(
                    x,
                ) implies x < self.nodes().len() && self.owners()[x as int] == Some(i as usize) by {
                assert(old(self).statements()[i].nodes().contains(x));
            }
            assert forall|k: int| 0 <= k < self.owners().len() implies ((#[trigger] self.owners()[k]) matches Some(
                i,
            ) ==> i < self.statements().len() && self.statements()[i as int].nodes().contains(
                k as usize,
            )) by {
                if self.owners()[k] is Some {
                    let i = self.owners()[k]->0;
                    assert(old(self).owners()[k] == Some(i));
                    assert(old(self).statements()[i as int].nodes().contains(k as usize));
                    assert(self.statements()[i as int].indices() == old(self).statements()[i as int].indices());
                }
            }
            assert forall|i: int| 0 <= i < self.statements().len() implies (#[trigger] self.statements()[i]).wf() by {
                assert(old(self).statements()[i].wf());
                assert(self.statements()[i].indices() == old(self).statements()[i].indices());
            }
        }
    }

    /// Sets or clears the trace flag of the statement with the given
    /// index, counted from zero.
    pub fn set_trace(&mut self, statement: usize, value: bool)
        requires
            old(self).wf(),
            statement < old(self).statements().len(),
        ensures
            final(self).wf(),
            final(self).nodes() == old(self).nodes(),
            final(self).owners() == old(self).owners(),
            final(self).text() == old(self).text(),
            final(self).return_line() == old(self).return_line(),
            final(self).statements().len() == old(self).statements().len(),
            final(self).statements()[statement as int].traced() == value,
            final(self).statements()[statement as int].stops() == old(self).statements()[statement as int].stops(),
            forall|i: int|
                0 <= i < old(self).statements().len() ==> (#[trigger] final(self).statements()[i]).indices()
                    == old(self).statements()[i].indices() && final(self).statements()[i].line() == old(self).statements()[i].line() && final(self).statements()[i].source() == old(self).statements()[i].source() && (i != statement ==> final(self).statements()[i] == old(self).statements()[i]),
    {
        let mut s = self.statements[statement].clone();
        proof {
            assert(s.indices().runs() == old(self).statements()[statement as int].indices().runs());
        }
        let ghost original = old(self).statements()[statement as int];
        let mut changed = self.statements.remove(statement);
        changed.set_trace(value);
        self.statements.insert(statement, changed);
        let statement_count = self.statements.len();
        proof {
            assert forall|i: int| 0 <= i < old(self).statements().len() implies (
            #[trigger] self.statements()[i]).indices() == old(self).statements()[i].indices()
                && self.statements()[i].line() == old(self).statements()[i].line()
                && self.statements()[i].source() == old(self).statements()[i].source() && (i
                != statement ==> self.statements()[i] == old(self).statements()[i]) by {}
            assert forall|i: int, x: usize|
                0 <= i < self.statements().len() && #[trigger] self.statements()[i].nodes().contains(
                    x,
                ) implies x < self.nodes().len() && self.owners()[x as int] == Some(i as usize) by {
                assert(old(self).statements()[i].nodes().contains(x));
            }
            assert forall|k: int| 0 <= k < self.owners().len() implies ((#[trigger] self.owners()[k]) matches Some(
                i,
            ) ==> i < self.statements().len() && self.statements()[i as int].nodes().contains(
                k as usize,
            )) by {
                if self.owners()[k] is Some {
                    let i = self.owners()[k]->0;
                    assert(old(self).owners()[k] == Some(i));
                    assert(old(self).statements()[i as int].nodes().contains(k as usize));
                    assert(self.statements()[i as int].indices() == old(self).statements()[i as int].indices());
                }
            }
            assert forall|i: int| 0 <= i < self.statements().len() implies (#[trigger] self.statements()[i]).wf() by {
                assert(old(self).statements()[i].wf());
                assert(self.statements()[i].indices() == old(self).statements()[i].indices());
            }
        }
    }
}

/// Every node of a finished executable belongs to exactly one statement:
/// one statement holds its index, and no other does.
pub proof fn law_one_statement_for_each_node(e: Executable, k: usize)
    requires
        e.wf(),
        e.complete(),
        k < e.nodes().len(),
    ensures
        exists|i: int|
            0 <= i < e.statements().len() && (#[trigger] e.statements()[i]).nodes().contains(k) && forall|
                j: int,
            |
                0 <= j < e.statements().len() && (#[trigger] e.statements()[j]).nodes().contains(k) ==> j
                    == i,
{
    let i = e.owners()[k as int]->0 as int;
    assert(e.owners()[k as int] is Some);
    assert(e.statements()[i].nodes().contains(k));
    assert forall|j: int|
        0 <= j < e.statements().len() && (#[trigger] e.statements()[j]).nodes().contains(k) implies j
        == i by {
        assert(e.statements()[j].nodes().contains(k));
        assert(e.owners()[k as int] == Some(j as usize));
    }
}

} // verus!
