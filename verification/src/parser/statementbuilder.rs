//! What is known of a statement while it is being parsed.

use vstd::prelude::*;
use crate::execution::runtime::executable::Executable;
use crate::lexical::LineNumber;
use crate::parser::tree::Node;
use crate::utility::IndexSet;
use std::rc::Rc;

verus! {

/// The most nodes an executable may have.
pub const MAX_NODES: usize = 0x7fff_fff0;

/// The message for a program with too many nodes.
pub open spec fn too_large_message() -> Seq<char> {
    "Program is too large"@
}

/// A statement that is being parsed: its line, where its source starts,
/// and the nodes made from it so far.
pub struct StatementBuilder {
    statement_line_number: LineNumber,
    statement_starting_offset: usize,
    statement_node_indices: IndexSet,
}

impl StatementBuilder {
    /// The line of the statement.
    pub closed spec fn line(&self) -> LineNumber {
        self.statement_line_number
    }

    /// The index of the character at which the source of the statement starts.
    pub closed spec fn offset(&self) -> usize {
        self.statement_starting_offset
    }

    /// The nodes made so far, as they are kept.
    pub closed spec fn indices(&self) -> IndexSet {
        self.statement_node_indices
    }

    /// The nodes made so far.
    pub open spec fn nodes(&self) -> Set<usize> {
        self.indices()@
    }

    /// Whether the nodes of the builder are nodes of the executable that
    /// belong to no statement yet.
    pub open spec fn pending_in(&self, executable: &Executable) -> bool {
        &&& self.indices().wf()
        &&& forall|x: usize|
            #[trigger] self.nodes().contains(x) ==> x < executable.nodes().len()
                && executable.owners()[x as int] is None
    }

    /// Adds a node to the executable and to the statement. Fails where
    /// the executable is full.
    pub fn add_node(&mut self, executable: &mut Executable, node: Node) -> (r: Result<usize, String>)
        requires
            old(executable).wf(),
            old(self).pending_in(old(executable)),
        ensures
            final(self).line() == old(self).line(),
            final(self).offset() == old(self).offset(),
            match r {
                Ok(node_index) => {
                    &&& old(executable).nodes().len() < MAX_NODES
                    &&& node_index == old(executable).nodes().len()
                    &&& final(executable).wf()
                    &&& final(executable).nodes() == old(executable).nodes().push(Rc::new(node))
                    &&& final(executable).owners() == old(executable).owners().push(None)
                    &&& final(executable).statements() == old(executable).statements()
                    &&& final(executable).text() == old(executable).text()
                    &&& final(executable).return_line() == old(executable).return_line()
                    &&& final(self).nodes() == old(self).nodes().insert(node_index)
                    &&& final(self).pending_in(final(executable))
                },
                Err(e) => {
                    &&& old(executable).nodes().len() >= MAX_NODES
                    &&& e@ == too_large_message()
                    &&& *final(executable) == *old(executable)
                    &&& final(self).indices() == old(self).indices()
                },
            },
    {
        if executable.get_next_node_index() >= MAX_NODES {
            return Err(String::from_str("Program is too large"));
        }
        let node_index = executable.add_node(node);
        proof {
            if self.nodes().contains(node_index) {
                assert(node_index < old(executable).nodes().len());
            }
        }
        self.statement_node_indices.add(node_index);
        proof {
            assert forall|x: usize| #[trigger] self.nodes().contains(x) implies x < executable.nodes().len()
                && executable.owners()[x as int] is None by {
                if x != node_index {
                    assert(old(self).nodes().contains(x));
                }
            }
        }
        Ok(node_index)
    }

    pub fn as_starting_line_number(&self) -> (r: LineNumber)
        ensures
            r == self.line(),
    {
        self.statement_line_number
    }

    pub fn begin_statement(line_number: LineNumber, offset: usize) -> (r: StatementBuilder)
        ensures
            r.line() == line_number,
            r.offset() == offset,
            r.indices().wf(),
            r.nodes() == Set::<usize>::empty(),
    {
        StatementBuilder {
            statement_line_number: line_number,
            statement_starting_offset: offset,
            statement_node_indices: IndexSet::new(),
        }
    }

    /// Whether the statement has no node yet.
    pub fn is_empty(&self) -> (r: bool)
        requires
            self.indices().wf(),
        ensures
            r == (self.nodes() == Set::<usize>::empty()),
            r == (self.indices().runs().len() == 0),
    {
        let r = self.statement_node_indices.run_count() == 0;
        let e = self.statement_node_indices.is_empty();
        proof {
            if r {
                assert(self.nodes() =~= Set::<usize>::empty()) by {
                    assert forall|x: usize| !self.nodes().contains(x) by {
                        if crate::utility::runs_hold(self.indices().runs(), x) {
                            let i = choose|i: int|
                                0 <= i < self.indices().runs().len() && (
                                #[trigger] self.indices().runs()[i]).spec_first() <= x
                                    <= self.indices().runs()[i].spec_last();
                        }
                    }
                }
            } else {
                let x = self.indices().runs()[0].spec_first();
                assert(crate::utility::runs_hold(self.indices().runs(), x));
                assert(self.nodes().contains(x));
            }
        }
        r
    }

    /// Records the statement in the executable. Its source reaches from
    /// where it started up to the given index.
    pub fn finish_statement(&mut self, executable: &mut Executable, ending_offset: usize)
        requires
            old(executable).wf(),
            old(self).pending_in(old(executable)),
            old(self).indices().runs().len() > 0,
            old(self).offset() <= ending_offset <= old(executable).text().len(),
        ensures
            final(executable).wf(),
            final(executable).nodes() == old(executable).nodes(),
            final(executable).text() == old(executable).text(),
            final(executable).return_line() == old(executable).return_line(),
            final(executable).statements().len() == old(executable).statements().len() + 1,
            final(executable).statements().drop_last() == old(executable).statements(),
            final(executable).statements().last().line() == old(self).line(),
            final(executable).statements().last().nodes() == old(self).nodes(),
            final(executable).owners().len() == old(executable).owners().len(),
            forall|k: int|
                0 <= k < old(executable).owners().len() ==> #[trigger] final(executable).owners()[k]
                    == if old(self).nodes().contains(k as usize) {
                    Some(old(executable).statements().len() as usize)
                } else {
                    old(executable).owners()[k]
                },
            *final(self) == *old(self),
    {
        proof {
            assert forall|x: usize| self.statement_node_indices@.contains(x) implies x
                < executable.nodes().len() && executable.owners()[x as int] is None by {
                assert(self.nodes().contains(x));
            }
        }
        executable.add_statement(
            self.statement_line_number,
            self.statement_starting_offset,
            ending_offset,
            &self.statement_node_indices,
        );
    }

    /// Puts a node in the place of another.
    pub fn replace_node(&mut self, executable: &mut Executable, node_index: usize, new_node: Node)
        requires
            node_index < old(executable).nodes().len(),
        ensures
            final(executable).nodes() == old(executable).nodes().update(node_index as int, Rc::new(new_node)),
            final(executable).owners() == old(executable).owners(),
            final(executable).statements() == old(executable).statements(),
            final(executable).text() == old(executable).text(),
            final(executable).return_line() == old(executable).return_line(),
            *final(self) == *old(self),
    {
        executable.replace_node(node_index, new_node);
    }
}

} // verus!
