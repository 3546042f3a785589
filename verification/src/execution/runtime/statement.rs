//! A statement: a line of source and the nodes made from it.

use vstd::prelude::*;
use crate::lexical::LineNumber;
use crate::utility::{IndexSet, SetIterationToken};

verus! {

/// One statement of an executable: its line, its source, the nodes that
/// were made from it, and whether it is traced and whether execution
/// stops at it.
#[derive(Debug)]
pub struct Statement {
    source: String,
    line_number: LineNumber,
    node_indices: IndexSet,
    trace: bool,
    stop: bool,
}

impl Statement {
    /// The source of the statement.
    pub closed spec fn source(&self) -> Seq<char> {
        self.source@
    }

    /// The line of the statement.
    pub closed spec fn line(&self) -> LineNumber {
        self.line_number
    }

    /// The indices of the nodes of the statement, as they are kept.
    pub closed spec fn indices(&self) -> IndexSet {
        self.node_indices
    }

    /// The indices of the nodes of the statement.
    pub open spec fn nodes(&self) -> Set<usize> {
        self.indices()@
    }

    /// Whether the statement is traced.
    pub closed spec fn traced(&self) -> bool {
        self.trace
    }

    /// Whether execution stops at the statement.
    pub closed spec fn stops(&self) -> bool {
        self.stop
    }

    /// The invariant: the statement has nodes.
    pub open spec fn wf(&self) -> bool {
        self.indices().wf() && self.indices().runs().len() > 0
    }

    /// The least node index of the statement.
    pub fn as_first_node_index(&self) -> (r: usize)
        requires
            self.wf(),
        ensures
            self.nodes().contains(r),
            forall|x: usize| self.nodes().contains(x) ==> r <= x,
    {
        self.node_indices.least()
    }

    /// The greatest node index of the statement.
    pub fn as_last_node_index(&self) -> (r: usize)
        requires
            self.wf(),
        ensures
            self.nodes().contains(r),
            forall|x: usize| self.nodes().contains(x) ==> x <= r,
    {
        self.node_indices.greatest()
    }

    pub fn as_node_indices(&self) -> (r: &IndexSet)
        ensures
            *r == self.indices(),
    {
        &self.node_indices
    }

    pub fn as_line_number(&self) -> (r: LineNumber)
        ensures
            r == self.line(),
    {
        self.line_number
    }

    /// The second least node index of the statement, if it has two nodes.
    pub fn as_second_node_index(&self) -> (r: Option<usize>)
        requires
            self.wf(),
        ensures
            match r {
                Some(v) => {
                    &&& self.nodes().contains(v)
                    &&& exists|first: usize|
                        self.nodes().contains(first) && first < v && forall|x: usize|
                            self.nodes().contains(x) ==> x == first || v <= x
                },
                None => forall|x: usize, y: usize|
                    self.nodes().contains(x) && self.nodes().contains(y) ==> x == y,
            },
    {
        let mut token = SetIterationToken::new();
        let first = self.node_indices.next(&mut token);
        let second = self.node_indices.next(&mut token);
        proof {
            if first is Some && second is Some {
                let f = first->0;
                let v = second->0;
                assert(self.nodes().contains(f) && f < v);
                assert forall|x: usize| self.nodes().contains(x) implies x == f || v <= x by {
                    assert(f <= x);
                }
            }
            if first is Some && second is None {
                assert forall|x: usize, y: usize|
                    self.nodes().contains(x) && self.nodes().contains(y) implies x == y by {
                    assert(first->0 <= x && x < first->0 + 1);
                    assert(first->0 <= y && y < first->0 + 1);
                }
            }
            if first is None {
                assert(self.nodes().contains(self.indices().runs()[0].spec_first())) by {
                    assert(crate::utility::runs_hold(
                        self.indices().runs(),
                        self.indices().runs()[0].spec_first(),
                    ));
                }
            }
        }
        second
    }

    pub fn as_source(&self) -> (r: String)
        ensures
            r@ == self.source(),
    {
        self.source.clone()
    }

    pub fn is_stop_set(&self) -> (r: bool)
        ensures
            r == self.stops(),
    {
        self.stop
    }

    pub fn is_trace_set(&self) -> (r: bool)
        ensures
            r == self.traced(),
    {
        self.trace
    }

    pub fn new(line_number: u32, source: &str, node_indices: &IndexSet) -> (r: Statement)
        ensures
            r.line() == line_number,
            r.source() == source@,
            r.indices().runs() == node_indices.runs(),
            !r.traced(),
            !r.stops(),
    {
        Statement {
            source: String::from_str(source),
            line_number: line_number,
            node_indices: node_indices.clone(),
            trace: false,
            stop: false,
        }
    }

    pub fn set_stop(&mut self, value: bool)
        ensures
            final(self).stops() == value,
            final(self).traced() == old(self).traced(),
            final(self).source() == old(self).source(),
            final(self).line() == old(self).line(),
            final(self).indices() == old(self).indices(),
    {
        self.stop = value;
    }

    pub fn set_trace(&mut self, value: bool)
        ensures
            final(self).traced() == value,
            final(self).stops() == old(self).stops(),
            final(self).source() == old(self).source(),
            final(self).line() == old(self).line(),
            final(self).indices() == old(self).indices(),
    {
        self.trace = value;
    }
}

impl Clone for Statement {
    fn clone(&self) -> (r: Self)
        ensures
            r.line() == self.line(),
            r.source() == self.source(),
            r.indices().runs() == self.indices().runs(),
            r.traced() == self.traced(),
            r.stops() == self.stops(),
    {
        Statement {
            source: self.source.clone(),
            line_number: self.line_number,
            node_indices: self.node_indices.clone(),
            trace: self.trace,
            stop: self.stop,
        }
    }
}

} // verus!
