//! An invocation: one frame of the execution of an executable.

use vstd::prelude::*;
use crate::lexical::LineNumber;
use crate::symbols::metadata::VariableDescription;
use crate::symbols::name::Name;
use crate::symbols::SymbolTable;
use super::executable::Executable;
use super::statement::Statement;

verus! {

/// Where an invocation stands.
#[derive(Clone, Copy, Debug, PartialEq, Eq, Structural)]
pub enum ExecutionState {
    NotExecuting,
    Stopped,
    Resumed,
    Executing,
}

/// What belongs to the invocation of a user function: which function it
/// is, and its local variables.
pub struct FunctionInvocationBlock {
    pub function_name: Name,
    pub variable_symbol_table: SymbolTable<VariableDescription>,
}

impl FunctionInvocationBlock {
    pub fn new(function_name: Name) -> (r: FunctionInvocationBlock)
        ensures
            r.function_name@ == function_name@,
            r.variable_symbol_table.wf(),
            r.variable_symbol_table.keys().len() == 0,
    {
        FunctionInvocationBlock { function_name: function_name, variable_symbol_table: SymbolTable::new() }
    }
}

/// The message for a jump to a line outside a function.
pub open spec fn only_inside_functions_message() -> Seq<char> {
    "--> can only be used inside functions or to resume a stopped function"@
}

/// One frame of execution: the executable that is run, the locals of the
/// function if it is the body of one, how deep the value stack was when
/// the frame was entered, the node that is run and the node that comes
/// next, a jump that waits for the end of the statement, and the state.
pub struct Invocation {
    executable: Executable,
    execution_state: ExecutionState,
    fib: Option<FunctionInvocationBlock>,
    base_stack_size: usize,
    current_node_index: Option<usize>,
    next_node_index: usize,
    pending_goto_index: Option<usize>,
}

impl Invocation {
    /// The executable that is run.
    pub closed spec fn executable(&self) -> Executable {
        self.executable
    }

    /// The state.
    pub closed spec fn state(&self) -> ExecutionState {
        self.execution_state
    }

    /// What belongs to the invocation of a user function.
    pub closed spec fn block(&self) -> Option<FunctionInvocationBlock> {
        self.fib
    }

    /// How deep the value stack was when the frame was entered.
    pub closed spec fn base(&self) -> usize {
        self.base_stack_size
    }

    /// The node that is run.
    pub closed spec fn current(&self) -> Option<usize> {
        self.current_node_index
    }

    /// The node that comes next.
    pub closed spec fn next(&self) -> usize {
        self.next_node_index
    }

    /// The node to jump to at the end of the statement.
    pub closed spec fn pending(&self) -> Option<usize> {
        self.pending_goto_index
    }

    /// The index of the statement of the node that is run, if a node is
    /// run and belongs to a statement.
    pub open spec fn current_statement(&self) -> Option<int> {
        match self.current() {
            Some(k) => if k < self.executable().owners().len() {
                match self.executable().owners()[k as int] {
                    Some(i) => Some(i as int),
                    None => None,
                }
            } else {
                None
            },
            None => None,
        }
    }

    /// Whether the frame is in order.
    pub open spec fn wf(&self) -> bool {
        &&& self.executable().wf()
        &&& self.block() matches Some(b) ==> b.variable_symbol_table.wf()
    }

    pub fn as_executable(&self) -> (r: &Executable)
        ensures
            *r == self.executable(),
    {
        &self.executable
    }

    pub fn get_base_stack_size(&self) -> (r: usize)
        ensures
            r == self.base(),
    {
        self.base_stack_size
    }

    /// The statement of the node that is run.
    pub fn get_current_statement(&self) -> (r: Option<&Statement>)
        requires
            self.wf(),
        ensures
            match r {
                Some(s) => self.current_statement() is Some && *s == self.executable().statements()[
                    self.current_statement()->0],
                None => self.current_statement() is None,
            },
    {
        match self.current_node_index {
            Some(node_index) => self.executable.get_statement_from_node_index(node_index),
            None => None,
        }
    }

    /// The line of the node that is run.
    pub fn get_current_line_number(&self) -> (r: Option<LineNumber>)
        requires
            self.wf(),
        ensures
            match r {
                Some(l) => self.current_statement() is Some && l == self.executable().statements()[
                    self.current_statement()->0].line(),
                None => self.current_statement() is None,
            },
    {
        match self.get_current_statement() {
            Some(s) => Some(s.as_line_number()),
            None => None,
        }
    }

    /// The source of the statement of the node that is run.
    pub fn get_current_statement_source(&self) -> (r: Option<String>)
        requires
            self.wf(),
        ensures
            match r {
                Some(t) => self.current_statement() is Some && t@ == self.executable().statements()[
                    self.current_statement()->0].source(),
                None => self.current_statement() is None,
            },
    {
        match self.get_current_statement() {
            Some(s) => Some(s.as_source()),
            None => None,
        }
    }

    /// The index of the node that comes next.
    pub fn next_index(&self) -> (r: usize)
        ensures
            r == self.next(),
    {
        self.next_node_index
    }

    /// The index of the node that is run.
    pub fn current_index(&self) -> (r: Option<usize>)
        ensures
            r == self.current(),
    {
        self.current_node_index
    }

    pub fn get_execution_state(&self) -> (r: ExecutionState)
        ensures
            r == self.state(),
    {
        self.execution_state
    }

    pub fn get_fib(&self) -> (r: &Option<FunctionInvocationBlock>)
        ensures
            *r == self.block(),
    {
        &self.fib
    }

    pub fn get_pending_goto_index(&self) -> (r: Option<usize>)
        ensures
            r == self.pending(),
    {
        self.pending_goto_index
    }

    /// A frame for an executable that is no function body.
    pub fn new(executable: Executable, base_stack_size: usize) -> (r: Invocation)
        ensures
            r.executable() == executable,
            r.state() == ExecutionState::NotExecuting,
            r.block() is None,
            r.base() == base_stack_size,
            r.current() is None,
            r.next() == 0,
            r.pending() is None,
    {
        Invocation {
            executable: executable,
            execution_state: ExecutionState::NotExecuting,
            fib: None,
            base_stack_size: base_stack_size,
            current_node_index: None,
            next_node_index: 0,
            pending_goto_index: None,
        }
    }

    /// A frame for the body of a user function.
    pub fn new_with_fib(function_name: Name, executable: Executable, base_stack_size: usize) -> (r:
        Invocation)
        ensures
            r.executable() == executable,
            r.state() == ExecutionState::NotExecuting,
            r.block() matches Some(b) && b.function_name@ == function_name@ && b.variable_symbol_table.wf()
                && b.variable_symbol_table.keys().len() == 0,
            r.base() == base_stack_size,
            r.current() is None,
            r.next() == 0,
            r.pending() is None,
    {
        Invocation {
            executable: executable,
            execution_state: ExecutionState::NotExecuting,
            fib: Some(FunctionInvocationBlock::new(function_name)),
            base_stack_size: base_stack_size,
            current_node_index: None,
            next_node_index: 0,
            pending_goto_index: None,
        }
    }

    /// Steps to the node that comes next, if there is one, and hands
    /// back its index.
    pub fn next_node(&mut self) -> (r: Option<usize>)
        ensures
            final(self).executable() == old(self).executable(),
            final(self).state() == old(self).state(),
            final(self).block() == old(self).block(),
            final(self).base() == old(self).base(),
            final(self).pending() == old(self).pending(),
            match r {
                Some(k) => k == old(self).next() && k < old(self).executable().nodes().len() && final(self).current() == Some(k) && final(self).next() == k + 1,
                None => old(self).next() >= old(self).executable().nodes().len() && final(self).current()
                    == old(self).current() && final(self).next() == old(self).next(),
            },
    {
        let new_current_node_index = self.next_node_index;
        if new_current_node_index < self.executable.get_next_node_index() {
            self.current_node_index = Some(new_current_node_index);
            self.next_node_index = new_current_node_index + 1;
            Some(new_current_node_index)
        } else {
            None
        }
    }

    /// Makes the node that is run come again.
    pub fn repeat(&mut self)
        ensures
            final(self).next() == match old(self).current() {
                Some(node_index) => node_index,
                None => old(self).next(),
            },
            final(self).executable() == old(self).executable(),
            final(self).state() == old(self).state(),
            final(self).block() == old(self).block(),
            final(self).base() == old(self).base(),
            final(self).pending() == old(self).pending(),
            final(self).current() == old(self).current(),
    {
        if let Some(node_index) = self.current_node_index {
            self.next_node_index = node_index;
        }
    }

    pub fn reset(&mut self)
        ensures
            final(self).state() == ExecutionState::NotExecuting,
            final(self).current() is None,
            final(self).next() == 0,
            final(self).executable() == old(self).executable(),
            final(self).block() == old(self).block(),
            final(self).base() == old(self).base(),
            final(self).pending() == old(self).pending(),
    {
        self.execution_state = ExecutionState::NotExecuting;
        self.current_node_index = None;
        self.next_node_index = 0;
    }

    pub fn set_execution_state(&mut self, new_state: ExecutionState)
        ensures
            final(self).state() == new_state,
            final(self).executable() == old(self).executable(),
            final(self).block() == old(self).block(),
            final(self).base() == old(self).base(),
            final(self).pending() == old(self).pending(),
            final(self).current() == old(self).current(),
            final(self).next() == old(self).next(),
    {
        self.execution_state = new_state;
    }

    pub fn set_next_node(&mut self, next_node_index: usize)
        ensures
            final(self).next() == next_node_index,
            final(self).executable() == old(self).executable(),
            final(self).state() == old(self).state(),
            final(self).block() == old(self).block(),
            final(self).base() == old(self).base(),
            final(self).pending() == old(self).pending(),
            final(self).current() == old(self).current(),
    {
        self.next_node_index = next_node_index;
    }

    /// Makes the first node of the statement on a line the node that
    /// comes next; where there is no statement on that line, the first
    /// node of the statement that ends the function. Only the invocation
    /// of a function can be sent to a line. Hands back the line that
    /// execution goes on at; nothing where neither statement is found.
    pub fn set_next_node_by_line_number(&mut self, line_number: LineNumber) -> (r: Result<
        Option<LineNumber>,
        String,
    >)
        requires
            old(self).wf(),
        ensures
            final(self).executable() == old(self).executable(),
            final(self).state() == old(self).state(),
            final(self).block() == old(self).block(),
            final(self).base() == old(self).base(),
            final(self).pending() == old(self).pending(),
            final(self).current() == old(self).current(),
            old(self).block() is None ==> r is Err && r->Err_0@ == only_inside_functions_message() && final(self).next() == old(self).next(),
            old(self).block() is Some ==> r is Ok,
            r matches Ok(Some(l)) ==> (l == line_number || final(self).executable().return_line() == Some(l))
                && exists|i: int|
                0 <= i < final(self).executable().statements().len() && (
                #[trigger] final(self).executable().statements()[i]).line() == l && final(self).executable().statements()[i].nodes().contains(final(self).next()) && forall|x: usize|
                    final(self).executable().statements()[i].nodes().contains(x) ==> final(self).next() <= x,
            r matches Ok(None) ==> final(self).next() == old(self).next(),
            old(self).block() is Some ==> match crate::execution::system_functions::control::landing_statement(
                old(self).executable(),
                line_number,
            ) {
                Some(i) => {
                    let statements = old(self).executable().statements();
                    &&& r == Ok::<Option<LineNumber>, String>(
                        Some(
                            if crate::workspace::bisected(statements, line_number, 0, statements.len() as int) is Some {
                                line_number
                            } else {
                                old(self).executable().return_line()->0
                            },
                        ),
                    )
                    &&& crate::execution::system_functions::control::lands_at(
                        old(self).executable(),
                        line_number,
                        final(self).next(),
                    )
                },
                None => r == Ok::<Option<LineNumber>, String>(None),
            },
    {
        if self.fib.is_some() {
            let mut found: Option<(usize, LineNumber)> = None;
            let ghost mut witness: int = 0;
            match self.executable.get_statement_index_by_line_number(line_number) {
                Some(i) => {
                    assert(self.executable().statements()[i - 1].wf());
                    found = Some((self.executable.get_statement(i).unwrap().as_first_node_index(), line_number));
                    proof {
                        witness = i - 1;
                    }
                },
                None => {
                    if let Some(return_line) = self.executable.get_function_return_line_number() {
                        if let Some(i) = self.executable.get_statement_index_by_line_number(return_line) {
                            assert(self.executable().statements()[i - 1].wf());
                            found =
                            Some((self.executable.get_statement(i).unwrap().as_first_node_index(), return_line));
                            proof {
                                witness = i - 1;
                            }
                        }
                    }
                },
            }
            match found {
                Some((node, line)) => {
                    self.next_node_index = node;
                    proof {
                        let st = self.executable().statements()[witness];
                        assert(st.line() == line && st.nodes().contains(node));
                    }
                    Ok(Some(line))
                },
                None => Ok(None),
            }
        } else {
            Err(String::from_str("--> can only be used inside functions or to resume a stopped function"))
        }
    }

    /// Makes a local variable for a cell, in place of the local variable
    /// of that name, if there is one. Nothing is done for a frame that is
    /// not the frame of a function.
    pub fn add_local(&mut self, name: Name, cell: usize)
        requires
            old(self).wf(),
        ensures
            final(self).wf(),
            final(self).executable() == old(self).executable(),
            final(self).state() == old(self).state(),
            final(self).base() == old(self).base(),
            final(self).pending() == old(self).pending(),
            final(self).next() == old(self).next(),
            final(self).current() == old(self).current(),
            old(self).block() is None ==> *final(self) == *old(self),
            old(self).block() matches Some(b) ==> {
                &&& final(self).block() is Some
                &&& final(self).block()->0.function_name == b.function_name
                &&& final(self).block()->0.variable_symbol_table.wf()
                &&& final(self).block()->0.variable_symbol_table.has(name@)
                &&& final(self).block()->0.variable_symbol_table.item(name@).cell == cell
                &&& b.variable_symbol_table.has(name@) ==> final(self).block()->0.variable_symbol_table.keys()
                    == b.variable_symbol_table.keys()
                &&& !b.variable_symbol_table.has(name@) ==> final(self).block()->0.variable_symbol_table.keys().len() == b.variable_symbol_table.keys().len() + 1
                    && final(self).block()->0.variable_symbol_table.keys().drop_last()
                    == b.variable_symbol_table.keys()
                &&& forall|other: Seq<char>|
                    crate::text::lower(other) != crate::text::lower(name@) ==> final(self).block()->0.variable_symbol_table.has(other) == b.variable_symbol_table.has(other) && (
                    b.variable_symbol_table.has(other) ==> final(self).block()->0.variable_symbol_table.item(
                        other,
                    ) == b.variable_symbol_table.item(other))
            },
    {
        if self.fib.is_none() {
            return ;
        }
        let fib = self.fib.take();
        match fib {
            Some(mut b) => {
                b.variable_symbol_table.add(name, VariableDescription { cell: cell });
                self.fib = Some(b);
            },
            None => {},
        }
    }

    pub fn set_pending_goto_index(&mut self, next_node_index: Option<usize>)
        ensures
            final(self).pending() == next_node_index,
            final(self).executable() == old(self).executable(),
            final(self).state() == old(self).state(),
            final(self).block() == old(self).block(),
            final(self).base() == old(self).base(),
            final(self).next() == old(self).next(),
            final(self).current() == old(self).current(),
    {
        self.pending_goto_index = next_node_index;
    }

    /// Sets or clears the stop flag of a statement of the executable.
    pub fn set_stop(&mut self, statement: usize, value: bool)
        requires
            old(self).wf(),
            statement < old(self).executable().statements().len(),
        ensures
            final(self).wf(),
            final(self).executable().statements().len() == old(self).executable().statements().len(),
            final(self).executable().statements()[statement as int].stops() == value,
            final(self).executable().nodes() == old(self).executable().nodes(),
            final(self).executable().owners() == old(self).executable().owners(),
            final(self).state() == old(self).state(),
            final(self).block() == old(self).block(),
            final(self).base() == old(self).base(),
            final(self).pending() == old(self).pending(),
            final(self).next() == old(self).next(),
            final(self).current() == old(self).current(),
    {
        self.executable.set_stop(statement, value);
    }
}

} // verus!
