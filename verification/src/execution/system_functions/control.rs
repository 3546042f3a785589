//! The built-in functions that change the course of execution.

use vstd::prelude::*;
use crate::execution::runtime::executable::{lines_ascend, Executable};
use crate::execution::runtime::invocation::{ExecutionState, Invocation};
use crate::execution::value::conversion::{atom_to_bool, atom_to_natural};
use crate::execution::value::Value;
use crate::lexical::LineNumber;
use crate::workspace::WorkSpace;

verus! {

/// The message for a jump to a line where no function is run.
pub open spec fn no_function_message() -> Seq<char> {
    "--> can only be used in immediate mode to resume a stopped function"@
}

/// The message for a jump that finds no statement to go to, or finds
/// the function in a state in which no jump can be made.
pub open spec fn no_way_message() -> Seq<char> {
    "internal error"@
}

/// A natural number as the index of a node: the number itself, or the
/// greatest index where it is greater.
pub open spec fn as_index(n: u64) -> usize {
    if n <= usize::MAX {
        n as usize
    } else {
        usize::MAX
    }
}

/// A natural number as a line number: its low 32 bits.
pub open spec fn as_line(n: u64) -> LineNumber {
    (n % 0x1_0000_0000) as LineNumber
}

fn index_of(n: u64) -> (r: usize)
    ensures
        r == as_index(n),
{
    if n <= usize::MAX as u64 {
        n as usize
    } else {
        usize::MAX
    }
}

fn line_of(n: u64) -> (r: LineNumber)
    ensures
        r == as_line(n),
{
    (n % 0x1_0000_0000) as LineNumber
}

/// Asks for a jump to a node at the end of the statement that is run.
pub fn branch(destination: &Value, workspace: &mut WorkSpace) -> (r: Result<(), String>)
    requires
        old(workspace).wf(),
        old(workspace).frames().len() > 0,
        old(workspace).store().holds(*destination),
    ensures
        final(workspace).wf(),
        match atom_to_natural(old(workspace).store().atom(*destination)) {
            Ok(n) => r is Ok && final(workspace).same_but_course(old(workspace)) && final(workspace).frames().last().pending() == Some(as_index(n)) && final(workspace).frames().last().next() == old(workspace).frames().last().next(),
            Err(m) => r matches Err(e) && e@ == m && *final(workspace) == *old(workspace),
        },
{
    let n = match destination.as_natural(workspace.as_store()) {
        Ok(n) => n,
        Err(e) => {
            return Err(e);
        },
    };
    let next = workspace.current_invocation().unwrap().next_index();
    workspace.redirect(next, Some(index_of(n)));
    Ok(())
}

/// Asks for a jump to a node if a condition holds.
pub fn cbranch(condition: &Value, destination: &Value, workspace: &mut WorkSpace) -> (r: Result<(), String>)
    requires
        old(workspace).wf(),
        old(workspace).frames().len() > 0,
        old(workspace).store().holds(*condition),
        old(workspace).store().holds(*destination),
    ensures
        final(workspace).wf(),
        match atom_to_bool(old(workspace).store().atom(*condition)) {
            Ok(true) => match atom_to_natural(old(workspace).store().atom(*destination)) {
                Ok(n) => r is Ok && final(workspace).same_but_course(old(workspace)) && final(workspace).frames().last().pending() == Some(as_index(n)) && final(workspace).frames().last().next()
                    == old(workspace).frames().last().next(),
                Err(m) => r matches Err(e) && e@ == m && *final(workspace) == *old(workspace),
            },
            Ok(false) => r is Ok && *final(workspace) == *old(workspace),
            Err(m) => r matches Err(e) && e@ == m && *final(workspace) == *old(workspace),
        },
{
    match condition.as_bool(workspace.as_store()) {
        Ok(true) => branch(destination, workspace),
        Ok(false) => Ok(()),
        Err(e) => Err(e),
    }
}

/// Whether a node is the first node of a statement on a line.
pub open spec fn starts_line(executable: Executable, line: LineNumber, node: usize) -> bool {
    exists|i: int|
        0 <= i < executable.statements().len() && (#[trigger] executable.statements()[i]).line() == line
            && executable.statements()[i].nodes().contains(node) && forall|x: usize|
            executable.statements()[i].nodes().contains(x) ==> node <= x
}

/// Whether a node is where a jump to a line lands: at the first node
/// of a statement on that line, or, where there is none, at the first
/// node of the statement that ends the function.
pub open spec fn lands(executable: Executable, line: LineNumber, node: usize) -> bool {
    ||| starts_line(executable, line, node)
    ||| {
        &&& lines_ascend(executable.statements()) ==> forall|i: int|
            0 <= i < executable.statements().len() ==> (#[trigger] executable.statements()[i]).line() != line
        &&& executable.return_line() matches Some(l)
        &&& starts_line(executable, l, node)
    }
}

/// The statement that a jump to a line lands at: the statement that
/// bisection finds on that line, or, where it finds none, the one it
/// finds on the line of the statement that ends the function.
pub open spec fn landing_statement(executable: Executable, line: LineNumber) -> Option<int> {
    let statements = executable.statements();
    match crate::workspace::bisected(statements, line, 0, statements.len() as int) {
        Some(i) => Some(i),
        None => match executable.return_line() {
            Some(l) => crate::workspace::bisected(statements, l, 0, statements.len() as int),
            None => None,
        },
    }
}

/// Whether a node is the first node of the statement that a jump to a
/// line lands at.
pub open spec fn lands_at(executable: Executable, line: LineNumber, node: usize) -> bool {
    landing_statement(executable, line) matches Some(i) && 0 <= i < executable.statements().len()
        && executable.statements()[i].nodes().contains(node) && forall|x: usize|
        executable.statements()[i].nodes().contains(x) ==> node <= x
}

/// Whether everything but the frames and the value stack of a
/// workspace is as it was.
pub open spec fn same_but_run(after: &WorkSpace, before: &WorkSpace) -> bool {
    &&& after.datatypes() == before.datatypes()
    &&& after.system_functions() == before.system_functions()
    &&& after.user_functions() == before.user_functions()
    &&& after.selectors() == before.selectors()
    &&& after.variables() == before.variables()
    &&& after.last_value() == before.last_value()
    &&& after.store() == before.store()
    &&& after.debug_switches() == before.debug_switches()
    &&& after.feature_switches() == before.feature_switches()
    &&& after.sentinal() == before.sentinal()
}

/// Where a jump to a line lands in an executable, if anywhere: at the
/// first node of the statement that it lands at.
fn landing(executable: &Executable, line: LineNumber) -> (r: Option<usize>)
    requires
        executable.wf(),
    ensures
        r matches Some(node) ==> lands(*executable, line, node),
        match (r, landing_statement(*executable, line)) {
            (Some(node), Some(i)) => 0 <= i < executable.statements().len() && executable.statements()[i].nodes().contains(
                node,
            ) && forall|x: usize| executable.statements()[i].nodes().contains(x) ==> node <= x,
            (None, None) => true,
            _ => false,
        },
        r matches Some(node) ==> lands_at(*executable, line, node),
{
    match executable.get_statement_index_by_line_number(line) {
        Some(i) => {
            assert(executable.statements()[i - 1].wf());
            let node = executable.get_statement(i).unwrap().as_first_node_index();
            assert(starts_line(*executable, line, node)) by {
                let st = executable.statements()[i - 1];
                assert(st.line() == line && st.nodes().contains(node));
            }
            Some(node)
        },
        None => match executable.get_function_return_line_number() {
            Some(l) => match executable.get_statement_index_by_line_number(l) {
                Some(i) => {
                    assert(executable.statements()[i - 1].wf());
                    let node = executable.get_statement(i).unwrap().as_first_node_index();
                    assert(starts_line(*executable, l, node)) by {
                        let st = executable.statements()[i - 1];
                        assert(st.line() == l && st.nodes().contains(node));
                    }
                    Some(node)
                },
                None => None,
            },
            None => None,
        },
    }
}

/// The number of frames from the top down to the first frame of a function.
pub open spec fn above_function(frames: Seq<Invocation>) -> nat
    decreases frames.len(),
{
    if frames.len() == 0 || frames.last().block() is Some {
        0
    } else {
        1 + above_function(frames.drop_last())
    }
}

/// Whether a workspace is what another becomes, and a result what comes
/// of it, when a jump to a line is made. The jump is made exactly where
/// the innermost frame of a function is stopped or executing and the
/// line has a statement to land at.
pub open spec fn jumped(before: &WorkSpace, after: &WorkSpace, r: Result<(), String>, destination: Value) -> bool {
    &&& after.wf()
    &&& same_but_run(after, before)
    &&& match atom_to_natural(before.store().atom(destination)) {
            Err(m) => r matches Err(e) && e@ == m && *after == *before,
            Ok(n) => {
                let above = above_function(before.frames());
                let kept = before.frames().len() - above;
                if kept == 0 {
                    &&& r matches Err(e)
                    &&& e@ == no_function_message()
                    &&& after.frames().len() == 0
                    &&& after.values() == before.values()
                } else {
                    let frame = before.frames()[kept - 1];
                    &&& after.frames().len() == kept
                    &&& after.frames().drop_last() == before.frames().take(kept - 1)
                    &&& after.frames().last().executable() == frame.executable()
                    &&& after.frames().last().block() == frame.block()
                    &&& after.frames().last().base() == frame.base()
                    &&& after.frames().last().current() == frame.current()
                    &&& (r is Ok) == ((frame.state() is Stopped || frame.state() is Executing) && landing_statement(
                        frame.executable(),
                        as_line(n),
                    ) is Some)
                    &&& match r {
                        Ok(_) => match frame.state() {
                            ExecutionState::Stopped => {
                                &&& after.frames().last().state() == ExecutionState::Resumed
                                &&& after.frames().last().pending() is None
                                &&& lands(frame.executable(), as_line(n), after.frames().last().next())
                                &&& lands_at(frame.executable(), as_line(n), after.frames().last().next())
                                &&& after.values() == before.values()
                            },
                            ExecutionState::Executing => {
                                &&& after.frames().last().state() == ExecutionState::Executing
                                &&& after.frames().last().next() == frame.next()
                                &&& after.frames().last().pending() matches Some(node)
                                &&& lands(frame.executable(), as_line(n), node)
                                &&& lands_at(frame.executable(), as_line(n), node)
                                &&& after.values() == before.values().push(
                                    Value::Int(crate::execution::functions::line_value(as_line(n))),
                                )
                            },
                            _ => false,
                        },
                        Err(e) => {
                            &&& e@ == no_way_message()
                            &&& after.frames().last() == frame
                            &&& after.values() == before.values()
                        },
                    }
                }
            },
        }
}

/// Jumps to a line. The frames above the innermost frame of a function
/// are left. In a function that is run the jump is made when the
/// statement has ended, and the line is pushed as the value of the
/// jump; a function that was stopped is resumed at the line.
pub fn goto(destination: &Value, workspace: &mut WorkSpace) -> (r: Result<(), String>)
    requires
        old(workspace).wf(),
        old(workspace).store().holds(*destination),
    ensures
        final(workspace).wf(),
        jumped(old(workspace), final(workspace), r, *destination),
{
    let n = match destination.as_natural(workspace.as_store()) {
        Ok(n) => n,
        Err(e) => {
            return Err(e);
        },
    };
    let line = line_of(n);
    let ghost above = above_function(old(workspace).frames());
    let ghost mut left: nat = 0;
    proof {
        lemma_above_all(old(workspace).frames());
        assert(old(workspace).frames().take(old(workspace).frames().len() as int) =~= old(workspace).frames());
    }
    loop
        invariant
            workspace.wf(),
            left <= above <= old(workspace).frames().len(),
            above == above_function(old(workspace).frames()),
            workspace.frames() == old(workspace).frames().take(old(workspace).frames().len() - left),
            above_function(workspace.frames()) == above - left,
            workspace.same_but_frames(old(workspace)),
            workspace.sentinal() == old(workspace).sentinal(),
            line == as_line(n),
            atom_to_natural(old(workspace).store().atom(*destination)) == Ok::<u64, Seq<char>>(n),
        decreases workspace.frames().len(),
    {
        let is_function = match workspace.current_invocation() {
            Some(frame) => frame.get_fib().is_some(),
            None => {
                assert(old(workspace).frames().len() - above == 0) by {
                    lemma_above_all(old(workspace).frames());
                }
                return Err(
                    String::from_str("--> can only be used in immediate mode to resume a stopped function"),
                );
            },
        };
        if is_function {
            assert(left == above);
            assert(workspace.frames().last() == old(workspace).frames()[old(workspace).frames().len() - above - 1]);
            assert(workspace.frames().drop_last() =~= old(workspace).frames().take(
                old(workspace).frames().len() - above - 1,
            ));
            let frame = workspace.current_invocation().unwrap();
            let state = frame.get_execution_state();
            let next = frame.next_index();
            assert(crate::workspace::frame_in(&workspace.frames()[workspace.frames().len() - 1], &workspace.store()));
            let node = match landing(frame.as_executable(), line) {
                Some(node) => node,
                None => {
                    assert(workspace.frames().drop_last() =~= old(workspace).frames().take(
                        old(workspace).frames().len() - above - 1,
                    ));
                    return Err(String::from_str("internal error"));
                },
            };
            match state {
                ExecutionState::Stopped => {
                    workspace.resume(node);
                },
                ExecutionState::Executing => {
                    workspace.redirect(next, Some(node));
                    workspace.push_value(Value::Int(crate::execution::functions::line_as_int(line)));
                },
                _ => {
                    assert(workspace.frames().drop_last() =~= old(workspace).frames().take(
                        old(workspace).frames().len() - above - 1,
                    ));
                    return Err(String::from_str("internal error"));
                },
            }
            assert(workspace.frames().drop_last() =~= old(workspace).frames().take(
                old(workspace).frames().len() - above - 1,
            ));
            return Ok(());
        }
        let ghost before = workspace.frames();
        workspace.end_invocation();
        proof {
            left = left + 1;
            assert(workspace.frames() =~= old(workspace).frames().take(old(workspace).frames().len() - left));
        }
    }
}

/// The frames above the first frame of a function are not more than there are frames.
pub proof fn lemma_above_all(frames: Seq<Invocation>)
    ensures
        above_function(frames) <= frames.len(),
        above_function(frames) < frames.len() ==> frames[frames.len() - above_function(frames) - 1].block() is Some,
    decreases frames.len(),
{
    if frames.len() > 0 && frames.last().block() is None {
        lemma_above_all(frames.drop_last());
    }
}

/// Jumps to a line if a condition holds, as `goto` does; pushes the
/// truth value false where it does not hold.
pub fn cgoto(condition: &Value, destination: &Value, workspace: &mut WorkSpace) -> (r: Result<(), String>)
    requires
        old(workspace).wf(),
        old(workspace).store().holds(*condition),
        old(workspace).store().holds(*destination),
    ensures
        final(workspace).wf(),
        match atom_to_bool(old(workspace).store().atom(*condition)) {
            Ok(true) => jumped(old(workspace), final(workspace), r, *destination),
            Ok(false) => r is Ok && final(workspace).values() == old(workspace).values().push(Value::Bool(false))
                && final(workspace).same_but_values(old(workspace)),
            Err(m) => r matches Err(e) && e@ == m && *final(workspace) == *old(workspace),
        },
{
    match condition.as_bool(workspace.as_store()) {
        Ok(true) => goto(destination, workspace),
        Ok(false) => {
            workspace.push_value(Value::Bool(false));
            Ok(())
        },
        Err(e) => Err(e),
    }
}

} // verus!
