//! The sequencer: which node is run next.
//!
//! Before each node the sequencer looks whether execution was
//! interrupted and whether it is to stop at the statement of the node.
//! What runs the nodes asks it for the next node, runs that node, and
//! tells it how the node ended.

use vstd::prelude::*;
use crate::execution::runtime::invocation::{ExecutionState, Invocation};
use crate::lexical::LineNumber;
use crate::workspace::WorkSpace;

verus! {

/// What the sequencer says is to be done next.
#[derive(Clone, Copy, Debug, PartialEq, Eq, Structural)]
pub enum Step {
    /// Nothing: no frame is left, or the frame that is run has stopped.
    Finished,
    /// Nothing: execution was interrupted. The frame that is run has stopped.
    Interrupted,
    /// Nothing: execution is to stop at the statement of the next node.
    /// The frame that is run has stopped.
    StopRequested,
    /// The node with this index of the frame that is run.
    Run(usize),
    /// The frame that was run has no node left and was ended.
    Ended,
}

/// Whether a node is the first node of the statement it belongs to.
pub open spec fn is_first_node(frame: &Invocation, k: usize) -> bool {
    let e = frame.executable();
    k < e.owners().len() && (e.owners()[k as int] matches Some(i) && forall|x: usize|
        e.statements()[i as int].nodes().contains(x) ==> k <= x)
}

/// Whether a node is the last node of the statement it belongs to.
pub open spec fn is_last_node(frame: &Invocation, k: usize) -> bool {
    let e = frame.executable();
    k < e.owners().len() && (e.owners()[k as int] matches Some(i) && forall|x: usize|
        e.statements()[i as int].nodes().contains(x) ==> x <= k)
}

/// Whether execution stops at a statement when the node `k` of a frame
/// is about to be run: the statement of the node has its stop flag set,
/// the node is the first node of the statement, and the frame was not
/// just resumed.
pub open spec fn stop_fires(frame: &Invocation, k: usize) -> bool {
    let e = frame.executable();
    frame.state() != ExecutionState::Resumed && is_first_node(frame, k) && e.statements()[
        e.owners()[k as int]->0 as int].stops()
}

/// What the sequencer decides for a frame, given whether execution was
/// interrupted.
pub open spec fn decided(frame: &Invocation, interrupted: bool) -> Step {
    if frame.state() == ExecutionState::Stopped {
        Step::Finished
    } else if interrupted {
        Step::Interrupted
    } else if frame.next() >= frame.executable().nodes().len() {
        Step::Ended
    } else if stop_fires(frame, frame.next()) {
        Step::StopRequested
    } else {
        Step::Run(frame.next())
    }
}

/// Whether a frame is what another becomes when the sequencer has
/// decided for it: stopped for an interrupt and for a stop at a
/// statement, executing for a node that is to be run, and as it was
/// where it has stopped already or has no node left. A frame that has
/// a next node steps to it, also where execution stops at its statement.
pub open spec fn steps_to(before: &Invocation, after: &Invocation, interrupted: bool) -> bool {
    &&& after.executable() == before.executable()
    &&& after.block() == before.block()
    &&& after.base() == before.base()
    &&& after.pending() == before.pending()
    &&& match decided(before, interrupted) {
        Step::Finished => *after == *before,
        Step::Ended => after.state() == before.state() && after.next() == before.next() && after.current()
            == before.current(),
        Step::Interrupted => after.state() == ExecutionState::Stopped && after.next() == before.next()
            && after.current() == before.current(),
        Step::StopRequested => after.state() == ExecutionState::Stopped && after.current() == Some(before.next())
            && after.next() == before.next() + 1,
        Step::Run(k) => after.state() == ExecutionState::Executing && after.current() == Some(k) && after.next()
            == k + 1,
    }
}

/// How many frames, from the top down, have no node left and are
/// ended before a frame is found for which something else is decided.
pub open spec fn ended_frames(frames: Seq<Invocation>, interrupted: bool) -> nat
    decreases frames.len(),
{
    if frames.len() > 0 && decided(&frames.last(), interrupted) == Step::Ended {
        1 + ended_frames(frames.drop_last(), interrupted)
    } else {
        0
    }
}

/// Not more frames are ended than there are.
pub proof fn lemma_ended_frames(frames: Seq<Invocation>, interrupted: bool)
    ensures
        ended_frames(frames, interrupted) <= frames.len(),
    decreases frames.len(),
{
    if frames.len() > 0 && decided(&frames.last(), interrupted) == Step::Ended {
        lemma_ended_frames(frames.drop_last(), interrupted);
    }
}

/// The line that is to be told when a node has ended: that of the
/// statement of the node, where the node ended well, is the last node
/// of its statement, and the statement is traced.
pub open spec fn traced_line(frame: &Invocation, succeeded: bool) -> Option<LineNumber> {
    if succeeded && frame.current() is Some && is_last_node(frame, frame.current()->0)
        && frame.executable().statements()[frame.current_statement()->0].traced() {
        Some(frame.executable().statements()[frame.current_statement()->0].line())
    } else {
        None
    }
}

/// Decides what a frame does next, and brings the frame into the
/// state that goes with it: stopped for an interrupt and for a stop at a
/// statement, executing for a node that is to be run. A frame that has a
/// next node steps to it, also where execution stops at its statement.
pub fn dispatch(frame: &mut Invocation, interrupted: bool) -> (step: Step)
    requires
        old(frame).wf(),
    ensures
        step == decided(old(frame), interrupted),
        steps_to(old(frame), final(frame), interrupted),
        final(frame).wf(),
        final(frame).executable() == old(frame).executable(),
        final(frame).block() == old(frame).block(),
        final(frame).base() == old(frame).base(),
        final(frame).pending() == old(frame).pending(),
        match step {
            Step::Finished => *final(frame) == *old(frame),
            Step::Ended => final(frame).state() == old(frame).state() && final(frame).next() == old(frame).next() && final(frame).current() == old(frame).current(),
            Step::Interrupted => final(frame).state() == ExecutionState::Stopped && final(frame).next() == old(frame).next() && final(frame).current() == old(frame).current(),
            Step::StopRequested => final(frame).state() == ExecutionState::Stopped && final(frame).current()
                == Some(old(frame).next()) && final(frame).next() == old(frame).next() + 1,
            Step::Run(k) => final(frame).state() == ExecutionState::Executing && final(frame).current()
                == Some(k) && final(frame).next() == k + 1,
        },
{
    if frame.get_execution_state() == ExecutionState::Stopped {
        return Step::Finished;
    }
    if interrupted {
        frame.set_execution_state(ExecutionState::Stopped);
        return Step::Interrupted;
    }
    let ghost before = *frame;
    match frame.next_node() {
        Some(index) => {
            let stops = match frame.as_executable().get_statement_from_node_index(index) {
                Some(statement) => {
                    assert(frame.executable().statements()[frame.executable().owners()[index as int]->0 as int].wf());
                    frame.get_execution_state() != ExecutionState::Resumed && statement.is_stop_set()
                        && frame.as_executable().is_first_executable_node(statement, index)
                },
                None => false,
            };
            assert(stops == stop_fires(&before, index));
            if stops {
                frame.set_execution_state(ExecutionState::Stopped);
                Step::StopRequested
            } else {
                frame.set_execution_state(ExecutionState::Executing);
                Step::Run(index)
            }
        },
        None => Step::Ended,
    }
}

/// Tells the frame that the node it ran has ended. A frame whose node
/// failed stops. Hands back the line of the statement of the node where
/// the node ended well, is the last node of its statement, and the
/// statement is traced.
pub fn finish(frame: &mut Invocation, succeeded: bool) -> (traced: Option<LineNumber>)
    requires
        old(frame).wf(),
    ensures
        final(frame).wf(),
        final(frame).executable() == old(frame).executable(),
        final(frame).block() == old(frame).block(),
        final(frame).base() == old(frame).base(),
        final(frame).pending() == old(frame).pending(),
        final(frame).current() == old(frame).current(),
        final(frame).next() == old(frame).next(),
        final(frame).state() == if succeeded {
            ExecutionState::NotExecuting
        } else {
            ExecutionState::Stopped
        },
        traced == traced_line(old(frame), succeeded),
        match traced {
            Some(line) => succeeded && old(frame).current() is Some && is_last_node(
                old(frame),
                old(frame).current()->0,
            ) && old(frame).current_statement() is Some && old(frame).executable().statements()[old(frame).current_statement()->0].traced() && line == old(frame).executable().statements()[old(frame).current_statement()->0].line(),
            None => !(succeeded && old(frame).current() is Some && is_last_node(
                old(frame),
                old(frame).current()->0,
            ) && old(frame).executable().statements()[old(frame).current_statement()->0].traced()),
        },
{
    if !succeeded {
        frame.set_execution_state(ExecutionState::Stopped);
        return None;
    }
    frame.set_execution_state(ExecutionState::NotExecuting);
    match frame.get_current_statement() {
        Some(statement) => {
            assert(frame.executable().statements()[frame.current_statement()->0].wf());
            let index = match frame.current_index() {
                Some(i) => i,
                None => {
                    return None;
                },
            };
            if statement.is_trace_set() && frame.as_executable().is_last_executable_node(statement, index) {
                Some(statement.as_line_number())
            } else {
                None
            }
        },
        None => None,
    }
}

/// Finds what is to be done next: frames that have no node left are
/// ended until a frame is found that has one, or has stopped, or
/// execution is interrupted, or no frame is left. The interrupt is
/// taken back when it is heeded.
pub fn next_step(workspace: &mut WorkSpace) -> (step: Step)
    requires
        old(workspace).wf(),
    ensures
        final(workspace).wf(),
        step != Step::Ended,
        final(workspace).frames().len() <= old(workspace).frames().len(),
        final(workspace).same_but_frames(old(workspace)),
        ({
            let interrupted = old(workspace).sentinal().requested();
            let left = old(workspace).frames().len() - ended_frames(old(workspace).frames(), interrupted);
            &&& final(workspace).frames().len() == left
            &&& forall|i: int| 0 <= i < left - 1 ==> #[trigger] final(workspace).frames()[i] == old(workspace).frames()[i]
            &&& if left == 0 {
                step == Step::Finished
            } else {
                &&& step == decided(&old(workspace).frames()[left - 1], interrupted)
                &&& steps_to(&old(workspace).frames()[left - 1], &final(workspace).frames()[left - 1], interrupted)
            }
            &&& if step == Step::Interrupted {
                !final(workspace).sentinal().requested()
            } else {
                final(workspace).sentinal() == old(workspace).sentinal()
            }
        }),
        step == Step::Finished ==> final(workspace).frames().len() == 0 || final(workspace).frames().last().state() == ExecutionState::Stopped,
        step == Step::Interrupted ==> final(workspace).frames().len() > 0 && final(workspace).frames().last().state() == ExecutionState::Stopped && !final(workspace).sentinal().requested(),
        step == Step::StopRequested ==> final(workspace).frames().len() > 0 && final(workspace).frames().last().state() == ExecutionState::Stopped,
        step matches Step::Run(k) ==> final(workspace).frames().len() > 0 && final(workspace).frames().last().state() == ExecutionState::Executing && final(workspace).frames().last().current()
            == Some(k) && k < final(workspace).frames().last().executable().nodes().len(),
        final(workspace).values() == old(workspace).values(),
        final(workspace).store() == old(workspace).store(),
{
    proof {
        assert(old(workspace).frames().take(old(workspace).frames().len() as int) =~= old(workspace).frames());
    }
    loop
        invariant
            workspace.wf(),
            workspace.frames().len() <= old(workspace).frames().len(),
            workspace.values() == old(workspace).values(),
            workspace.store() == old(workspace).store(),
            workspace.same_but_frames(old(workspace)),
            workspace.sentinal() == old(workspace).sentinal(),
            workspace.frames() == old(workspace).frames().take(workspace.frames().len() as int),
            ended_frames(old(workspace).frames(), old(workspace).sentinal().requested()) == old(workspace).frames().len() - workspace.frames().len() + ended_frames(
                workspace.frames(),
                old(workspace).sentinal().requested(),
            ),
        decreases workspace.frames().len(),
    {
        if workspace.current_invocation().is_none() {
            return Step::Finished;
        }
        let interrupted = workspace.is_interrupted();
        let ghost here = workspace.frames();
        let mut frame = workspace.pop_frame();
        let step = dispatch(&mut frame, interrupted);
        match step {
            Step::Ended => {
                proof {
                    assert(workspace.frames() =~= old(workspace).frames().take(workspace.frames().len() as int));
                }
            },
            Step::Interrupted => {
                workspace.push_frame(frame);
                workspace.clear_interrupt();
                proof {
                    assert(ended_frames(here, interrupted) == 0);
                    assert(workspace.frames().drop_last() =~= here.drop_last());
                }
                return step;
            },
            _ => {
                workspace.push_frame(frame);
                proof {
                    assert(ended_frames(here, interrupted) == 0);
                    assert(workspace.frames().drop_last() =~= here.drop_last());
                }
                return step;
            },
        }
    }
}

/// Execution stops at a statement only before the first node of a
/// statement whose stop flag is set, in the frame that is found when
/// the frames without a node have been ended, and only if that frame
/// was not just resumed and execution was not interrupted: so it is
/// for what `next_step` says, which is what is decided for that frame.
pub proof fn law_stop_is_requested_at_a_first_node(frames: Seq<Invocation>, interrupted: bool)
    requires
        ended_frames(frames, interrupted) < frames.len(),
        decided(&frames[frames.len() - ended_frames(frames, interrupted) - 1], interrupted) == Step::StopRequested,
    ensures
        ({
            let frame = frames[frames.len() - ended_frames(frames, interrupted) - 1];
            &&& !interrupted
            &&& frame.state() != ExecutionState::Resumed
            &&& frame.state() != ExecutionState::Stopped
            &&& is_first_node(&frame, frame.next())
            &&& frame.executable().statements()[frame.executable().owners()[frame.next() as int]->0 as int].stops()
        }),
{
}

/// A stop at a statement fires at the first node of the statement only.
pub proof fn law_stop_fires_at_first_node(frame: &Invocation, k: usize)
    requires
        stop_fires(frame, k),
    ensures
        is_first_node(frame, k),
        frame.state() != ExecutionState::Resumed,
{
}

/// A frame that was just resumed runs its next node, whatever the stop
/// flag of the statement of that node; and once it has run a node it is
/// resumed no longer, so that a stop fires again as soon as the first
/// node of a statement with a stop flag comes next.
pub proof fn law_stop_does_not_fire_on_resume(frame: &Invocation)
    requires
        frame.state() == ExecutionState::Resumed,
        frame.next() < frame.executable().nodes().len(),
    ensures
        decided(frame, false) == Step::Run(frame.next()),
{
}

/// A statement has one first node: of two nodes of a statement at most
/// one makes a stop fire.
pub proof fn law_stop_fires_once_in_a_statement(frame: &Invocation, j: usize, k: usize)
    requires
        frame.wf(),
        stop_fires(frame, j),
        stop_fires(frame, k),
        frame.executable().owners()[j as int] == frame.executable().owners()[k as int],
    ensures
        j == k,
{
    let e = frame.executable();
    let i = e.owners()[j as int]->0 as int;
    assert(e.statements()[i].nodes().contains(j));
    assert(e.statements()[i].nodes().contains(k));
}

} // verus!
