//! What frames an evaluation: the lines that are read for it, and the
//! text that it ends with.

use vstd::prelude::*;
use crate::execution::runtime::invocation::ExecutionState;
use crate::text::{decimal, decimal_chars, string_of};
use crate::utility::{convert_escape_sequences, escaped, is_white, trimmed_end};
use crate::workspace::WorkSpace;

verus! {

/// What is done when a line has been read.
#[derive(Clone, Copy, Debug, PartialEq, Eq, Structural)]
pub enum ReadStep {
    /// What was read is complete.
    Done,
    /// The line starts the definition of a function: more lines are
    /// read, each asked for with its number.
    Begin,
    /// The definition goes on with the next line.
    Continue,
}

/// The text without the white space at its start.
pub open spec fn trimmed_start(s: Seq<char>) -> Seq<char>
    decreases s.len(),
{
    if s.len() > 0 && is_white(s[0]) {
        trimmed_start(s.subrange(1, s.len() as int))
    } else {
        s
    }
}

/// The text without the white space at its start and its end.
pub open spec fn trimmed(s: Seq<char>) -> Seq<char> {
    trimmed_end(trimmed_start(s))
}

/// Whether a line starts the definition of a function: it starts with
/// a dollar sign, has more behind it, and holds no equals sign.
pub open spec fn begins_definition(line: Seq<char>) -> bool {
    line.len() > 1 && line[0] == '$' && !line.contains('=')
}

/// Whether a line ends the definition of a function: it is empty but
/// for its end, or holds a dollar sign and nothing else but white space.
pub open spec fn ends_definition(line: Seq<char>) -> bool {
    line == seq!['\r', '\n'] || trimmed(line) == seq!['$']
}

/// What is done when a line has been read, in or out of the definition of a function.
pub open spec fn read_step(active: bool, line: Seq<char>) -> ReadStep {
    if active {
        if ends_definition(line) {
            ReadStep::Done
        } else {
            ReadStep::Continue
        }
    } else if begins_definition(line) {
        ReadStep::Begin
    } else {
        ReadStep::Done
    }
}

fn is_white_space(c: char) -> (r: bool)
    ensures
        r == is_white(c),
{
    let u: u32 = c as u32;
    (0x09 <= u && u <= 0x0D) || u == 0x20 || u == 0x85 || u == 0xA0 || u == 0x1680 || (0x2000 <= u && u <= 0x200A)
        || u == 0x2028 || u == 0x2029 || u == 0x202F || u == 0x205F || u == 0x3000
}

/// Whether a line holds a dollar sign and nothing else but white space.
fn is_dollar_alone(v: &Vec<char>) -> (r: bool)
    ensures
        r == (trimmed(v@) == seq!['$']),
{
    let mut start: usize = 0;
    assert(v@.subrange(0, v@.len() as int) =~= v@);
    while start < v.len() && is_white_space(v[start])
        invariant
            start <= v.len(),
            trimmed_start(v@) == trimmed_start(v@.subrange(start as int, v@.len() as int)),
        decreases v.len() - start,
    {
        proof {
            let rest = v@.subrange(start as int, v@.len() as int);
            assert(rest.subrange(1, rest.len() as int) =~= v@.subrange(start as int + 1, v@.len() as int));
        }
        start += 1;
    }
    let ghost body = v@.subrange(start as int, v@.len() as int);
    assert(trimmed_start(v@) == body) by {
        if start == 0 {
            assert(body =~= v@);
        }
    }
    let mut end: usize = v.len();
    while end > start && is_white_space(v[end - 1])
        invariant
            start <= end <= v.len(),
            body == v@.subrange(start as int, v@.len() as int),
            trimmed_end(body) == trimmed_end(v@.subrange(start as int, end as int)),
        decreases end,
    {
        proof {
            let part = v@.subrange(start as int, end as int);
            assert(part.last() == v@[end - 1]);
            assert(part.drop_last() =~= v@.subrange(start as int, end as int - 1));
        }
        end -= 1;
    }
    proof {
        let part = v@.subrange(start as int, end as int);
        if end > start {
            assert(part.last() == v@[end - 1]);
        }
        assert(trimmed_end(part) == part);
        assert(trimmed(v@) == part);
        if end - start == 1 {
            assert(part =~= seq![v@[start as int]]);
        }
        if part == seq!['$'] {
            assert(part.len() == 1);
            assert(part[0] == '$');
        }
    }
    end - start == 1 && v[start] == '$'
}

/// Says what is done when a line has been read.
#[verifier::loop_isolation(false)]
pub fn next_read(active: bool, line: &str) -> (r: ReadStep)
    ensures
        r == read_step(active, line@),
{
    let v = crate::text::chars_of(line);
    if active {
        let bare = v.len() == 2 && v[0] == '\r' && v[1] == '\n';
        proof {
            if bare {
                assert(v@ =~= seq!['\r', '\n']);
            }
        }
        if bare || is_dollar_alone(&v) {
            ReadStep::Done
        } else {
            ReadStep::Continue
        }
    } else {
        if v.len() > 1 && v[0] == '$' {
            let mut i: usize = 0;
            while i < v.len()
                invariant
                    i <= v.len(),
                    forall|k: int| 0 <= k < i ==> v@[k] != '=',
                decreases v.len() - i,
            {
                if v[i] == '=' {
                    assert(v@[i as int] == '=');
                    assert(line@.contains('='));
                    return ReadStep::Done;
                }
                i += 1;
            }
            ReadStep::Begin
        } else {
            ReadStep::Done
        }
    }
}

/// What an evaluation ends with where a frame is left: a new line, an
/// at sign, the name of the function of the frame, if it is one of a
/// function, the line of the statement that is run in brackets, its
/// source, and a tabulator. The source of a statement of a function is
/// made fit for one line.
pub open spec fn trailer(workspace: &WorkSpace) -> Seq<char> {
    if workspace.frames().len() == 0 {
        Seq::empty()
    } else {
        let frame = workspace.frames().last();
        match frame.current_statement() {
            None => Seq::empty(),
            Some(i) => {
                let statement = frame.executable().statements()[i];
                match frame.block() {
                    Some(b) => "\n@"@ + b.function_name@ + " ["@ + decimal(statement.line() as nat) + "] "@ + escaped(
                        trimmed_end(statement.source()),
                    ) + "\t"@,
                    None => "\n@["@ + decimal(statement.line() as nat) + "] "@ + statement.source() + "\t"@,
                }
            },
        }
    }
}

/// Whether the frames of a workspace are kept when an evaluation has
/// ended: they are where the frame that is run was stopped.
pub open spec fn kept(workspace: &WorkSpace) -> bool {
    workspace.frames().len() > 0 && workspace.frames().last().state() == ExecutionState::Stopped
}

/// Ends an evaluation: hands back what it came to with what tells
/// where a frame was left, and forgets the frames, the stack and the
/// value of the last statement unless the frame that is run was stopped.
pub fn conclude(workspace: &mut WorkSpace, result: String) -> (r: String)
    requires
        old(workspace).wf(),
    ensures
        final(workspace).wf(),
        r@ == result@ + trailer(old(workspace)),
        final(workspace).store() == old(workspace).store(),
        final(workspace).variables() == old(workspace).variables(),
        final(workspace).datatypes() == old(workspace).datatypes(),
        final(workspace).user_functions() == old(workspace).user_functions(),
        final(workspace).system_functions() == old(workspace).system_functions(),
        final(workspace).selectors() == old(workspace).selectors(),
        if kept(old(workspace)) {
            final(workspace).frames() == old(workspace).frames() && final(workspace).values() == old(workspace).values() && final(workspace).last_value() == old(workspace).last_value()
        } else {
            final(workspace).frames().len() == 0 && final(workspace).values().len() == 0 && final(workspace).last_value() is None
        },
{
    let mut out = result;
    let mut keep = false;
    match workspace.current_invocation() {
        Some(frame) => {
            assert(crate::workspace::frame_in(&workspace.frames()[workspace.frames().len() - 1], &workspace.store()));
            keep = frame.get_execution_state() == ExecutionState::Stopped;
            match (frame.get_current_line_number(), frame.get_current_statement_source()) {
                (Some(line), Some(source)) => {
                    let number = string_of(&decimal_chars(line as u64));
                    match frame.get_fib() {
                        Some(b) => {
                            out.append("\n@");
                            out.append(b.function_name.as_str());
                            out.append(" [");
                            out.append(number.as_str());
                            out.append("] ");
                            out.append(convert_escape_sequences(source.as_str()).as_str());
                            out.append("\t");
                        },
                        None => {
                            out.append("\n@[");
                            out.append(number.as_str());
                            out.append("] ");
                            out.append(source.as_str());
                            out.append("\t");
                        },
                    }
                },
                _ => {
                    assert(out@ + Seq::<char>::empty() =~= out@);
                },
            }
        },
        None => {
            assert(out@ + Seq::<char>::empty() =~= out@);
        },
    }
    assert(out@ =~= result@ + trailer(old(workspace)));
    if !keep {
        workspace.reset();
    }
    out
}

} // verus!
