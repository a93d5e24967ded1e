//! One step of the command loop: what is done with the line that was read,
//! what is to be printed, and whether the loop goes on.
//!
//! The loop itself reads and prints; it is not here. It hands over each line
//! it has read, prints the text it gets back, and ends the process when it is
//! told to.

use crate::executor::{execute_statement, output_of, result_of, rows_after, ExecuteResult};
use crate::input::InputBuffer;
use crate::row::RowData;
use crate::statement::{prepare_statement, prepared, PrepareError, StatementType};
use crate::table::{has_room, Table};
use crate::text::chars_of;
use vstd::prelude::*;
use vstd::utf8::encode_utf8;

verus! {

/// What a command that begins with `.` asks for.
#[derive(Clone, Copy, Debug, PartialEq, Eq, Structural)]
pub enum MetaCommandResult {
    /// The command is `.exit`: the process is to end, with success.
    MetaCommandExit,
    /// The command is not known.
    MetaCommandUnknown,
}

/// How a process ends.
#[derive(Clone, Copy, Debug, PartialEq, Eq, Structural)]
pub enum ExitStatus {
    Success,
    Failure,
}

/// Where the command loop stands after a step.
#[derive(Clone, Copy, Debug, PartialEq, Eq, Structural)]
pub enum LoopState {
    /// The next line is to be read.
    AwaitInput,
    /// The process is to end with this status.
    Terminate(ExitStatus),
}

/// What a step of the loop comes to: where the loop stands, the rows that
/// the table holds, and the text to print.
pub struct Outcome {
    pub state: LoopState,
    pub rows: Seq<RowData>,
    pub output: Seq<u8>,
}

/// The text that asks for the next line. It is printed before each read,
/// with no end of line behind it.
pub const PROMPT: &'static str = "db > ";

/// The bytes of `s`.
pub open spec fn text(s: &str) -> Seq<u8> {
    encode_utf8(s@)
}

/// Whether `line` is a command for the loop and not a statement: it begins
/// with `.`.
pub open spec fn is_meta_command(line: Seq<char>) -> bool {
    line.len() > 0 && line[0] == '.'
}

/// What the command `line` asks for.
pub open spec fn meta_command(line: Seq<char>) -> MetaCommandResult {
    if line == ".exit"@ {
        MetaCommandResult::MetaCommandExit
    } else {
        MetaCommandResult::MetaCommandUnknown
    }
}

/// Whether the line `line` stores a row in a table that holds `rows`.
pub open spec fn stores_row(line: Seq<char>, rows: Seq<RowData>) -> bool {
    &&& !is_meta_command(line)
    &&& prepared(line) matches Ok(statement)
    &&& statement.statement_type == StatementType::Insert
    &&& has_room(rows)
}

/// What the line `line` comes to on a table that holds `rows`.
pub open spec fn command_outcome(line: Seq<char>, rows: Seq<RowData>) -> Outcome {
    if is_meta_command(line) {
        match meta_command(line) {
            MetaCommandResult::MetaCommandExit => Outcome {
                state: LoopState::Terminate(ExitStatus::Success),
                rows,
                output: Seq::empty(),
            },
            MetaCommandResult::MetaCommandUnknown => Outcome {
                state: LoopState::AwaitInput,
                rows,
                output: text("Unrecognized command\n"),
            },
        }
    } else {
        match prepared(line) {
            Err(PrepareError::SyntaxError) => Outcome {
                state: LoopState::AwaitInput,
                rows,
                output: text("SyntaxError at the start of ") + encode_utf8(line) + text("\n"),
            },
            Err(PrepareError::UnrecognizedCommand) => Outcome {
                state: LoopState::AwaitInput,
                rows,
                output: text("Unrecognized command at the start of ") + encode_utf8(line) + text(
                    "\n",
                ),
            },
            Ok(statement) => Outcome {
                state: LoopState::AwaitInput,
                rows: rows_after(statement, rows),
                output: output_of(statement, rows) + match result_of(statement, rows) {
                    ExecuteResult::Success => text("Executed.\n"),
                    ExecuteResult::TableFull => text("Error: Table full.\n"),
                },
            },
        }
    }
}

/// What a step comes to in which the read gave `raw`, or failed, on a table
/// that holds `rows`. A read that failed or gave nothing ends the process
/// with a failure. Else the line is `raw` without its last character.
pub open spec fn step_outcome(raw: Option<Seq<char>>, rows: Seq<RowData>) -> Outcome {
    match raw {
        Some(read) if read.len() > 0 => command_outcome(read.drop_last(), rows),
        _ => Outcome {
            state: LoopState::Terminate(ExitStatus::Failure),
            rows,
            output: text("Error reading input\n"),
        },
    }
}

/// Appends the bytes of `s` to `out`.
pub fn emit(out: &mut Vec<u8>, s: &str)
    ensures
        final(out)@ == old(out)@ + text(s),
{
    out.extend_from_slice(s.as_bytes());
}

/// Tells what the command in `input_buffer` asks for.
pub fn do_meta_command(input_buffer: &InputBuffer) -> (result: MetaCommandResult)
    ensures
        result == meta_command(input_buffer@),
{
    let chars = chars_of(input_buffer.as_str());
    assert(chars@.subrange(0, chars@.len() as int) =~= chars@);
    if crate::text::span_is(&chars, 0, chars.len(), ".exit") {
        MetaCommandResult::MetaCommandExit
    } else {
        MetaCommandResult::MetaCommandUnknown
    }
}

/// Tells whether the line in `input_buffer` is a command for the loop.
pub fn is_meta(input_buffer: &InputBuffer) -> (meta: bool)
    ensures
        meta == is_meta_command(input_buffer@),
{
    let line = input_buffer.as_str();
    line.unicode_len() > 0 && line.get_char(0) == '.'
}

/// Does what the line in `input_buffer` asks for: carries out a statement on
/// `table`, and appends to `out` the text to print. A line that stores no
/// row leaves the table as it is.
pub fn run_command(input_buffer: &InputBuffer, table: &mut Table, out: &mut Vec<u8>) -> (state:
    LoopState)
    requires
        old(table).wf(),
    ensures
        final(table).wf(),
        state == command_outcome(input_buffer@, old(table)@).state,
        final(table)@ == command_outcome(input_buffer@, old(table)@).rows,
        final(out)@ == old(out)@ + command_outcome(input_buffer@, old(table)@).output,
        !stores_row(input_buffer@, old(table)@) ==> *final(table) == *old(table),
{
    let ghost printed = old(out)@;
    if is_meta(input_buffer) {
        match do_meta_command(input_buffer) {
            MetaCommandResult::MetaCommandExit => {
                assert(out@ =~= printed + Seq::<u8>::empty());
                return LoopState::Terminate(ExitStatus::Success);
            },
            MetaCommandResult::MetaCommandUnknown => {
                emit(out, "Unrecognized command\n");
                return LoopState::AwaitInput;
            },
        }
    }
    match prepare_statement(input_buffer) {
        Ok(statement) => {
            let result = execute_statement(&statement, table, out);
            match result {
                ExecuteResult::Success => emit(out, "Executed.\n"),
                ExecuteResult::TableFull => emit(out, "Error: Table full.\n"),
            }
            assert(out@ =~= printed + command_outcome(input_buffer@, old(table)@).output);
        },
        Err(PrepareError::SyntaxError) => {
            emit(out, "SyntaxError at the start of ");
            emit(out, input_buffer.as_str());
            emit(out, "\n");
            assert(out@ =~= printed + command_outcome(input_buffer@, old(table)@).output);
        },
        Err(PrepareError::UnrecognizedCommand) => {
            emit(out, "Unrecognized command at the start of ");
            emit(out, input_buffer.as_str());
            emit(out, "\n");
            assert(out@ =~= printed + command_outcome(input_buffer@, old(table)@).output);
        },
    }
    LoopState::AwaitInput
}

/// One step of the command loop. `raw` is what the read gave, the line with
/// the character that ends it, or `None` if the read failed.
pub fn step(
    raw: Option<&str>,
    input_buffer: &mut InputBuffer,
    table: &mut Table,
    out: &mut Vec<u8>,
) -> (state: LoopState)
    requires
        old(table).wf(),
    ensures
        final(table).wf(),
        state == step_outcome(raw_view(raw), old(table)@).state,
        final(table)@ == step_outcome(raw_view(raw), old(table)@).rows,
        final(out)@ == old(out)@ + step_outcome(raw_view(raw), old(table)@).output,
        state is Terminate ==> *final(table) == *old(table),
        final(input_buffer)@ == match raw {
            Some(read) if read@.len() > 0 => read@.drop_last(),
            Some(_) => Seq::empty(),
            None => old(input_buffer)@,
        },
{
    let got = match raw {
        Some(read) => input_buffer.load(read),
        None => false,
    };
    if got {
        run_command(input_buffer, table, out)
    } else {
        emit(out, "Error reading input\n");
        LoopState::Terminate(ExitStatus::Failure)
    }
}

/// The characters that a read gave.
pub open spec fn raw_view(raw: Option<&str>) -> Option<Seq<char>> {
    match raw {
        Some(read) => Some(read@),
        None => None,
    }
}

} // verus!
