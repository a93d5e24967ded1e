//! Carrying out a statement on the table.

use crate::codec::encode;
use crate::row::{display_text, RowData};
use crate::statement::{Statement, StatementData, StatementType};
use crate::table::{has_room, inserted, rows_view, Table};
use vstd::prelude::*;

verus! {

/// How carrying out a statement ended.
#[derive(Clone, Copy, Debug, PartialEq, Eq, Structural)]
pub enum ExecuteResult {
    Success,
    /// The table holds as many rows as it can; the row was not stored.
    TableFull,
}

/// The text that lists `rows`: each row as it is shown, on a line of its own.
pub open spec fn listing(rows: Seq<RowData>) -> Seq<u8>
    decreases rows.len(),
{
    if rows.len() == 0 {
        Seq::empty()
    } else {
        listing(rows.drop_last()) + display_text(rows.last()) + seq!['\n' as u8]
    }
}

/// How carrying out `statement` ends on a table that holds `rows`.
pub open spec fn result_of(statement: StatementData, rows: Seq<RowData>) -> ExecuteResult {
    match statement.statement_type {
        StatementType::Insert => if has_room(rows) {
            ExecuteResult::Success
        } else {
            ExecuteResult::TableFull
        },
        StatementType::Select => ExecuteResult::Success,
    }
}

/// The rows of a table that held `rows` when `statement` has been carried
/// out on it.
pub open spec fn rows_after(statement: StatementData, rows: Seq<RowData>) -> Seq<RowData> {
    match statement.statement_type {
        StatementType::Insert => inserted(rows, statement.row_to_insert),
        StatementType::Select => rows,
    }
}

/// The text that carrying out `statement` on a table that holds `rows`
/// gives.
pub open spec fn output_of(statement: StatementData, rows: Seq<RowData>) -> Seq<u8> {
    match statement.statement_type {
        StatementType::Insert => Seq::empty(),
        StatementType::Select => listing(rows),
    }
}

/// Stores the row of `statement` behind the rows of `table`, if the table
/// has room for it.
pub fn execute_insert(statement: &Statement, table: &mut Table) -> (result: ExecuteResult)
    requires
        old(table).wf(),
    ensures
        final(table).wf(),
        result == if has_room(old(table)@) {
            ExecuteResult::Success
        } else {
            ExecuteResult::TableFull
        },
        final(table)@ == inserted(old(table)@, statement@.row_to_insert),
        result == ExecuteResult::Success ==> final(table).slot(old(table).len() as int) == encode(
            statement@.row_to_insert,
        ),
        result == ExecuteResult::TableFull ==> *final(table) == *old(table),
{
    match table.insert(&statement.row_to_insert) {
        Ok(_) => ExecuteResult::Success,
        Err(_) => ExecuteResult::TableFull,
    }
}

/// Appends to `out` the text that lists the rows of `table`.
pub fn execute_select(table: &Table, out: &mut Vec<u8>) -> (result: ExecuteResult)
    requires
        table.wf(),
    ensures
        result == ExecuteResult::Success,
        final(out)@ == old(out)@ + listing(table@),
{
    let rows = table.scan_all();
    let mut index: usize = 0;
    assert(rows_view(rows@).take(0) =~= Seq::<RowData>::empty());
    assert(out@ =~= old(out)@ + listing(Seq::<RowData>::empty()));
    while index < rows.len()
        invariant
            index <= rows@.len(),
            out@ == old(out)@ + listing(rows_view(rows@).take(index as int)),
        decreases rows@.len() - index,
    {
        let ghost before = out@;
        let ghost listed = rows_view(rows@).take(index as int);
        rows[index].display(out);
        out.push('\n' as u8);
        index += 1;
        proof {
            let upto = rows_view(rows@).take(index as int);
            assert(upto.drop_last() =~= listed);
            assert(upto.last() == rows@[index - 1]@);
            assert(out@ =~= old(out)@ + listing(upto));
        }
    }
    assert(rows_view(rows@).take(index as int) =~= rows_view(rows@));
    ExecuteResult::Success
}

/// Carries out `statement` on `table`, and appends to `out` the text that
/// this gives.
pub fn execute_statement(statement: &Statement, table: &mut Table, out: &mut Vec<u8>) -> (result:
    ExecuteResult)
    requires
        old(table).wf(),
    ensures
        final(table).wf(),
        result == result_of(statement@, old(table)@),
        final(table)@ == rows_after(statement@, old(table)@),
        final(out)@ == old(out)@ + output_of(statement@, old(table)@),
        !(statement.statement_type == StatementType::Insert && has_room(old(table)@))
            ==> *final(table) == *old(table),
{
    match statement.statement_type {
        StatementType::Insert => {
            assert(out@ =~= old(out)@ + Seq::<u8>::empty());
            execute_insert(statement, table)
        },
        StatementType::Select => execute_select(table, out),
    }
}

} // verus!
