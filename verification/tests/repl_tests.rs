use rowdb::executor::{execute_insert, execute_select, execute_statement, ExecuteResult};
use rowdb::input::InputBuffer;
use rowdb::layout::TABLE_MAX_ROWS;
use rowdb::repl::{
    do_meta_command, emit, is_meta, run_command, step, ExitStatus, LoopState, MetaCommandResult,
    PROMPT,
};
use rowdb::row::Row;
use rowdb::statement::{Statement, StatementType};
use rowdb::table::Table;

struct Session {
    input_buffer: InputBuffer,
    table: Table,
}

fn session() -> Session {
    Session { input_buffer: InputBuffer::new(), table: Table::new() }
}

fn feed(session: &mut Session, raw: &str) -> (LoopState, String) {
    let mut out = Vec::new();
    let state = step(Some(raw), &mut session.input_buffer, &mut session.table, &mut out);
    (state, String::from_utf8(out).unwrap())
}

fn holding(line: &str) -> InputBuffer {
    let mut input_buffer = InputBuffer::new();
    assert!(input_buffer.load(&format!("{}\n", line)));
    input_buffer
}

fn insert_of(row: Row) -> Statement {
    Statement { statement_type: StatementType::Insert, row_to_insert: row }
}

fn select() -> Statement {
    Statement { statement_type: StatementType::Select, row_to_insert: Row::new(0, "", "") }
}

#[test]
fn exit_ends_the_process_with_success_and_prints_nothing() {
    let mut s = session();
    let (state, output) = feed(&mut s, ".exit\n");
    assert_eq!(state, LoopState::Terminate(ExitStatus::Success));
    assert_eq!(output, "");
    assert_eq!(s.table.num_rows(), 0);
}

#[test]
fn unknown_meta_command_is_reported_and_the_loop_goes_on() {
    let mut s = session();
    let (state, output) = feed(&mut s, ".foo\n");
    assert_eq!(state, LoopState::AwaitInput);
    assert_eq!(output, "Unrecognized command\n");
    let (state, output) = feed(&mut s, "select\n");
    assert_eq!(state, LoopState::AwaitInput);
    assert_eq!(output, "Executed.\n");
}

#[test]
fn insert_then_select_then_exit() {
    let mut s = session();
    let mut transcript = String::new();
    let (state, output) = feed(&mut s, "insert 1 alice alice@test.com\n");
    assert_eq!(state, LoopState::AwaitInput);
    assert_eq!(output, "Executed.\n");
    transcript.push_str(&output);
    let (state, output) = feed(&mut s, "select\n");
    assert_eq!(state, LoopState::AwaitInput);
    assert_eq!(output, "(1, alice, alice@test.com)\nExecuted.\n");
    transcript.push_str(&output);
    let (state, output) = feed(&mut s, ".exit\n");
    assert_eq!(state, LoopState::Terminate(ExitStatus::Success));
    transcript.push_str(&output);
    assert_eq!(transcript, "Executed.\n(1, alice, alice@test.com)\nExecuted.\n");
}

#[test]
fn select_lists_the_rows_in_the_order_of_insertion() {
    let mut s = session();
    let lines = ["insert 3 carol c@x.org\n", "insert 1 alice a@x.org\n", "insert 2 bob b@x.org\n"];
    for line in lines {
        assert_eq!(feed(&mut s, line), (LoopState::AwaitInput, "Executed.\n".to_string()));
    }
    let (_, output) = feed(&mut s, "select\n");
    assert_eq!(output, "(3, carol, c@x.org)\n(1, alice, a@x.org)\n(2, bob, b@x.org)\nExecuted.\n");
    let (_, again) = feed(&mut s, "select\n");
    assert_eq!(again, output);
    assert_eq!(s.table.num_rows(), 3);
}

#[test]
fn select_on_an_empty_table_prints_only_executed() {
    let mut s = session();
    assert_eq!(feed(&mut s, "select\n"), (LoopState::AwaitInput, "Executed.\n".to_string()));
}

#[test]
fn malformed_lines_are_reported_with_the_line() {
    let mut s = session();
    assert_eq!(
        feed(&mut s, "insert abc alice a@b.com\n"),
        (LoopState::AwaitInput, "SyntaxError at the start of insert abc alice a@b.com\n".to_string())
    );
    assert_eq!(
        feed(&mut s, "insert 1 2\n"),
        (LoopState::AwaitInput, "SyntaxError at the start of insert 1 2\n".to_string())
    );
    assert_eq!(
        feed(&mut s, "frobnicate\n"),
        (LoopState::AwaitInput, "Unrecognized command at the start of frobnicate\n".to_string())
    );
    assert_eq!(
        feed(&mut s, "\n"),
        (LoopState::AwaitInput, "Unrecognized command at the start of \n".to_string())
    );
    assert_eq!(s.table.num_rows(), 0);
    assert!(!s.table.is_allocated(0));
}

#[test]
fn full_table_is_reported_and_stays_as_it_is() {
    let mut s = session();
    for i in 0..TABLE_MAX_ROWS {
        let (state, output) = feed(&mut s, &format!("insert {} u{} e{}\n", i, i, i));
        assert_eq!(state, LoopState::AwaitInput);
        assert_eq!(output, "Executed.\n");
    }
    let (state, output) = feed(&mut s, "insert 5000 late late@x.org\n");
    assert_eq!(state, LoopState::AwaitInput);
    assert_eq!(output, "Error: Table full.\n");
    assert_eq!(s.table.num_rows(), TABLE_MAX_ROWS);
    let (_, listing) = feed(&mut s, "select\n");
    assert_eq!(listing.lines().count(), TABLE_MAX_ROWS + 1);
    assert_eq!(listing.lines().next(), Some("(0, u0, e0)"));
    assert_eq!(listing.lines().nth(1399), Some("(1399, u1399, e1399)"));
    assert_eq!(listing.lines().last(), Some("Executed."));
}

#[test]
fn failed_read_ends_the_process_with_a_failure() {
    let mut s = session();
    assert!(feed(&mut s, "insert 1 a b\n").0 == LoopState::AwaitInput);
    let mut out = Vec::new();
    let state = step(None, &mut s.input_buffer, &mut s.table, &mut out);
    assert_eq!(state, LoopState::Terminate(ExitStatus::Failure));
    assert_eq!(out, b"Error reading input\n".to_vec());
    assert_eq!(s.table.num_rows(), 1);
}

#[test]
fn end_of_input_ends_the_process_with_a_failure() {
    let mut s = session();
    let (state, output) = feed(&mut s, "");
    assert_eq!(state, LoopState::Terminate(ExitStatus::Failure));
    assert_eq!(output, "Error reading input\n");
}

#[test]
fn step_appends_to_what_was_printed() {
    let mut s = session();
    let mut out = b"db > ".to_vec();
    step(Some("select\n"), &mut s.input_buffer, &mut s.table, &mut out);
    assert_eq!(out, b"db > Executed.\n".to_vec());
}

#[test]
fn meta_commands_begin_with_a_dot() {
    assert!(is_meta(&holding(".exit")));
    assert!(is_meta(&holding(".")));
    assert!(is_meta(&holding(".select")));
    assert!(!is_meta(&holding("select")));
    assert!(!is_meta(&holding(" .exit")));
    assert!(!is_meta(&holding("")));
}

#[test]
fn only_exit_is_a_known_meta_command() {
    assert_eq!(do_meta_command(&holding(".exit")), MetaCommandResult::MetaCommandExit);
    assert_eq!(do_meta_command(&holding(".exit ")), MetaCommandResult::MetaCommandUnknown);
    assert_eq!(do_meta_command(&holding(".exit now")), MetaCommandResult::MetaCommandUnknown);
    assert_eq!(do_meta_command(&holding(".EXIT")), MetaCommandResult::MetaCommandUnknown);
    assert_eq!(do_meta_command(&holding(".quit")), MetaCommandResult::MetaCommandUnknown);
    assert_eq!(do_meta_command(&holding(".")), MetaCommandResult::MetaCommandUnknown);
}

#[test]
fn line_with_a_dot_is_never_a_statement() {
    let mut s = session();
    assert_eq!(
        feed(&mut s, ".insert 1 a b\n"),
        (LoopState::AwaitInput, "Unrecognized command\n".to_string())
    );
    assert_eq!(s.table.num_rows(), 0);
}

#[test]
fn run_command_works_on_the_line_in_the_buffer() {
    let mut table = Table::new();
    let mut out = Vec::new();
    let state = run_command(&holding("insert 9 z z@z"), &mut table, &mut out);
    assert_eq!(state, LoopState::AwaitInput);
    assert_eq!(run_command(&holding("select"), &mut table, &mut out), LoopState::AwaitInput);
    assert_eq!(
        run_command(&holding(".exit"), &mut table, &mut out),
        LoopState::Terminate(ExitStatus::Success)
    );
    assert_eq!(String::from_utf8(out).unwrap(), "Executed.\n(9, z, z@z)\nExecuted.\n");
}

#[test]
fn execute_insert_stores_the_row_of_the_statement() {
    let mut table = Table::new();
    let row = Row::new(4, "dave", "d@x.org");
    assert_eq!(execute_insert(&insert_of(row), &mut table), ExecuteResult::Success);
    assert_eq!(table.scan_all(), vec![row]);
}

#[test]
fn execute_insert_reports_a_full_table() {
    let mut table = Table::new();
    let statement = insert_of(Row::new(4, "dave", "d@x.org"));
    for _ in 0..TABLE_MAX_ROWS {
        assert_eq!(execute_insert(&statement, &mut table), ExecuteResult::Success);
    }
    assert_eq!(execute_insert(&statement, &mut table), ExecuteResult::TableFull);
    assert_eq!(table.num_rows(), TABLE_MAX_ROWS);
}

#[test]
fn execute_select_lists_each_row_on_a_line() {
    let mut table = Table::new();
    let mut out = Vec::new();
    assert_eq!(execute_select(&table, &mut out), ExecuteResult::Success);
    assert!(out.is_empty());
    assert!(table.insert(&Row::new(1, "a", "b")).is_ok());
    assert!(table.insert(&Row::new(22, "cc", "dd")).is_ok());
    assert_eq!(execute_select(&table, &mut out), ExecuteResult::Success);
    assert_eq!(out, b"(1, a, b)\n(22, cc, dd)\n".to_vec());
    assert_eq!(table.num_rows(), 2);
}

#[test]
fn execute_statement_dispatches_on_the_kind() {
    let mut table = Table::new();
    let mut out = Vec::new();
    let row = Row::new(8, "h", "h@h");
    assert_eq!(execute_statement(&insert_of(row), &mut table, &mut out), ExecuteResult::Success);
    assert!(out.is_empty());
    assert_eq!(table.num_rows(), 1);
    assert_eq!(execute_statement(&select(), &mut table, &mut out), ExecuteResult::Success);
    assert_eq!(out, b"(8, h, h@h)\n".to_vec());
    assert_eq!(table.num_rows(), 1);
}

#[test]
fn emit_appends_the_bytes_of_a_text() {
    let mut out = vec![b'>'];
    emit(&mut out, "zoë\n");
    assert_eq!(out, ">zoë\n".as_bytes().to_vec());
}

#[test]
fn prompt_has_no_end_of_line() {
    assert_eq!(PROMPT, "db > ");
}
