//! A small row store behind a line-oriented command interface.
//!
//! A command line is either a command for the loop, which begins with `.`,
//! or a statement. A statement stores a row, made of an id, a user name and
//! an e-mail address, or lists the rows that are stored. Rows have a fixed
//! layout and are kept in the pages of a table in memory, in the order in
//! which they were stored.
//!
//! - `layout`: the sizes and offsets of rows and pages.
//! - `row`, `codec`: a row, and how it is written to its slot and read back.
//! - `table`: the pages, the slots of the rows in them, and the capacity.
//! - `text`, `input`, `statement`: the line that was read, its tokens, and
//!   the statement that it is.
//! - `executor`: carrying out a statement on the table.
//! - `repl`: one step of the command loop.

pub mod codec;
pub mod executor;
pub mod input;
pub mod layout;
pub mod repl;
pub mod row;
pub mod statement;
pub mod table;
pub mod text;
