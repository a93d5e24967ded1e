//! Statements, and how a command line is read as one.
//!
//! The line `select` is the statement that lists the rows. A line that
//! begins with the token `insert` has to go on with three more tokens, an
//! id, a user name and an e-mail address, and is then the statement that
//! stores that row.

use crate::input::InputBuffer;
use crate::layout::{EMAIL_SIZE, USERNAME_SIZE};
use crate::row::{Row, RowData};
use crate::text::{
    char_is_whitespace, chars_of, is_whitespace, parse_number, parse_u32, span_is,
    split_whitespace, texts, tokenize,
};
use vstd::prelude::*;
use vstd::utf8::encode_utf8;

verus! {

/// What a statement does.
#[derive(Clone, Copy, Debug, PartialEq, Eq, Structural)]
pub enum StatementType {
    Insert,
    Select,
}

/// A statement that is ready to be carried out.
#[derive(Clone, Copy, Debug, PartialEq, Eq)]
pub struct Statement {
    pub statement_type: StatementType,
    /// The row to store. A statement that stores nothing holds the row of
    /// id 0 with empty texts here.
    pub row_to_insert: Row,
}

/// What a statement says.
pub struct StatementData {
    pub statement_type: StatementType,
    pub row_to_insert: RowData,
}

impl View for Statement {
    type V = StatementData;

    open spec fn view(&self) -> StatementData {
        StatementData {
            statement_type: self.statement_type,
            row_to_insert: self.row_to_insert@,
        }
    }
}

/// Why a line is no statement.
#[derive(Clone, Copy, Debug, PartialEq, Eq, Structural)]
pub enum PrepareError {
    /// The line begins with `insert` but does not go on as it has to.
    SyntaxError,
    /// The line begins with no known command.
    UnrecognizedCommand,
}

/// Whether `line` begins with the token `word`: its first character starts
/// its first token, and that token is `word`.
pub open spec fn begins_with_token(line: Seq<char>, word: Seq<char>) -> bool {
    &&& line.len() > 0
    &&& !is_whitespace(line[0])
    &&& split_whitespace(line).len() > 0
    &&& split_whitespace(line)[0] == word
}

/// The statement that lists the rows.
pub open spec fn select_statement() -> StatementData {
    StatementData {
        statement_type: StatementType::Select,
        row_to_insert: RowData { id: 0, username: Seq::empty(), email: Seq::empty() },
    }
}

/// The statement that the tokens `tokens` of a line that begins with
/// `insert` make, if they make one: there are four of them, the second is a
/// number that fits 32 bits, and the UTF-8 bytes of the third and of the
/// fourth fit the fields of a row.
pub open spec fn insert_statement(tokens: Seq<Seq<char>>) -> Option<StatementData> {
    if tokens.len() == 4 && parse_u32(tokens[1]) is Some && encode_utf8(tokens[2]).len()
        <= USERNAME_SIZE && encode_utf8(tokens[3]).len() <= EMAIL_SIZE {
        Some(
            StatementData {
                statement_type: StatementType::Insert,
                row_to_insert: RowData::of(
                    parse_u32(tokens[1])->0,
                    encode_utf8(tokens[2]),
                    encode_utf8(tokens[3]),
                ),
            },
        )
    } else {
        None
    }
}

/// What the line `line` is read as.
pub open spec fn prepared(line: Seq<char>) -> Result<StatementData, PrepareError> {
    if line == "select"@ {
        Ok(select_statement())
    } else if begins_with_token(line, "insert"@) {
        match insert_statement(split_whitespace(line)) {
            Some(statement) => Ok(statement),
            None => Err(PrepareError::SyntaxError),
        }
    } else {
        Err(PrepareError::UnrecognizedCommand)
    }
}

/// Reads the line in `input_buffer` as a statement.
pub fn prepare_statement(input_buffer: &InputBuffer) -> (result: Result<Statement, PrepareError>)
    ensures
        match result {
            Ok(statement) => prepared(input_buffer@) == Ok::<StatementData, PrepareError>(
                statement@,
            ),
            Err(error) => prepared(input_buffer@) == Err::<StatementData, PrepareError>(error),
        },
{
    let line = input_buffer.as_str();
    let chars = chars_of(line);
    if span_is(&chars, 0, chars.len(), "select") {
        proof {
            reveal_strlit("");
            assert(chars@.subrange(0, chars@.len() as int) =~= chars@);
            assert(encode_utf8(""@) =~= Seq::<u8>::empty());
            assert(crate::row::strip_zeros(Seq::<u8>::empty()) =~= Seq::<u8>::empty());
        }
        return Ok(
            Statement { statement_type: StatementType::Select, row_to_insert: Row::new(0, "", "") },
        );
    }
    proof {
        assert(chars@.subrange(0, chars@.len() as int) =~= chars@);
    }
    if chars.len() == 0 || char_is_whitespace(chars[0]) {
        return Err(PrepareError::UnrecognizedCommand);
    }
    let spans = tokenize(&chars);
    let ghost tokens = split_whitespace(chars@);
    assert(spans@.len() == tokens.len());
    if spans.len() == 0 || !span_is(&chars, spans[0].start, spans[0].end, "insert") {
        proof {
            if spans.len() > 0 {
                assert(texts(chars@, spans@)[0] == spans@[0].of(chars@));
            }
        }
        return Err(PrepareError::UnrecognizedCommand);
    }
    proof {
        assert(texts(chars@, spans@)[0] == spans@[0].of(chars@));
        assert(begins_with_token(chars@, "insert"@));
    }
    if spans.len() != 4 {
        return Err(PrepareError::SyntaxError);
    }
    proof {
        assert(texts(chars@, spans@)[1] == spans@[1].of(chars@));
        assert(texts(chars@, spans@)[2] == spans@[2].of(chars@));
        assert(texts(chars@, spans@)[3] == spans@[3].of(chars@));
    }
    let id = match parse_number(&chars, spans[1].start, spans[1].end) {
        Some(id) => id,
        None => {
            return Err(PrepareError::SyntaxError);
        },
    };
    let username = line.substring_char(spans[2].start, spans[2].end);
    let email = line.substring_char(spans[3].start, spans[3].end);
    if username.as_bytes().len() > USERNAME_SIZE || email.as_bytes().len() > EMAIL_SIZE {
        return Err(PrepareError::SyntaxError);
    }
    Ok(
        Statement {
            statement_type: StatementType::Insert,
            row_to_insert: Row::new(id, username, email),
        },
    )
}

} // verus!
