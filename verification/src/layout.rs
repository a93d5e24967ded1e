//! The fixed layout of a stored row and of the pages that hold rows.
//!
//! A row occupies `ROW_SIZE` bytes: the id, then the user name, then the
//! e-mail address, each in a field of fixed width. A page holds
//! `ROWS_PER_PAGE` whole rows; the bytes of a page behind its last row are
//! never used.

use vstd::prelude::*;

verus! {

/// The most bytes that the user name of a row can have.
pub const COLUMN_USERNAME_SIZE: usize = 32;

/// The most bytes that the e-mail address of a row can have.
pub const COLUMN_EMAIL_SIZE: usize = 255;

/// Size in bytes of one page.
pub const PAGE_SIZE: usize = 4096;

/// Number of page slots of a table.
pub const TABLE_MAX_PAGES: usize = 100;

/// Width in bytes of the id of a row.
pub const ID_SIZE: usize = 4;

/// Width in bytes of the field that holds the user name in a stored row.
pub const USERNAME_SIZE: usize = COLUMN_USERNAME_SIZE;

/// Width in bytes of the field that holds the e-mail address in a stored row.
pub const EMAIL_SIZE: usize = COLUMN_EMAIL_SIZE;

/// Where the id starts in a stored row.
pub const ID_OFFSET: usize = 0;

/// Where the user name starts in a stored row.
pub const USERNAME_OFFSET: usize = ID_OFFSET + ID_SIZE;

/// Where the e-mail address starts in a stored row.
pub const EMAIL_OFFSET: usize = USERNAME_OFFSET + USERNAME_SIZE;

/// Size in bytes of a stored row.
pub const ROW_SIZE: usize = ID_SIZE + USERNAME_SIZE + EMAIL_SIZE;

/// Number of whole rows that fit in one page: `PAGE_SIZE / ROW_SIZE`.
pub const ROWS_PER_PAGE: usize = 14;

/// Number of rows that a table can hold: `ROWS_PER_PAGE * TABLE_MAX_PAGES`.
pub const TABLE_MAX_ROWS: usize = 1400;

/// The page in which the row with index `row` lives.
pub open spec fn page_of(row: int) -> int {
    row / ROWS_PER_PAGE as int
}

/// The offset in its page of the first byte of the row with index `row`.
pub open spec fn offset_of(row: int) -> int {
    (row % ROWS_PER_PAGE as int) * ROW_SIZE as int
}

/// A row has 291 bytes, a page holds as many whole rows as fit in it, a
/// table holds as many rows as fit in its pages, and every row below that
/// number lies wholly inside one of the pages.
pub proof fn lemma_layout()
    ensures
        ROW_SIZE == 291,
        ROWS_PER_PAGE == PAGE_SIZE / ROW_SIZE,
        TABLE_MAX_ROWS == ROWS_PER_PAGE * TABLE_MAX_PAGES,
        forall|row: int|
            0 <= row < TABLE_MAX_ROWS ==> 0 <= #[trigger] page_of(row) < TABLE_MAX_PAGES,
        forall|row: int|
            0 <= row ==> 0 <= #[trigger] offset_of(row) && offset_of(row) + ROW_SIZE <= PAGE_SIZE,
{
}

} // verus!
