//! The table: rows in the slots of pages that are made when a row is first
//! written to them.

use crate::codec::{decode, deserialize_row, encode, lemma_decode_encode, serialize_row};
use crate::layout::{
    lemma_layout, offset_of, page_of, PAGE_SIZE, ROWS_PER_PAGE, ROW_SIZE, TABLE_MAX_PAGES,
    TABLE_MAX_ROWS,
};
use crate::row::{lemma_row_valid, Row, RowData};
use vstd::prelude::*;
use vstd::slice::slice_subrange;

verus! {

/// The bytes of a page that has just been made.
pub open spec fn zero_page() -> Seq<u8> {
    Seq::new(PAGE_SIZE as nat, |i: int| 0u8)
}

/// The bytes of the slot that starts at `offset` in `page`.
pub open spec fn window(page: Seq<u8>, offset: int) -> Seq<u8> {
    page.subrange(offset, offset + ROW_SIZE)
}

/// `page` with the bytes `slot` in place of the slot that starts at `offset`.
pub open spec fn with_window(page: Seq<u8>, offset: int, slot: Seq<u8>) -> Seq<u8> {
    page.subrange(0, offset) + slot + page.subrange(offset + ROW_SIZE, page.len() as int)
}

/// What the rows `rows` say, in their order.
pub open spec fn rows_view(rows: Seq<Row>) -> Seq<RowData> {
    Seq::new(rows.len(), |i: int| rows[i]@)
}

/// Why a row was not taken: the table holds `TABLE_MAX_ROWS` rows.
#[derive(Clone, Copy, Debug, PartialEq, Eq)]
pub struct TableFull;

/// The rows of the store and the pages that hold them.
pub struct Table {
    num_rows: usize,
    pages: Vec<Option<Vec<u8>>>,
    written: Ghost<Set<int>>,
}

impl Table {
    /// The number of rows.
    pub closed spec fn len(&self) -> nat {
        self.num_rows as nat
    }

    /// The number of page slots.
    pub closed spec fn page_slots(&self) -> nat {
        self.pages@.len()
    }

    /// The bytes of page `p`, if it has been made.
    pub closed spec fn page(&self, p: int) -> Option<Seq<u8>> {
        if 0 <= p < self.pages@.len() {
            match self.pages@[p] {
                Some(bytes) => Some(bytes@),
                None => None,
            }
        } else {
            None
        }
    }

    /// The rows whose slots were handed out to be written.
    pub closed spec fn written(&self) -> Set<int> {
        self.written@
    }

    /// The bytes of page `p` as a reader finds them: zero where the page has
    /// not been made.
    pub open spec fn page_bytes(&self, p: int) -> Seq<u8> {
        match self.page(p) {
            Some(bytes) => bytes,
            None => zero_page(),
        }
    }

    /// The bytes of the slot of row `i`: in page `i / ROWS_PER_PAGE`, from
    /// offset `(i % ROWS_PER_PAGE) * ROW_SIZE` on.
    pub open spec fn slot(&self, i: int) -> Seq<u8> {
        window(self.page_bytes(page_of(i)), offset_of(i))
    }

    /// What holds of every table: the number of rows is within the capacity,
    /// each page that has been made has `PAGE_SIZE` bytes, and a page has been
    /// made if and only if a row in it was written.
    pub open spec fn wf(&self) -> bool {
        &&& self.len() <= TABLE_MAX_ROWS
        &&& self.page_slots() == TABLE_MAX_PAGES
        &&& forall|p: int| #[trigger]
            self.page(p) matches Some(bytes) ==> bytes.len() == PAGE_SIZE
        &&& forall|i: int| 0 <= i < self.len() ==> #[trigger] self.written().contains(i)
        &&& forall|i: int| #[trigger]
            self.written().contains(i) ==> 0 <= i < TABLE_MAX_ROWS && self.page(page_of(i)) is Some
        &&& forall|p: int| #[trigger]
            self.page(p) is Some ==> exists|i: int| #[trigger]
                self.written().contains(i) && page_of(i) == p
    }
}

impl View for Table {
    type V = Seq<RowData>;

    /// The rows of the table, in the order in which they were put in.
    open spec fn view(&self) -> Seq<RowData> {
        Seq::new(self.len(), |i: int| decode(self.slot(i)))
    }
}

/// Whether a table that holds `rows` takes one more row.
pub open spec fn has_room(rows: Seq<RowData>) -> bool {
    rows.len() < TABLE_MAX_ROWS
}

/// The rows of a table that held `rows` and was given `row` to store: `row`
/// comes last if the table had room, and nothing has changed if it had none.
pub open spec fn inserted(rows: Seq<RowData>, row: RowData) -> Seq<RowData> {
    if has_room(rows) {
        rows.push(row)
    } else {
        rows
    }
}

/// The rows of a table that held `rows` and was given the rows `more` to
/// store, one after the other.
pub open spec fn inserted_all(rows: Seq<RowData>, more: Seq<RowData>) -> Seq<RowData>
    decreases more.len(),
{
    if more.len() == 0 {
        rows
    } else {
        inserted(inserted_all(rows, more.drop_last()), more.last())
    }
}

/// Whether `after` is `before` with the slot of row `row_num` handed out and
/// left with `bytes` in it: its page has been made, and nothing else differs.
pub open spec fn slot_written(before: Table, after: Table, row_num: int, bytes: Seq<u8>) -> bool {
    let p = page_of(row_num);
    &&& after.len() == before.len()
    &&& after.page_slots() == before.page_slots()
    &&& after.written() == before.written().insert(row_num)
    &&& after.page(p) == Some(with_window(before.page_bytes(p), offset_of(row_num), bytes))
    &&& forall|q: int| q != p ==> after.page(q) == before.page(q)
}

/// A slot that is put in its page is found there again, and the other slots
/// of the page are as they were.
pub proof fn lemma_with_window(page: Seq<u8>, i: int, slot: Seq<u8>, j: int)
    requires
        page.len() == PAGE_SIZE,
        slot.len() == ROW_SIZE,
        0 <= i,
        0 <= j,
        page_of(i) == page_of(j),
    ensures
        with_window(page, offset_of(i), slot).len() == PAGE_SIZE,
        window(with_window(page, offset_of(i), slot), offset_of(i)) == slot,
        i != j ==> window(with_window(page, offset_of(i), slot), offset_of(j)) == window(
            page,
            offset_of(j),
        ),
{
    lemma_layout();
    let changed = with_window(page, offset_of(i), slot);
    assert(window(changed, offset_of(i)) =~= slot);
    if i != j {
        let a = i % ROWS_PER_PAGE as int;
        let b = j % ROWS_PER_PAGE as int;
        assert(a != b);
        assert(window(changed, offset_of(j)) =~= window(page, offset_of(j)));
    }
}

/// A table whose slot of row `row_num` was handed out and left with
/// `ROW_SIZE` bytes in it is a table as every table is, holds those bytes in
/// that slot, and holds in every other slot what it held before.
pub proof fn lemma_slot_written(before: Table, after: Table, row_num: int, bytes: Seq<u8>)
    requires
        before.wf(),
        0 <= row_num < TABLE_MAX_ROWS,
        bytes.len() == ROW_SIZE,
        slot_written(before, after, row_num, bytes),
    ensures
        after.wf(),
        after.slot(row_num) == bytes,
        forall|j: int| 0 <= j && j != row_num ==> after.slot(j) == before.slot(j),
{
    lemma_layout();
    let p = page_of(row_num);
    let page = before.page_bytes(p);
    assert(page.len() == PAGE_SIZE);
    lemma_with_window(page, row_num, bytes, row_num);
    assert forall|j: int| 0 <= j && j != row_num implies after.slot(j) == before.slot(j) by {
        if page_of(j) == p {
            lemma_with_window(page, row_num, bytes, j);
        }
    }
    assert forall|i: int| #[trigger] after.written().contains(i) implies 0 <= i < TABLE_MAX_ROWS
        && after.page(page_of(i)) is Some by {
        if i != row_num {
            assert(before.written().contains(i));
        }
    }
    assert forall|q: int| #[trigger] after.page(q) is Some implies exists|i: int| #[trigger]
        after.written().contains(i) && page_of(i) == q by {
        if q == p {
            assert(after.written().contains(row_num));
        } else {
            assert(before.page(q) is Some);
            let i = choose|i: int| #[trigger] before.written().contains(i) && page_of(i) == q;
            assert(after.written().contains(i));
        }
    }
    assert forall|q: int| #[trigger] after.page(q) is Some implies after.page(q)->0.len()
        == PAGE_SIZE by {
        if q != p {
            assert(before.page(q) == after.page(q));
        }
    }
}

/// Hands out the slot that starts at `offset` in `page`.
fn slot_in_page(page: &mut Vec<u8>, offset: usize) -> (bytes: &mut [u8])
    requires
        old(page)@.len() == PAGE_SIZE,
        offset + ROW_SIZE <= PAGE_SIZE,
    ensures
        bytes@ == window(old(page)@, offset as int),
        final(page)@ == with_window(old(page)@, offset as int, final(bytes)@),
{
    let (_, rest) = page.as_mut_slice().split_at_mut(offset);
    let (bytes, _) = rest.split_at_mut(ROW_SIZE);
    bytes
}

impl Table {
    /// Makes a table without rows and without pages.
    pub fn new() -> (table: Table)
        ensures
            table.wf(),
            table.len() == 0,
            table@ == Seq::<RowData>::empty(),
            table.written() == Set::<int>::empty(),
            forall|p: int| table.page(p) is None,
    {
        let mut pages: Vec<Option<Vec<u8>>> = Vec::new();
        let mut p: usize = 0;
        while p < TABLE_MAX_PAGES
            invariant
                p <= TABLE_MAX_PAGES,
                pages@.len() == p,
                forall|q: int| 0 <= q < p ==> pages@[q] is None,
            decreases TABLE_MAX_PAGES - p,
        {
            pages.push(None);
            p += 1;
        }
        let table = Table { num_rows: 0, pages, written: Ghost(Set::empty()) };
        assert(table@ =~= Seq::<RowData>::empty());
        table
    }

    /// The number of rows.
    pub fn num_rows(&self) -> (n: usize)
        ensures
            n == self.len(),
    {
        self.num_rows
    }

    /// Tells whether page `p` has been made.
    pub fn is_allocated(&self, p: usize) -> (made: bool)
        ensures
            made == self.page(p as int) is Some,
    {
        p < self.pages.len() && self.pages[p].is_some()
    }

    /// Hands out the slot of row `row_num` to be written, and makes its page,
    /// filled with zero bytes, if the page has not been made. There is no
    /// slot for a row at or behind `TABLE_MAX_ROWS`.
    ///
    /// The table is as it was but for the bytes of that slot, which are those
    /// that the caller leaves in it. What holds of the table once the slot
    /// is let go of with its `ROW_SIZE` bytes is also told by
    /// `lemma_slot_written`.
    pub fn row_slot(&mut self, row_num: usize) -> (slot: Option<&mut [u8]>)
        requires
            old(self).wf(),
        ensures
            slot is None <==> row_num >= TABLE_MAX_ROWS,
            slot is None ==> *final(self) == *old(self),
            slot matches Some(bytes) ==> {
                &&& bytes@ == old(self).slot(row_num as int)
                &&& bytes@.len() == ROW_SIZE
                &&& slot_written(*old(self), *final(self), row_num as int, final(bytes)@)
                &&& final(bytes)@.len() == ROW_SIZE ==> {
                    &&& final(self).wf()
                    &&& final(self).slot(row_num as int) == final(bytes)@
                    &&& forall|j: int|
                        0 <= j && j != row_num ==> final(self).slot(j) == old(self).slot(j)
                }
            },
    {
        proof {
            let before = *old(self);
            assert forall|after: Table, bytes: Seq<u8>|
                bytes.len() == ROW_SIZE && #[trigger] slot_written(
                    before,
                    after,
                    row_num as int,
                    bytes,
                ) implies after.wf() && after.slot(row_num as int) == bytes && forall|j: int|
                0 <= j && j != row_num ==> after.slot(j) == before.slot(j) by {
                lemma_slot_written(before, after, row_num as int, bytes);
            }
        }
        self.slot_for(row_num)
    }

    /// Makes the page of row `row_num` if it has not been made, and hands out
    /// the slot of the row in it.
    fn slot_for(&mut self, row_num: usize) -> (slot: Option<&mut [u8]>)
        requires
            old(self).wf(),
        ensures
            slot is None <==> row_num >= TABLE_MAX_ROWS,
            slot is None ==> *final(self) == *old(self),
            slot matches Some(bytes) ==> {
                &&& bytes@ == old(self).slot(row_num as int)
                &&& bytes@.len() == ROW_SIZE
                &&& slot_written(*old(self), *final(self), row_num as int, final(bytes)@)
            },
    {
        proof {
            lemma_layout();
        }
        if row_num >= TABLE_MAX_ROWS {
            return None;
        }
        let page_number = row_num / ROWS_PER_PAGE;
        let byte_offset = (row_num % ROWS_PER_PAGE) * ROW_SIZE;
        if self.pages[page_number].is_none() {
            let fresh: Vec<u8> = vec![0u8; PAGE_SIZE];
            assert(fresh@ =~= zero_page());
            self.pages[page_number] = Some(fresh);
        }
        self.written = Ghost(self.written@.insert(row_num as int));
        match &mut self.pages[page_number] {
            Some(page) => Some(slot_in_page(page, byte_offset)),
            None => None,
        }
    }

    /// The bytes of the slot of row `row_num`, if its page has been made.
    pub fn read_slot(&self, row_num: usize) -> (slot: Option<&[u8]>)
        requires
            self.wf(),
        ensures
            slot is Some <==> row_num < TABLE_MAX_ROWS && self.page(page_of(row_num as int))
                is Some,
            slot matches Some(bytes) ==> bytes@ == self.slot(row_num as int),
            row_num < self.len() ==> slot is Some,
    {
        proof {
            lemma_layout();
        }
        if row_num >= TABLE_MAX_ROWS {
            return None;
        }
        let page_number = row_num / ROWS_PER_PAGE;
        let byte_offset = (row_num % ROWS_PER_PAGE) * ROW_SIZE;
        proof {
            if row_num < self.len() {
                assert(self.written().contains(row_num as int));
            }
        }
        match &self.pages[page_number] {
            Some(page) => {
                assert(self.page(page_number as int) == Some(page@));
                Some(slice_subrange(page.as_slice(), byte_offset, byte_offset + ROW_SIZE))
            },
            None => None,
        }
    }

    /// Puts `row` behind the rows of the table. A table that holds
    /// `TABLE_MAX_ROWS` rows takes no more and stays as it is.
    pub fn insert(&mut self, row: &Row) -> (result: Result<(), TableFull>)
        requires
            old(self).wf(),
        ensures
            final(self).wf(),
            result is Ok <==> has_room(old(self)@),
            final(self)@ == inserted(old(self)@, row@),
            result is Ok ==> {
                let index = old(self).len() as int;
                &&& final(self).len() == index + 1
                &&& final(self).slot(index) == encode(row@)
                &&& final(self).written() == old(self).written().insert(index)
                &&& final(self).page(page_of(index)) == Some(
                    with_window(
                        old(self).page_bytes(page_of(index)),
                        offset_of(index),
                        encode(row@),
                    ),
                )
                &&& forall|q: int|
                    q != page_of(index) ==> final(self).page(q) == old(self).page(q)
            },
            result is Err ==> *final(self) == *old(self),
    {
        proof {
            lemma_layout();
        }
        if self.num_rows >= TABLE_MAX_ROWS {
            return Err(TableFull);
        }
        let index = self.num_rows;
        proof {
            lemma_row_valid(*row);
            lemma_decode_encode(row@);
        }
        match self.row_slot(index) {
            Some(slot) => {
                serialize_row(row, slot);
            },
            None => {},
        }
        let ghost filled = *self;
        self.num_rows = index + 1;
        proof {
            assert(filled.wf());
            assert forall|p: int| #[trigger] self.page(p) == filled.page(p) by {}
            assert(self.written() == filled.written());
            assert forall|i: int| 0 <= i < self.len() implies #[trigger] self.slot(i) == (if i
                == index {
                encode(row@)
            } else {
                old(self).slot(i)
            }) by {
                assert(self.slot(i) == filled.slot(i));
            }
            assert(self@ =~= old(self)@.push(row@));
        }
        Ok(())
    }

    /// The row with index `index`, if the table holds that many rows.
    pub fn row_at(&self, index: usize) -> (row: Option<Row>)
        requires
            self.wf(),
        ensures
            row is Some <==> index < self.len(),
            row matches Some(r) ==> r@ == self@[index as int],
    {
        proof {
            lemma_layout();
        }
        if index >= self.num_rows {
            return None;
        }
        match self.read_slot(index) {
            Some(bytes) => Some(deserialize_row(bytes)),
            None => None,
        }
    }

    /// All rows of the table, in the order in which they were put in. The
    /// table stays as it is.
    pub fn scan_all(&self) -> (rows: Vec<Row>)
        requires
            self.wf(),
        ensures
            rows_view(rows@) == self@,
    {
        let mut rows: Vec<Row> = Vec::new();
        let mut index: usize = 0;
        while index < self.num_rows
            invariant
                self.wf(),
                index <= self.len(),
                rows@.len() == index,
                rows_view(rows@) == self@.take(index as int),
            decreases self.len() - index,
        {
            let ghost found = rows@;
            match self.row_at(index) {
                Some(row) => {
                    rows.push(row);
                },
                None => {},
            }
            index += 1;
            proof {
                assert forall|i: int| 0 <= i < index implies rows_view(rows@)[i] == self@[i] by {
                    if i < index - 1 {
                        assert(rows@[i] == found[i]);
                        assert(rows_view(found)[i] == self@.take(index - 1)[i]);
                    }
                }
                assert(rows_view(rows@) =~= self@.take(index as int));
            }
        }
        assert(self@.take(index as int) =~= self@);
        rows
    }
}

/// Rows that are stored one after the other in a table without rows, no more
/// of them than the table can hold, are the rows of the table, in the order
/// in which they were stored.
pub proof fn lemma_rows_after_inserts(more: Seq<RowData>)
    requires
        more.len() <= TABLE_MAX_ROWS,
    ensures
        inserted_all(Seq::empty(), more) == more,
    decreases more.len(),
{
    if more.len() > 0 {
        lemma_rows_after_inserts(more.drop_last());
        assert(more.drop_last().push(more.last()) =~= more);
    }
}

/// A table without rows takes `TABLE_MAX_ROWS` rows, each of them. It takes
/// no row after them: it then holds what it held before.
pub proof fn lemma_capacity(more: Seq<RowData>, extra: RowData)
    requires
        more.len() == TABLE_MAX_ROWS,
    ensures
        forall|k: int|
            0 <= k < TABLE_MAX_ROWS ==> has_room(
                #[trigger] inserted_all(Seq::empty(), more.take(k)),
            ),
        !has_room(inserted_all(Seq::empty(), more)),
        inserted(inserted_all(Seq::empty(), more), extra) == inserted_all(Seq::empty(), more),
        inserted(inserted_all(Seq::empty(), more), extra).len() == TABLE_MAX_ROWS,
{
    lemma_rows_after_inserts(more);
    assert forall|k: int| 0 <= k < TABLE_MAX_ROWS implies has_room(
        #[trigger] inserted_all(Seq::empty(), more.take(k)),
    ) by {
        lemma_rows_after_inserts(more.take(k));
    }
}

} // verus!
