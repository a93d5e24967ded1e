use rowdb::codec::{deserialize_row, serialize_row};
use rowdb::layout::{PAGE_SIZE, ROWS_PER_PAGE, ROW_SIZE, TABLE_MAX_PAGES, TABLE_MAX_ROWS};
use rowdb::row::Row;
use rowdb::table::{Table, TableFull};

fn numbered(i: usize) -> Row {
    Row::new(i as u32, &format!("user{}", i), &format!("user{}@example.com", i))
}

#[test]
fn new_table_is_empty_and_has_no_pages() {
    let table = Table::new();
    assert_eq!(table.num_rows(), 0);
    for p in 0..TABLE_MAX_PAGES {
        assert!(!table.is_allocated(p));
    }
    assert!(!table.is_allocated(TABLE_MAX_PAGES));
    assert!(table.scan_all().is_empty());
    assert!(table.row_at(0).is_none());
}

#[test]
fn scan_yields_the_inserted_rows_in_order() {
    let mut table = Table::new();
    let rows: Vec<Row> = (0..40).map(numbered).collect();
    for row in rows.iter() {
        assert_eq!(table.insert(row), Ok(()));
    }
    assert_eq!(table.num_rows(), 40);
    assert_eq!(table.scan_all(), rows);
    assert_eq!(table.scan_all(), rows);
    for (i, row) in rows.iter().enumerate() {
        assert_eq!(table.row_at(i), Some(*row));
    }
    assert!(table.row_at(40).is_none());
}

#[test]
fn rows_with_the_same_id_are_all_kept() {
    let mut table = Table::new();
    let a = Row::new(1, "a", "a@x");
    let b = Row::new(1, "b", "b@x");
    assert!(table.insert(&a).is_ok());
    assert!(table.insert(&b).is_ok());
    assert!(table.insert(&a).is_ok());
    assert_eq!(table.scan_all(), vec![a, b, a]);
}

#[test]
fn table_takes_exactly_its_capacity() {
    let mut table = Table::new();
    for i in 0..TABLE_MAX_ROWS {
        assert_eq!(table.insert(&numbered(i)), Ok(()), "row {}", i);
        assert_eq!(table.num_rows(), i + 1);
    }
    assert_eq!(table.num_rows(), 1400);
    let before = table.scan_all();
    assert_eq!(table.insert(&numbered(TABLE_MAX_ROWS)), Err(TableFull));
    assert_eq!(table.num_rows(), TABLE_MAX_ROWS);
    assert_eq!(table.insert(&numbered(0)), Err(TableFull));
    assert_eq!(table.num_rows(), TABLE_MAX_ROWS);
    assert_eq!(table.scan_all(), before);
    assert_eq!(before.len(), TABLE_MAX_ROWS);
    assert_eq!(before[0], numbered(0));
    assert_eq!(before[1399], numbered(1399));
    assert_eq!(table.row_at(1399), Some(numbered(1399)));
    assert!(table.row_at(1400).is_none());
}

#[test]
fn pages_are_made_when_a_row_is_first_written_to_them() {
    let mut table = Table::new();
    assert!(table.insert(&numbered(0)).is_ok());
    assert!(table.is_allocated(0));
    assert!(!table.is_allocated(1));
    for i in 1..ROWS_PER_PAGE {
        assert!(table.insert(&numbered(i)).is_ok());
    }
    assert!(!table.is_allocated(1));
    assert!(table.insert(&numbered(ROWS_PER_PAGE)).is_ok());
    assert!(table.is_allocated(1));
    for p in 2..TABLE_MAX_PAGES {
        assert!(!table.is_allocated(p));
    }
}

#[test]
fn row_slot_is_a_window_of_row_size_bytes() {
    let mut table = Table::new();
    {
        let slot = table.row_slot(0).unwrap();
        assert_eq!(slot.len(), ROW_SIZE);
        assert!(slot.iter().all(|b| *b == 0));
    }
    assert!(table.is_allocated(0));
    assert_eq!(table.num_rows(), 0);
}

#[test]
fn row_slot_fails_behind_the_last_page() {
    let mut table = Table::new();
    assert!(table.row_slot(TABLE_MAX_ROWS).is_none());
    assert!(table.row_slot(TABLE_MAX_ROWS + 1).is_none());
    assert!(table.row_slot(usize::MAX).is_none());
    for p in 0..TABLE_MAX_PAGES {
        assert!(!table.is_allocated(p));
    }
    assert!(table.row_slot(TABLE_MAX_ROWS - 1).is_some());
    assert!(table.is_allocated(TABLE_MAX_PAGES - 1));
    assert!(!table.is_allocated(TABLE_MAX_PAGES - 2));
}

#[test]
fn row_slot_addresses_page_and_offset() {
    let mut table = Table::new();
    let row = numbered(5);
    serialize_row(&row, table.row_slot(15).unwrap());
    assert!(!table.is_allocated(0));
    assert!(table.is_allocated(1));
    assert_eq!(deserialize_row(table.read_slot(15).unwrap()), row);
    assert!(table.read_slot(14).unwrap().iter().all(|b| *b == 0));
    assert!(table.read_slot(16).unwrap().iter().all(|b| *b == 0));
    assert!(table.read_slot(27).unwrap().iter().all(|b| *b == 0));
    assert!(table.read_slot(0).is_none());
    assert!(table.read_slot(13).is_none());
    assert!(table.read_slot(28).is_none());
}

#[test]
fn writing_one_slot_leaves_the_others() {
    let mut table = Table::new();
    for i in 0..ROWS_PER_PAGE {
        serialize_row(&numbered(i), table.row_slot(i).unwrap());
    }
    serialize_row(&numbered(100), table.row_slot(7).unwrap());
    for i in 0..ROWS_PER_PAGE {
        let expected = if i == 7 { numbered(100) } else { numbered(i) };
        assert_eq!(deserialize_row(table.read_slot(i).unwrap()), expected);
    }
}

#[test]
fn read_slot_has_row_size_bytes_and_fails_out_of_range() {
    let mut table = Table::new();
    assert!(table.read_slot(0).is_none());
    assert!(table.insert(&numbered(3)).is_ok());
    let slot = table.read_slot(0).unwrap();
    assert_eq!(slot.len(), ROW_SIZE);
    assert_eq!(deserialize_row(slot), numbered(3));
    assert_eq!(table.read_slot(1).unwrap().len(), ROW_SIZE);
    assert!(table.read_slot(TABLE_MAX_ROWS).is_none());
    assert!(ROWS_PER_PAGE * ROW_SIZE <= PAGE_SIZE);
}

#[test]
fn inserted_row_is_encoded_in_its_slot() {
    let mut table = Table::new();
    for i in 0..20 {
        assert!(table.insert(&numbered(i)).is_ok());
    }
    let mut expected = vec![0u8; ROW_SIZE];
    serialize_row(&numbered(17), &mut expected);
    assert_eq!(table.read_slot(17).unwrap(), &expected[..]);
}
