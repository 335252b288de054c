use explorer::error::QueryError;
use explorer::filter::QueryFilter;
use explorer::page::{finish_page, take_page};
use explorer::record::{assemble_row, finish_lookup, ColumnReads};
use serde_json::Value;

fn reads(tx_hash: &str, sender: &str, amount: &str, decimal: i32, timestamp: i64) -> ColumnReads {
    ColumnReads {
        tx_hash: Some(tx_hash.to_string()),
        block_hash: Some("0xblock".to_string()),
        sender: Some(sender.to_string()),
        receiver: Some("R".to_string()),
        asset: Some("FRA".to_string()),
        amount: Some(amount.to_string()),
        decimal: Some(decimal),
        height: Some(42),
        timestamp: Some(timestamp),
        value: Some(Value::String("payload".to_string())),
    }
}

fn filter(page: i32, page_size: i32) -> QueryFilter {
    QueryFilter { sender: None, receiver: None, page, page_size }
}

#[test]
fn complete_row_maps_with_renamed_fields() {
    let tx = assemble_row(reads("0x1", "A", "1", 0, 7)).unwrap();
    assert_eq!(tx.tx_hash, "0x1");
    assert_eq!(tx.block_hash, "0xblock");
    assert_eq!(tx.from, "A");
    assert_eq!(tx.to, "R");
    assert_eq!(tx.asset, "FRA");
    assert_eq!(tx.height, 42);
    assert_eq!(tx.timestamp, 7);
    assert_eq!(tx.value, Value::String("payload".to_string()));
}

#[test]
fn amount_text_round_trips() {
    let tx = assemble_row(reads("0x1", "A", "123.450000", 6, 1)).unwrap();
    assert_eq!(tx.amount, "123.450000");
    assert_eq!(tx.decimal, 6);
}

#[test]
fn missing_column_is_storage_error() {
    let mut r = reads("0x1", "A", "1", 0, 1);
    r.value = None;
    assert_eq!(assemble_row(r).err(), Some(QueryError::Storage));
    let mut r = reads("0x1", "A", "1", 0, 1);
    r.tx_hash = None;
    assert_eq!(assemble_row(r).err(), Some(QueryError::Storage));
}

#[test]
fn lookup_without_row_is_not_found() {
    assert_eq!(finish_lookup(None).err(), Some(QueryError::NotFound));
}

#[test]
fn lookup_with_broken_row_is_storage_error() {
    let mut r = reads("0x1", "A", "1", 0, 1);
    r.height = None;
    assert_eq!(finish_lookup(Some(r)).err(), Some(QueryError::Storage));
}

#[test]
fn lookup_with_row_returns_it() {
    let tx = finish_lookup(Some(reads("0x9", "A", "5", 0, 1))).unwrap();
    assert_eq!(tx.tx_hash, "0x9");
}

#[test]
fn page_keeps_count_and_rows() {
    let p = finish_page(&filter(1, 2), Some(5), vec![reads("0x2", "A", "1", 0, 2), reads("0x1", "A", "1", 0, 1)])
        .unwrap();
    assert_eq!(p.total, 5);
    assert_eq!(p.page, 1);
    assert_eq!(p.page_size, 2);
    assert_eq!(p.data.len(), 2);
    assert_eq!(p.data[0].tx_hash, "0x2");
    assert_eq!(p.data[1].tx_hash, "0x1");
}

#[test]
fn page_without_count_is_storage_error() {
    let r = finish_page(&filter(1, 2), None, vec![]);
    assert_eq!(r.err(), Some(QueryError::Storage));
}

#[test]
fn page_with_negative_count_is_storage_error() {
    let r = finish_page(&filter(1, 2), Some(-1), vec![]);
    assert_eq!(r.err(), Some(QueryError::Storage));
}

#[test]
fn page_with_too_many_rows_is_storage_error() {
    let rows = vec![reads("0x1", "A", "1", 0, 1), reads("0x2", "A", "1", 0, 1)];
    let r = finish_page(&filter(1, 1), Some(2), rows);
    assert_eq!(r.err(), Some(QueryError::Storage));
}

#[test]
fn page_with_broken_row_is_storage_error() {
    let mut bad = reads("0x2", "A", "1", 0, 1);
    bad.decimal = None;
    let r = finish_page(&filter(1, 5), Some(2), vec![reads("0x1", "A", "1", 0, 1), bad]);
    assert_eq!(r.err(), Some(QueryError::Storage));
}

#[test]
fn page_window_lengths() {
    let rows: Vec<u32> = (0..25).collect();
    assert_eq!(take_page(rows.clone(), &filter(1, 10)), (0..10).collect::<Vec<u32>>());
    assert_eq!(take_page(rows.clone(), &filter(3, 10)), (20..25).collect::<Vec<u32>>());
    assert!(take_page(rows.clone(), &filter(4, 10)).is_empty());
    assert!(take_page(Vec::<u32>::new(), &filter(1, 10)).is_empty());
    assert_eq!(take_page(rows, &filter(i32::MAX, 100)).len(), 0);
}

#[test]
fn error_messages_are_not_empty() {
    assert!(!QueryError::Storage.message().is_empty());
    assert!(!QueryError::NotFound.message().is_empty());
}
