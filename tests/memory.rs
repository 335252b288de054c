use explorer::error::QueryError;
use explorer::filter::{build_filter, GetE2NTxsParams};
use explorer::memory::MemoryTable;
use explorer::record::E2NTxResponse;
use serde_json::Value;

fn tx(hash: &str, sender: &str, timestamp: i64) -> E2NTxResponse {
    E2NTxResponse {
        tx_hash: hash.to_string(),
        block_hash: "0xblock".to_string(),
        from: sender.to_string(),
        to: "R".to_string(),
        asset: "FRA".to_string(),
        amount: "1".to_string(),
        decimal: 0,
        height: timestamp,
        timestamp,
        value: Value::Null,
    }
}

fn listing(from: Option<&str>, page: i32, page_size: i32) -> GetE2NTxsParams {
    GetE2NTxsParams {
        from: from.map(|s| s.to_string()),
        to: None,
        page: Some(page),
        page_size: Some(page_size),
    }
}

fn seeded() -> MemoryTable {
    let mut t = MemoryTable::new();
    assert!(t.insert(tx("0x1", "A", 1)));
    assert!(t.insert(tx("0x2", "A", 2)));
    assert!(t.insert(tx("0x3", "B", 3)));
    t
}

#[test]
fn sender_filter_first_page_of_one() {
    let t = seeded();
    let f = build_filter(listing(Some("A"), 1, 1)).unwrap();
    let p = t.list(&f);
    assert_eq!(p.total, 2);
    assert_eq!(p.data.len(), 1);
    assert_eq!(p.data[0].timestamp, 2);
    assert_eq!(p.data[0].tx_hash, "0x2");
}

#[test]
fn unfiltered_listing_is_most_recent_first() {
    let t = seeded();
    let f = build_filter(listing(None, 1, 10)).unwrap();
    let p = t.list(&f);
    assert_eq!(p.total, 3);
    let stamps: Vec<i64> = p.data.iter().map(|r| r.timestamp).collect();
    assert_eq!(stamps, vec![3, 2, 1]);
}

#[test]
fn equal_timestamps_follow_hash_order() {
    let mut t = MemoryTable::new();
    assert!(t.insert(tx("0xc", "A", 5)));
    assert!(t.insert(tx("0xa", "A", 5)));
    assert!(t.insert(tx("0xb", "A", 5)));
    assert!(t.insert(tx("0xd", "A", 9)));
    let p = t.list(&build_filter(listing(None, 1, 10)).unwrap());
    let hashes: Vec<&str> = p.data.iter().map(|r| r.tx_hash.as_str()).collect();
    assert_eq!(hashes, vec!["0xd", "0xa", "0xb", "0xc"]);
}

#[test]
fn page_lengths_follow_total() {
    let mut t = MemoryTable::new();
    for i in 0..7 {
        assert!(t.insert(tx(&format!("0x{i}"), "A", i)));
    }
    let len = |page: i32, size: i32| t.list(&build_filter(listing(None, page, size)).unwrap()).data.len();
    assert_eq!(len(1, 3), 3);
    assert_eq!(len(2, 3), 3);
    assert_eq!(len(3, 3), 1);
    assert_eq!(len(4, 3), 0);
    assert_eq!(len(1, 100), 7);
    let p = t.list(&build_filter(listing(None, 3, 3)).unwrap());
    assert_eq!(p.total, 7);
    assert_eq!(p.data[0].timestamp, 0);
}

#[test]
fn duplicate_hash_is_not_inserted() {
    let mut t = seeded();
    assert!(!t.insert(tx("0x2", "C", 9)));
    assert_eq!(t.rows.len(), 3);
}

#[test]
fn fetch_one_missing_hash_is_not_found() {
    let t = seeded();
    assert_eq!(t.fetch_one("nonexistent-hash").err(), Some(QueryError::NotFound));
}

#[test]
fn fetch_one_finds_row() {
    let t = seeded();
    let r = t.fetch_one("0x3").unwrap();
    assert_eq!(r.from, "B");
    assert_eq!(r.timestamp, 3);
}

#[test]
fn stored_amount_comes_back_unchanged() {
    let mut t = MemoryTable::new();
    let mut row = tx("0xfe", "A", 1);
    row.amount = "123.450000".to_string();
    row.decimal = 6;
    assert!(t.insert(row));
    let back = t.fetch_one("0xfe").unwrap();
    assert_eq!(back.amount, "123.450000");
    assert_eq!(back.decimal, 6);
}

#[test]
fn quoted_sender_matches_only_itself() {
    let mut t = seeded();
    assert!(t.insert(tx("0x9", "o'brien", 4)));
    let p = t.list(&build_filter(listing(Some("o'brien"), 1, 10)).unwrap());
    assert_eq!(p.total, 1);
    assert_eq!(p.data[0].tx_hash, "0x9");
    let none = t.list(&build_filter(listing(Some("x' OR '1'='1"), 1, 10)).unwrap());
    assert_eq!(none.total, 0);
    assert!(none.data.is_empty());
}
