use explorer::error::{Invalid, QueryError};
use explorer::filter::{GetE2NByTxHashParams, GetE2NTxsParams, QueryFilter};
use explorer::plan::{plan, plan_listing, plan_lookup, BindValue};

const SELECT: &str = "SELECT tx_hash, block_hash, sender, receiver, asset, amount, decimal, height, timestamp, value FROM e2n";

fn filter(sender: Option<&str>, receiver: Option<&str>, page: i32, page_size: i32) -> QueryFilter {
    QueryFilter {
        sender: sender.map(|s| s.to_string()),
        receiver: receiver.map(|s| s.to_string()),
        page,
        page_size,
    }
}

fn text_bind(b: &BindValue) -> Option<&str> {
    match b {
        BindValue::Text(s) => Some(s.as_str()),
        BindValue::Int(_) => None,
    }
}

fn int_bind(b: &BindValue) -> Option<i64> {
    match b {
        BindValue::Int(i) => Some(*i),
        BindValue::Text(_) => None,
    }
}

#[test]
fn unfiltered_plan_has_no_predicate() {
    let p = plan(&filter(None, None, 1, 10));
    assert_eq!(p.count.text, "SELECT count(*) FROM e2n");
    assert!(p.count.binds.is_empty());
    assert_eq!(
        p.page.text,
        format!("{} ORDER BY timestamp DESC, tx_hash COLLATE \"C\" ASC LIMIT $1 OFFSET $2", SELECT)
    );
    assert_eq!(p.page.binds.len(), 2);
    assert_eq!(int_bind(&p.page.binds[0]), Some(10));
    assert_eq!(int_bind(&p.page.binds[1]), Some(0));
}

#[test]
fn sender_filter_is_bound() {
    let p = plan(&filter(Some("A"), None, 3, 10));
    assert_eq!(p.count.text, "SELECT count(*) FROM e2n WHERE sender = $1");
    assert_eq!(
        p.page.text,
        format!("{} WHERE sender = $1 ORDER BY timestamp DESC, tx_hash COLLATE \"C\" ASC LIMIT $2 OFFSET $3", SELECT)
    );
    assert_eq!(text_bind(&p.count.binds[0]), Some("A"));
    assert_eq!(text_bind(&p.page.binds[0]), Some("A"));
    assert_eq!(int_bind(&p.page.binds[1]), Some(10));
    assert_eq!(int_bind(&p.page.binds[2]), Some(20));
}

#[test]
fn receiver_filter_is_bound() {
    let p = plan(&filter(None, Some("B"), 1, 5));
    assert_eq!(p.count.text, "SELECT count(*) FROM e2n WHERE receiver = $1");
    assert_eq!(p.count.binds.len(), 1);
    assert_eq!(text_bind(&p.count.binds[0]), Some("B"));
}

#[test]
fn both_filters_are_bound_in_order() {
    let p = plan(&filter(Some("A"), Some("B"), 2, 4));
    assert_eq!(
        p.count.text,
        "SELECT count(*) FROM e2n WHERE sender = $1 AND receiver = $2"
    );
    assert_eq!(
        p.page.text,
        format!(
            "{} WHERE sender = $1 AND receiver = $2 ORDER BY timestamp DESC, tx_hash COLLATE \"C\" ASC LIMIT $3 OFFSET $4",
            SELECT
        )
    );
    assert_eq!(text_bind(&p.page.binds[0]), Some("A"));
    assert_eq!(text_bind(&p.page.binds[1]), Some("B"));
    assert_eq!(int_bind(&p.page.binds[2]), Some(4));
    assert_eq!(int_bind(&p.page.binds[3]), Some(4));
}

#[test]
fn quotes_never_reach_the_text() {
    let hostile = "x' OR '1'='1";
    let p = plan(&filter(Some(hostile), Some("o'brien"), 1, 10));
    assert!(!p.count.text.contains('\''));
    assert!(!p.page.text.contains('\''));
    assert_eq!(text_bind(&p.count.binds[0]), Some(hostile));
    assert_eq!(text_bind(&p.count.binds[1]), Some("o'brien"));
    let q = plan(&filter(Some("A"), Some("B"), 1, 10));
    assert_eq!(p.count.text, q.count.text);
    assert_eq!(p.page.text, q.page.text);
}

#[test]
fn largest_page_does_not_overflow() {
    let p = plan(&filter(None, None, i32::MAX, 100));
    assert_eq!(int_bind(&p.page.binds[1]), Some((i32::MAX as i64 - 1) * 100));
}

#[test]
fn lookup_binds_the_hash() {
    let s = plan_lookup(&GetE2NByTxHashParams { hash: "0xab'c".to_string() });
    assert_eq!(s.text, format!("{} WHERE tx_hash = $1", SELECT));
    assert_eq!(s.binds.len(), 1);
    assert_eq!(text_bind(&s.binds[0]), Some("0xab'c"));
}

#[test]
fn listing_plan_validates_then_plans() {
    let params = GetE2NTxsParams { from: Some("A".to_string()), to: None, page: Some(2), page_size: Some(3) };
    let (f, p) = plan_listing(params).unwrap();
    assert_eq!(f.sender.as_deref(), Some("A"));
    assert_eq!(p.count.text, "SELECT count(*) FROM e2n WHERE sender = $1");
    assert_eq!(int_bind(&p.page.binds[2]), Some(3));
    let bad = GetE2NTxsParams { from: None, to: None, page: Some(1), page_size: Some(0) };
    assert_eq!(plan_listing(bad).err(), Some(QueryError::Validation(Invalid::PageSize)));
}
