use vstd::prelude::*;

use sqlx::postgres::PgRow;
use sqlx::Row;

use crate::error::QueryError;

verus! {

/// A stored row, passed through untouched.
#[verifier::external_type_specification]
#[verifier::external_body]
pub struct ExPgRow(sqlx::postgres::PgRow);

/// Arbitrary JSON, passed through untouched.
#[verifier::external_type_specification]
#[verifier::external_body]
pub struct ExValue(serde_json::Value);

/// One bridge transaction as handed to clients. The store's `sender` and
/// `receiver` columns appear as `from` and `to`; `amount` keeps the store's
/// decimal text, with `decimal` fractional digits.
pub struct E2NTxResponse {
    pub tx_hash: String,
    pub block_hash: String,
    pub from: String,
    pub to: String,
    pub asset: String,
    pub amount: String,
    pub decimal: i32,
    pub height: i64,
    pub timestamp: i64,
    pub value: serde_json::Value,
}

/// The columns of a fetched row, each read by name; `None` where the column
/// is missing or does not hold a value of the expected type.
pub struct ColumnReads {
    pub tx_hash: Option<String>,
    pub block_hash: Option<String>,
    pub sender: Option<String>,
    pub receiver: Option<String>,
    pub asset: Option<String>,
    pub amount: Option<String>,
    pub decimal: Option<i32>,
    pub height: Option<i64>,
    pub timestamp: Option<i64>,
    pub value: Option<serde_json::Value>,
}

/// Every expected column was read.
pub open spec fn complete(c: ColumnReads) -> bool {
    &&& c.tx_hash is Some
    &&& c.block_hash is Some
    &&& c.sender is Some
    &&& c.receiver is Some
    &&& c.asset is Some
    &&& c.amount is Some
    &&& c.decimal is Some
    &&& c.height is Some
    &&& c.timestamp is Some
    &&& c.value is Some
}

/// The record that a complete row stands for.
pub open spec fn record_of(c: ColumnReads) -> E2NTxResponse
    recommends
        complete(c),
{
    E2NTxResponse {
        tx_hash: c.tx_hash.unwrap(),
        block_hash: c.block_hash.unwrap(),
        from: c.sender.unwrap(),
        to: c.receiver.unwrap(),
        asset: c.asset.unwrap(),
        amount: c.amount.unwrap(),
        decimal: c.decimal.unwrap(),
        height: c.height.unwrap(),
        timestamp: c.timestamp.unwrap(),
        value: c.value.unwrap(),
    }
}

pub open spec fn row_result(c: ColumnReads) -> Result<E2NTxResponse, QueryError> {
    if complete(c) {
        Ok(record_of(c))
    } else {
        Err(QueryError::Storage)
    }
}

/// The text that a row holds in the named column, if it holds text there.
pub uninterp spec fn column_text(row: PgRow, name: Seq<char>) -> Option<Seq<char>>;

/// The 4-byte integer that a row holds in the named column, if any.
pub uninterp spec fn column_int4(row: PgRow, name: Seq<char>) -> Option<i32>;

/// The 8-byte integer that a row holds in the named column, if any.
pub uninterp spec fn column_int8(row: PgRow, name: Seq<char>) -> Option<i64>;

/// Whether a row holds a JSON value in the named column.
pub uninterp spec fn column_json_present(row: PgRow, name: Seq<char>) -> bool;

/// Relies on `sqlx::Row::try_get` with a `String` target: reads a text column by name.
#[verifier::external_body]
fn text_column(row: &PgRow, name: &str) -> (r: Option<String>)
    ensures
        r is Some <==> column_text(*row, name@) is Some,
        r matches Some(s) ==> column_text(*row, name@) == Some(s@),
{
    row.try_get::<String, &str>(name).ok()
}

/// Relies on `sqlx::Row::try_get` with an `i32` target: reads a 4-byte integer column by name.
#[verifier::external_body]
fn int4_column(row: &PgRow, name: &str) -> (r: Option<i32>)
    ensures
        r == column_int4(*row, name@),
{
    row.try_get::<i32, &str>(name).ok()
}

/// Relies on `sqlx::Row::try_get` with an `i64` target: reads an 8-byte integer column by name.
#[verifier::external_body]
fn int8_column(row: &PgRow, name: &str) -> (r: Option<i64>)
    ensures
        r == column_int8(*row, name@),
{
    row.try_get::<i64, &str>(name).ok()
}

/// Relies on `sqlx::Row::try_get` with a `serde_json::Value` target: reads a JSON column by name.
#[verifier::external_body]
fn json_column(row: &PgRow, name: &str) -> (r: Option<serde_json::Value>)
    ensures
        r is Some <==> column_json_present(*row, name@),
{
    row.try_get::<serde_json::Value, &str>(name).ok()
}

/// A text field read from the named column.
pub open spec fn text_read(r: Option<String>, row: PgRow, name: Seq<char>) -> bool {
    &&& (r is Some <==> column_text(row, name) is Some)
    &&& (r matches Some(s) ==> column_text(row, name) == Some(s@))
}

/// Reads every column of a bridge transaction from a fetched row by its
/// name, so that the order of the store's columns does not matter; the
/// `sender` and `receiver` columns fill `sender` and `receiver`, which
/// become the record's `from` and `to`.
pub fn read_columns(row: &PgRow) -> (r: ColumnReads)
    ensures
        text_read(r.tx_hash, *row, "tx_hash"@),
        text_read(r.block_hash, *row, "block_hash"@),
        text_read(r.sender, *row, "sender"@),
        text_read(r.receiver, *row, "receiver"@),
        text_read(r.asset, *row, "asset"@),
        text_read(r.amount, *row, "amount"@),
        r.decimal == column_int4(*row, "decimal"@),
        r.height == column_int8(*row, "height"@),
        r.timestamp == column_int8(*row, "timestamp"@),
        r.value is Some <==> column_json_present(*row, "value"@),
{
    ColumnReads {
        tx_hash: text_column(row, "tx_hash"),
        block_hash: text_column(row, "block_hash"),
        sender: text_column(row, "sender"),
        receiver: text_column(row, "receiver"),
        asset: text_column(row, "asset"),
        amount: text_column(row, "amount"),
        decimal: int4_column(row, "decimal"),
        height: int8_column(row, "height"),
        timestamp: int8_column(row, "timestamp"),
        value: json_column(row, "value"),
    }
}

/// Reads the `count` column of the count statement's row.
pub fn read_total(row: &PgRow) -> (r: Option<i64>)
    ensures
        r == column_int8(*row, "count"@),
{
    int8_column(row, "count")
}

/// Turns the columns of one row into a record; a missing or mistyped
/// column is a storage error, never a default.
pub fn assemble_row(c: ColumnReads) -> (r: Result<E2NTxResponse, QueryError>)
    ensures
        r == row_result(c),
{
    match (c.tx_hash, c.block_hash, c.sender, c.receiver, c.asset, c.amount) {
        (Some(tx_hash), Some(block_hash), Some(from), Some(to), Some(asset), Some(amount)) => {
            match (c.decimal, c.height, c.timestamp, c.value) {
                (Some(decimal), Some(height), Some(timestamp), Some(value)) => {
                    Ok(
                        E2NTxResponse {
                            tx_hash,
                            block_hash,
                            from,
                            to,
                            asset,
                            amount,
                            decimal,
                            height,
                            timestamp,
                            value,
                        },
                    )
                },
                _ => Err(QueryError::Storage),
            }
        },
        _ => Err(QueryError::Storage),
    }
}

/// The outcome of a lookup by hash, from the row it fetched if any.
pub fn finish_lookup(found: Option<ColumnReads>) -> (r: Result<E2NTxResponse, QueryError>)
    ensures
        found is None ==> r == Err::<E2NTxResponse, QueryError>(QueryError::NotFound),
        found matches Some(c) ==> r == row_result(c),
{
    match found {
        Some(c) => assemble_row(c),
        None => Err(QueryError::NotFound),
    }
}

} // verus!
