use vstd::prelude::*;

use crate::error::QueryError;
use crate::filter::QueryFilter;
use crate::record::{assemble_row, complete, record_of, ColumnReads, E2NTxResponse};

verus! {

/// One page of a listing. `total` counts every row that matches the
/// filter, over all pages.
pub struct PageResult<T> {
    pub total: i64,
    pub page: i32,
    pub page_size: i32,
    pub data: Vec<T>,
}

/// The rows that `LIMIT size OFFSET offset` keeps of an ordered result.
pub open spec fn page_window<T>(rows: Seq<T>, offset: int, size: int) -> Seq<T> {
    let start = if offset < rows.len() { offset } else { rows.len() as int };
    let end = if offset + size < rows.len() { offset + size } else { rows.len() as int };
    rows.subrange(start, end)
}

/// How many rows a page holds when `total` rows match.
pub open spec fn expected_page_len(total: int, page: int, size: int) -> int {
    let rest = total - (page - 1) * size;
    let left = if rest > 0 { rest } else { 0 };
    if size < left { size } else { left }
}

/// For a valid filter, the page of an ordered result of `total` rows holds
/// `min(page_size, max(0, total - (page - 1) * page_size))` rows.
pub proof fn lemma_page_len<T>(rows: Seq<T>, f: QueryFilter)
    requires
        f.wf(),
    ensures
        page_window(rows, f.offset(), f.page_size as int).len() == expected_page_len(
            rows.len() as int,
            f.page as int,
            f.page_size as int,
        ),
{
    assert(f.offset() >= 0) by (nonlinear_arith)
        requires
            f.page >= 1,
            f.page_size >= 1,
            f.offset() == (f.page as int - 1) * f.page_size as int,
    ;
}

/// Keeps the rows of an ordered result that the filter's page covers.
pub fn take_page<T>(rows: Vec<T>, f: &QueryFilter) -> (r: Vec<T>)
    requires
        f.wf(),
    ensures
        r@ == page_window(rows@, f.offset(), f.page_size as int),
{
    assert(0 <= f.offset() <= 2147483647 * 100) by (nonlinear_arith)
        requires
            1 <= f.page as int <= 2147483647,
            1 <= f.page_size as int <= 100,
            f.offset() == (f.page as int - 1) * f.page_size as int,
    ;
    let offset: i64 = (f.page as i64 - 1) * f.page_size as i64;
    let size = f.page_size as usize;
    let mut rows = rows;
    let ghost all = rows@;
    let n = rows.len();
    if (offset as u64) >= (n as u64) {
        rows.clear();
        assert(rows@ =~= page_window(all, f.offset(), f.page_size as int));
        return rows;
    }
    let start = offset as usize;
    let mut tail = rows.split_off(start);
    if size < tail.len() {
        tail.truncate(size);
    }
    assert(tail@ =~= page_window(all, f.offset(), f.page_size as int));
    tail
}

/// Every row of a page read completely.
pub open spec fn rows_complete(rows: Seq<ColumnReads>) -> bool {
    forall|i: int| 0 <= i < rows.len() ==> complete(#[trigger] rows[i])
}

/// The fetched count and rows form a page: a count that is not negative,
/// no more rows than the page size, and every row complete.
pub open spec fn page_consistent(f: QueryFilter, total: Option<i64>, rows: Seq<ColumnReads>) -> bool {
    &&& total matches Some(t) && t >= 0
    &&& rows.len() <= f.page_size
    &&& rows_complete(rows)
}

/// Assembles the page of a listing from the fetched count and rows; any
/// inconsistency in what the store returned is a storage error.
pub fn finish_page(f: &QueryFilter, total: Option<i64>, rows: Vec<ColumnReads>) -> (r: Result<
    PageResult<E2NTxResponse>,
    QueryError,
>)
    ensures
        r is Ok <==> page_consistent(*f, total, rows@),
        r is Err ==> r == Err::<PageResult<E2NTxResponse>, QueryError>(QueryError::Storage),
        r matches Ok(p) ==> {
            &&& total == Some(p.total)
            &&& p.page == f.page
            &&& p.page_size == f.page_size
            &&& p.data@.len() == rows@.len()
            &&& forall|i: int| 0 <= i < rows@.len() ==> p.data@[i] == record_of(#[trigger] rows@[i])
        },
{
    let t = match total {
        Some(t) => t,
        None => return Err(QueryError::Storage),
    };
    if t < 0 {
        return Err(QueryError::Storage);
    }
    if f.page_size < 0 || rows.len() > f.page_size as usize {
        return Err(QueryError::Storage);
    }
    let ghost all = rows@;
    let n = rows.len();
    let mut rest = rows;
    let mut data: Vec<E2NTxResponse> = Vec::new();
    let mut k: usize = 0;
    while k < n
        invariant
            n == all.len(),
            all == rows@,
            k <= n,
            rest@ == all.subrange(k as int, n as int),
            data@.len() == k,
            forall|i: int| 0 <= i < k ==> complete(#[trigger] all[i]),
            forall|i: int| 0 <= i < k ==> data@[i] == record_of(#[trigger] all[i]),
        decreases n - k,
    {
        let c = rest.remove(0);
        assert(c == all[k as int]);
        match assemble_row(c) {
            Ok(tx) => data.push(tx),
            Err(_) => {
                assert(!complete(all[k as int]));
                assert(!rows_complete(all));
                assert(!page_consistent(*f, total, all));
                return Err(QueryError::Storage);
            },
        }
        k = k + 1;
        assert(rest@ =~= all.subrange(k as int, n as int));
    }
    Ok(PageResult { total: t, page: f.page, page_size: f.page_size, data })
}

} // verus!
