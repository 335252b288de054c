use vstd::prelude::*;

use crate::error::QueryError;
use crate::filter::{build_filter, build_result, GetE2NByTxHashParams, GetE2NTxsParams, QueryFilter};

verus! {

/// A value handed to the store beside the statement text.
#[derive(Debug)]
pub enum BindValue {
    Text(String),
    Int(i64),
}

/// Statement text with `$n` placeholders and the values bound to them, in order.
pub struct Statement {
    pub text: String,
    pub binds: Vec<BindValue>,
}

/// The two statements of a listing: the total count and the requested page.
pub struct QueryPlan {
    pub count: Statement,
    pub page: Statement,
}

/// Predicate over the present filters; empty when there is none.
pub open spec fn where_text(has_sender: bool, has_receiver: bool) -> Seq<char> {
    if has_sender && has_receiver {
        " WHERE sender = $1 AND receiver = $2"@
    } else if has_sender {
        " WHERE sender = $1"@
    } else if has_receiver {
        " WHERE receiver = $1"@
    } else {
        Seq::empty()
    }
}

/// Placeholders of `LIMIT` and `OFFSET`, numbered after the filter values.
pub open spec fn window_text(has_sender: bool, has_receiver: bool) -> Seq<char> {
    if has_sender && has_receiver {
        "$3 OFFSET $4"@
    } else if has_sender || has_receiver {
        "$2 OFFSET $3"@
    } else {
        "$1 OFFSET $2"@
    }
}

pub open spec fn count_head() -> Seq<char> {
    "SELECT count(*) FROM e2n"@
}

pub open spec fn select_head() -> Seq<char> {
    "SELECT tx_hash, block_hash, sender, receiver, asset, amount, decimal, height, timestamp, value FROM e2n"@
}

/// Most recent first; equal timestamps in ascending hash order by code point.
pub open spec fn order_text() -> Seq<char> {
    " ORDER BY timestamp DESC, tx_hash COLLATE \"C\" ASC LIMIT "@
}

pub open spec fn lookup_where() -> Seq<char> {
    " WHERE tx_hash = $1"@
}

pub open spec fn count_text(has_sender: bool, has_receiver: bool) -> Seq<char> {
    count_head() + where_text(has_sender, has_receiver)
}

pub open spec fn page_text(has_sender: bool, has_receiver: bool) -> Seq<char> {
    select_head() + where_text(has_sender, has_receiver) + order_text() + window_text(
        has_sender,
        has_receiver,
    )
}

pub open spec fn lookup_text() -> Seq<char> {
    select_head() + lookup_where()
}

/// The filter values, sender before receiver, each only when present.
pub open spec fn filter_binds(f: QueryFilter) -> Seq<BindValue> {
    let s = match f.sender {
        Some(v) => seq![BindValue::Text(v)],
        None => Seq::empty(),
    };
    let r = match f.receiver {
        Some(v) => seq![BindValue::Text(v)],
        None => Seq::empty(),
    };
    s + r
}

pub open spec fn page_binds(f: QueryFilter) -> Seq<BindValue> {
    filter_binds(f) + seq![BindValue::Int(f.page_size as i64), BindValue::Int(f.offset() as i64)]
}

/// Text in which no single quote occurs.
pub open spec fn quote_free(s: Seq<char>) -> bool {
    forall|i: int| 0 <= i < s.len() ==> s[i] != '\''
}

fn text_bind(s: &Option<String>, binds: &mut Vec<BindValue>)
    ensures
        final(binds)@ == old(binds)@ + match s {
            Some(v) => seq![BindValue::Text(*v)],
            None => Seq::<BindValue>::empty(),
        },
{
    match s {
        Some(v) => binds.push(BindValue::Text(v.clone())),
        None => {},
    }
}

fn filter_bind_values(f: &QueryFilter) -> (r: Vec<BindValue>)
    ensures
        r@ == filter_binds(*f),
{
    let mut binds: Vec<BindValue> = Vec::new();
    text_bind(&f.sender, &mut binds);
    text_bind(&f.receiver, &mut binds);
    binds
}

fn where_clause(has_sender: bool, has_receiver: bool) -> (r: &'static str)
    ensures
        r@ == where_text(has_sender, has_receiver),
{
    if has_sender && has_receiver {
        " WHERE sender = $1 AND receiver = $2"
    } else if has_sender {
        " WHERE sender = $1"
    } else if has_receiver {
        " WHERE receiver = $1"
    } else {
        proof {
            reveal_strlit("");
        }
        ""
    }
}

fn window_clause(has_sender: bool, has_receiver: bool) -> (r: &'static str)
    ensures
        r@ == window_text(has_sender, has_receiver),
{
    if has_sender && has_receiver {
        "$3 OFFSET $4"
    } else if has_sender || has_receiver {
        "$2 OFFSET $3"
    } else {
        "$1 OFFSET $2"
    }
}

/// Builds the count and page statements of a listing.
///
/// The texts depend only on which filters are present; every filter value,
/// the page size and the offset travel as bound values.
pub fn plan(f: &QueryFilter) -> (r: QueryPlan)
    requires
        f.wf(),
    ensures
        r.count.text@ == count_text(f.sender is Some, f.receiver is Some),
        r.count.binds@ == filter_binds(*f),
        r.page.text@ == page_text(f.sender is Some, f.receiver is Some),
        r.page.binds@ == page_binds(*f),
{
    let has_sender = f.sender.is_some();
    let has_receiver = f.receiver.is_some();
    let predicate = where_clause(has_sender, has_receiver);

    let mut count_sql = "SELECT count(*) FROM e2n".to_owned();
    count_sql.append(predicate);

    let mut page_sql =
        "SELECT tx_hash, block_hash, sender, receiver, asset, amount, decimal, height, timestamp, value FROM e2n".to_owned();
    page_sql.append(predicate);
    page_sql.append(" ORDER BY timestamp DESC, tx_hash COLLATE \"C\" ASC LIMIT ");
    page_sql.append(window_clause(has_sender, has_receiver));

    assert((f.page as int - 1) * f.page_size as int <= 2147483647 * 100) by (nonlinear_arith)
        requires
            1 <= f.page as int <= 2147483647,
            1 <= f.page_size as int <= 100,
    ;
    assert(0 <= (f.page as int - 1) * f.page_size as int) by (nonlinear_arith)
        requires
            1 <= f.page as int,
            1 <= f.page_size as int,
    ;
    let offset: i64 = (f.page as i64 - 1) * f.page_size as i64;

    let count_binds = filter_bind_values(f);
    let mut page_bind_list = filter_bind_values(f);
    page_bind_list.push(BindValue::Int(f.page_size as i64));
    page_bind_list.push(BindValue::Int(offset));

    QueryPlan {
        count: Statement { text: count_sql, binds: count_binds },
        page: Statement { text: page_sql, binds: page_bind_list },
    }
}

/// Validates listing parameters and, when they are valid, plans the
/// listing; a rejected request yields its validation error and no statement.
pub fn plan_listing(params: GetE2NTxsParams) -> (r: Result<(QueryFilter, QueryPlan), QueryError>)
    ensures
        r is Ok <==> build_result(params) is Ok,
        r matches Err(e) ==> build_result(params) == Err::<QueryFilter, QueryError>(e),
        r matches Ok((f, p)) ==> {
            &&& build_result(params) == Ok::<QueryFilter, QueryError>(f)
            &&& p.count.text@ == count_text(f.sender is Some, f.receiver is Some)
            &&& p.count.binds@ == filter_binds(f)
            &&& p.page.text@ == page_text(f.sender is Some, f.receiver is Some)
            &&& p.page.binds@ == page_binds(f)
        },
{
    match build_filter(params) {
        Ok(f) => {
            let p = plan(&f);
            Ok((f, p))
        },
        Err(e) => Err(e),
    }
}

/// Builds the statement of a single-record lookup by hash.
pub fn plan_lookup(params: &GetE2NByTxHashParams) -> (r: Statement)
    ensures
        r.text@ == lookup_text(),
        r.binds@ == seq![BindValue::Text(params.hash)],
{
    let mut sql =
        "SELECT tx_hash, block_hash, sender, receiver, asset, amount, decimal, height, timestamp, value FROM e2n".to_owned();
    sql.append(" WHERE tx_hash = $1");
    let mut binds: Vec<BindValue> = Vec::new();
    binds.push(BindValue::Text(params.hash.clone()));
    Statement { text: sql, binds }
}

proof fn lemma_quote_free_concat(a: Seq<char>, b: Seq<char>)
    requires
        quote_free(a),
        quote_free(b),
    ensures
        quote_free(a + b),
{
    assert forall|i: int| 0 <= i < (a + b).len() implies (a + b)[i] != '\'' by {
        if i < a.len() {
            assert((a + b)[i] == a[i]);
        } else {
            assert((a + b)[i] == b[i - a.len()]);
        }
    }
}

proof fn lemma_fragments_quote_free()
    ensures
        quote_free(count_head()),
        quote_free(select_head()),
        quote_free(order_text()),
        quote_free(lookup_where()),
        forall|s: bool, r: bool| #[trigger] quote_free(where_text(s, r)),
        forall|s: bool, r: bool| #[trigger] quote_free(window_text(s, r)),
{
    reveal_strlit("SELECT count(*) FROM e2n");
    reveal_strlit(
        "SELECT tx_hash, block_hash, sender, receiver, asset, amount, decimal, height, timestamp, value FROM e2n",
    );
    reveal_strlit(" ORDER BY timestamp DESC, tx_hash COLLATE \"C\" ASC LIMIT ");
    reveal_strlit(" WHERE tx_hash = $1");
    reveal_strlit(" WHERE sender = $1 AND receiver = $2");
    reveal_strlit(" WHERE sender = $1");
    reveal_strlit(" WHERE receiver = $1");
    reveal_strlit("$3 OFFSET $4");
    reveal_strlit("$2 OFFSET $3");
    reveal_strlit("$1 OFFSET $2");
}

/// Filter values never reach the statement text: two filters with the same
/// filters present give the same count and page texts, and no text of a
/// listing or a lookup holds a single quote, whatever the values hold.
pub proof fn lemma_values_stay_out_of_text(f: QueryFilter, g: QueryFilter)
    requires
        f.sender is Some == g.sender is Some,
        f.receiver is Some == g.receiver is Some,
    ensures
        count_text(f.sender is Some, f.receiver is Some) == count_text(
            g.sender is Some,
            g.receiver is Some,
        ),
        page_text(f.sender is Some, f.receiver is Some) == page_text(
            g.sender is Some,
            g.receiver is Some,
        ),
        quote_free(count_text(f.sender is Some, f.receiver is Some)),
        quote_free(page_text(f.sender is Some, f.receiver is Some)),
        quote_free(lookup_text()),
{
    let s = f.sender is Some;
    let r = f.receiver is Some;
    lemma_fragments_quote_free();
    assert(quote_free(where_text(s, r)));
    assert(quote_free(window_text(s, r)));
    lemma_quote_free_concat(count_head(), where_text(s, r));
    lemma_quote_free_concat(select_head(), where_text(s, r));
    lemma_quote_free_concat(select_head() + where_text(s, r), order_text());
    lemma_quote_free_concat(select_head() + where_text(s, r) + order_text(), window_text(s, r));
    lemma_quote_free_concat(select_head(), lookup_where());
}

/// Without sender or receiver there is no predicate: the count covers the
/// whole table, and the page is the table in descending timestamp order,
/// ties in ascending hash order, at most `page_size` rows from the offset.
pub proof fn lemma_unfiltered_plan(f: QueryFilter)
    requires
        f.sender is None,
        f.receiver is None,
    ensures
        count_text(false, false) == "SELECT count(*) FROM e2n"@,
        page_text(false, false) == select_head()
            + " ORDER BY timestamp DESC, tx_hash COLLATE \"C\" ASC LIMIT $1 OFFSET $2"@,
        filter_binds(f) == Seq::<BindValue>::empty(),
        page_binds(f) == seq![BindValue::Int(f.page_size as i64), BindValue::Int(f.offset() as i64)],
{
    reveal_strlit(" ORDER BY timestamp DESC, tx_hash COLLATE \"C\" ASC LIMIT ");
    reveal_strlit("$1 OFFSET $2");
    reveal_strlit(" ORDER BY timestamp DESC, tx_hash COLLATE \"C\" ASC LIMIT $1 OFFSET $2");
    assert(count_text(false, false) =~= count_head());
    assert(order_text() + window_text(false, false)
        =~= " ORDER BY timestamp DESC, tx_hash COLLATE \"C\" ASC LIMIT $1 OFFSET $2"@);
    assert(page_text(false, false) =~= select_head() + (order_text() + window_text(false, false)));
    assert(filter_binds(f) =~= Seq::<BindValue>::empty());
    assert(page_binds(f) =~= seq![BindValue::Int(f.page_size as i64), BindValue::Int(f.offset() as i64)]);
}

} // verus!
