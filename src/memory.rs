use vstd::prelude::*;
use vstd::multiset::Multiset;
use vstd::relations::sorted_by;
use vstd::seq_lib::group_to_multiset_ensures;

use crate::error::QueryError;
use crate::filter::{build_result, GetE2NTxsParams, QueryFilter};
use crate::plan::{count_text, filter_binds, page_binds, BindValue};
use crate::page::{expected_page_len, lemma_page_len, page_window, take_page, PageResult};
use crate::record::E2NTxResponse;

verus! {

broadcast use group_to_multiset_ensures;

/// Relies on the derived `Clone` of `serde_json::Value`: the copy is the same value.
pub assume_specification[ <serde_json::Value as Clone>::clone ](v: &serde_json::Value) -> (r:
    serde_json::Value)
    ensures
        r == *v,
;

/// Lexicographic order of hashes by character, a prefix first.
pub open spec fn hash_le(a: Seq<char>, b: Seq<char>) -> bool
    decreases a.len(),
{
    if a.len() == 0 {
        true
    } else if b.len() == 0 {
        false
    } else if a[0] != b[0] {
        a[0] < b[0]
    } else {
        hash_le(a.drop_first(), b.drop_first())
    }
}

/// The listing order: later timestamps first, equal timestamps by ascending hash.
pub open spec fn row_le(a: E2NTxResponse, b: E2NTxResponse) -> bool {
    a.timestamp > b.timestamp || (a.timestamp == b.timestamp && hash_le(a.tx_hash@, b.tx_hash@))
}

pub open spec fn listing_order() -> spec_fn(E2NTxResponse, E2NTxResponse) -> bool {
    |a: E2NTxResponse, b: E2NTxResponse| row_le(a, b)
}

/// A row that the filter's sender and receiver admit.
pub open spec fn row_matches(f: QueryFilter, t: E2NTxResponse) -> bool {
    &&& (f.sender matches Some(s) ==> t.from@ == s@)
    &&& (f.receiver matches Some(r) ==> t.to@ == r@)
}

/// The rows of a table that a filter admits, in table order.
pub open spec fn matching(rows: Seq<E2NTxResponse>, f: QueryFilter) -> Seq<E2NTxResponse> {
    rows.filter(|t: E2NTxResponse| row_matches(f, t))
}

/// `ordered` holds the rows of `rows`, each as often, in listing order.
pub open spec fn ordering_of(ordered: Seq<E2NTxResponse>, rows: Seq<E2NTxResponse>) -> bool {
    &&& ordered.to_multiset() == rows.to_multiset()
    &&& sorted_by(ordered, listing_order())
}

proof fn lemma_hash_le_total(a: Seq<char>, b: Seq<char>)
    ensures
        hash_le(a, b) || hash_le(b, a),
    decreases a.len(),
{
    if a.len() > 0 && b.len() > 0 && a[0] == b[0] {
        lemma_hash_le_total(a.drop_first(), b.drop_first());
    }
}

proof fn lemma_hash_le_trans(a: Seq<char>, b: Seq<char>, c: Seq<char>)
    requires
        hash_le(a, b),
        hash_le(b, c),
    ensures
        hash_le(a, c),
    decreases a.len(),
{
    if a.len() > 0 && b.len() > 0 && c.len() > 0 && a[0] == b[0] && b[0] == c[0] {
        lemma_hash_le_trans(a.drop_first(), b.drop_first(), c.drop_first());
    }
}

proof fn lemma_row_le_total(a: E2NTxResponse, b: E2NTxResponse)
    ensures
        row_le(a, b) || row_le(b, a),
{
    lemma_hash_le_total(a.tx_hash@, b.tx_hash@);
}

proof fn lemma_row_le_trans(a: E2NTxResponse, b: E2NTxResponse, c: E2NTxResponse)
    requires
        row_le(a, b),
        row_le(b, c),
    ensures
        row_le(a, c),
{
    if a.timestamp == b.timestamp && b.timestamp == c.timestamp {
        lemma_hash_le_trans(a.tx_hash@, b.tx_hash@, c.tx_hash@);
    }
}

fn hash_le_exec(a: &str, b: &str) -> (r: bool)
    ensures
        r == hash_le(a@, b@),
{
    let la = a.unicode_len();
    let lb = b.unicode_len();
    let mut i: usize = 0;
    assert(a@.skip(0) =~= a@);
    assert(b@.skip(0) =~= b@);
    while i < la && i < lb
        invariant
            la == a@.len(),
            lb == b@.len(),
            i <= la,
            i <= lb,
            hash_le(a@, b@) == hash_le(a@.skip(i as int), b@.skip(i as int)),
        decreases la - i,
    {
        let ca = a.get_char(i);
        let cb = b.get_char(i);
        if ca != cb {
            return ca < cb;
        }
        assert(a@.skip(i as int).drop_first() =~= a@.skip(i + 1));
        assert(b@.skip(i as int).drop_first() =~= b@.skip(i + 1));
        i = i + 1;
    }
    i == la
}

fn row_le_exec(a: &E2NTxResponse, b: &E2NTxResponse) -> (r: bool)
    ensures
        r == row_le(*a, *b),
{
    if a.timestamp != b.timestamp {
        a.timestamp > b.timestamp
    } else {
        hash_le_exec(a.tx_hash.as_str(), b.tx_hash.as_str())
    }
}

fn matches_exec(f: &QueryFilter, t: &E2NTxResponse) -> (r: bool)
    ensures
        r == row_matches(*f, *t),
{
    let sender_ok = match &f.sender {
        Some(s) => t.from == *s,
        None => true,
    };
    let receiver_ok = match &f.receiver {
        Some(v) => t.to == *v,
        None => true,
    };
    sender_ok && receiver_ok
}

fn copy_record(t: &E2NTxResponse) -> (r: E2NTxResponse)
    ensures
        r == *t,
{
    E2NTxResponse {
        tx_hash: t.tx_hash.clone(),
        block_hash: t.block_hash.clone(),
        from: t.from.clone(),
        to: t.to.clone(),
        asset: t.asset.clone(),
        amount: t.amount.clone(),
        decimal: t.decimal,
        height: t.height,
        timestamp: t.timestamp,
        value: t.value.clone(),
    }
}

/// Inserts `x` after every row that does not come after it.
fn insert_ordered(ordered: &mut Vec<E2NTxResponse>, x: E2NTxResponse)
    requires
        sorted_by(old(ordered)@, listing_order()),
    ensures
        sorted_by(final(ordered)@, listing_order()),
        final(ordered)@.to_multiset() == old(ordered)@.to_multiset().insert(x),
{
    let ghost before = ordered@;
    let n = ordered.len();
    let mut pos: usize = 0;
    while pos < n && row_le_exec(&ordered[pos], &x)
        invariant
            n == ordered@.len(),
            ordered@ == before,
            pos <= n,
            forall|i: int| 0 <= i < pos ==> row_le(#[trigger] before[i], x),
        decreases n - pos,
    {
        pos = pos + 1;
    }
    proof {
        if pos < n {
            lemma_row_le_total(before[pos as int], x);
            assert forall|j: int| pos <= j < n implies row_le(x, #[trigger] before[j]) by {
                if j > pos {
                    assert(listing_order()(before[pos as int], before[j]));
                    lemma_row_le_trans(x, before[pos as int], before[j]);
                }
            }
        }
    }
    ordered.insert(pos, x);
    proof {
        let after = ordered@;
        before.insert_ensures(pos as int, x);
        assert forall|i: int, j: int| 0 <= i < j < after.len() implies #[trigger] row_le(
            after[i],
            after[j],
        ) by {
            if j < pos {
                assert(listing_order()(before[i], before[j]));
            } else if j == pos {
            } else if i < pos {
                lemma_row_le_trans(before[i], x, before[j - 1]);
            } else if i == pos {
            } else {
                assert(listing_order()(before[i - 1], before[j - 1]));
            }
        }
    }
}

/// A table of bridge transactions held in memory, answering listings and
/// lookups as the planned statements would: equal timestamps are ordered
/// by code point, as `COLLATE "C"` orders UTF-8 text.
pub struct MemoryTable {
    pub rows: Vec<E2NTxResponse>,
}

/// No two rows share a hash.
pub open spec fn hashes_unique(rows: Seq<E2NTxResponse>) -> bool {
    forall|i: int, j: int|
        0 <= i < j < rows.len() ==> (#[trigger] rows[i]).tx_hash@ != (#[trigger] rows[j]).tx_hash@
}

impl MemoryTable {
    pub open spec fn wf(&self) -> bool {
        hashes_unique(self.rows@)
    }

    pub fn new() -> (r: MemoryTable)
        ensures
            r.rows@.len() == 0,
            r.wf(),
    {
        MemoryTable { rows: Vec::new() }
    }

    /// Appends a row unless a row with the same hash is already held, so that
    /// hashes stay unique.
    pub fn insert(&mut self, t: E2NTxResponse) -> (added: bool)
        ensures
            added == forall|i: int|
                0 <= i < old(self).rows@.len() ==> (#[trigger] old(self).rows@[i]).tx_hash@
                    != t.tx_hash@,
            added ==> final(self).rows@ == old(self).rows@.push(t),
            !added ==> final(self).rows@ == old(self).rows@,
            old(self).wf() ==> final(self).wf(),
    {
        let n = self.rows.len();
        let mut i: usize = 0;
        while i < n
            invariant
                n == self.rows@.len(),
                i <= n,
                forall|k: int| 0 <= k < i ==> (#[trigger] self.rows@[k]).tx_hash@ != t.tx_hash@,
            decreases n - i,
        {
            if self.rows[i].tx_hash == t.tx_hash {
                return false;
            }
            i = i + 1;
        }
        self.rows.push(t);
        true
    }

    /// The row with the given hash, or `NotFound` when no row has it.
    pub fn fetch_one(&self, hash: &str) -> (r: Result<E2NTxResponse, QueryError>)
        ensures
            r matches Ok(t) ==> self.rows@.contains(t) && t.tx_hash@ == hash@,
            r is Err <==> forall|i: int|
                0 <= i < self.rows@.len() ==> (#[trigger] self.rows@[i]).tx_hash@ != hash@,
            r is Err ==> r == Err::<E2NTxResponse, QueryError>(QueryError::NotFound),
    {
        let key = hash.to_owned();
        let n = self.rows.len();
        let mut i: usize = 0;
        while i < n
            invariant
                n == self.rows@.len(),
                i <= n,
                key@ == hash@,
                forall|k: int| 0 <= k < i ==> (#[trigger] self.rows@[k]).tx_hash@ != hash@,
            decreases n - i,
        {
            if self.rows[i].tx_hash == key {
                let t = copy_record(&self.rows[i]);
                assert(self.rows@[i as int] == t);
                assert(self.rows@.contains(t));
                return Ok(t);
            }
            i = i + 1;
        }
        Err(QueryError::NotFound)
    }

    /// The rows the filter admits, in listing order, and the page of them
    /// that the filter asks for.
    pub fn list(&self, f: &QueryFilter) -> (r: PageResult<E2NTxResponse>)
        requires
            f.wf(),
            self.rows@.len() <= i64::MAX,
        ensures
            r.total == matching(self.rows@, *f).len(),
            r.page == f.page,
            r.page_size == f.page_size,
            r.data@.len() == expected_page_len(
                r.total as int,
                f.page as int,
                f.page_size as int,
            ),
            exists|ordered: Seq<E2NTxResponse>|
                #[trigger] ordering_of(ordered, matching(self.rows@, *f)) && r.data@
                    == page_window(ordered, f.offset(), f.page_size as int),
    {
        let ghost pred = |t: E2NTxResponse| row_matches(*f, t);
        let n = self.rows.len();
        let mut ordered: Vec<E2NTxResponse> = Vec::new();
        let mut count: usize = 0;
        let mut i: usize = 0;
        proof {
            assert(self.rows@.take(0) =~= Seq::<E2NTxResponse>::empty());
            assert(self.rows@.take(0).filter(pred).len() == 0);
            assert(self.rows@.take(0).filter(pred) =~= ordered@);
        }
        while i < n
            invariant
                n == self.rows@.len(),
                i <= n,
                count == ordered@.len(),
                count <= i,
                pred == (|t: E2NTxResponse| row_matches(*f, t)),
                ordering_of(ordered@, self.rows@.take(i as int).filter(pred)),
            decreases n - i,
        {
            proof {
                assert(self.rows@.take(i + 1) =~= self.rows@.take(i as int).push(self.rows@[i as int]));
                self.rows@.take(i as int).lemma_filter_push(self.rows@[i as int], pred);
            }
            let ghost seen = self.rows@.take(i as int).filter(pred);
            if matches_exec(f, &self.rows[i]) {
                let t = copy_record(&self.rows[i]);
                let ghost prev = ordered@;
                insert_ordered(&mut ordered, t);
                proof {
                    assert(pred(t));
                    assert(self.rows@.take(i + 1).filter(pred) == seen.push(t));
                    assert(seen.push(t).to_multiset() =~= seen.to_multiset().insert(t));
                    assert(prev.len() == prev.to_multiset().len());
                    assert(ordered@.len() == ordered@.to_multiset().len());
                }
                count = count + 1;
            } else {
                proof {
                    assert(!pred(self.rows@[i as int]));
                    assert(self.rows@.take(i + 1).filter(pred) == seen);
                }
            }
            i = i + 1;
        }
        proof {
            assert(self.rows@.take(n as int) =~= self.rows@);
        }
        let ghost all = ordered@;
        proof {
            assert(all.len() == all.to_multiset().len());
            assert(matching(self.rows@, *f).len() == matching(self.rows@, *f).to_multiset().len());
        }
        let total = count as i64;
        let data = take_page(ordered, f);
        proof {
            lemma_page_len(all, *f);
            assert(ordering_of(all, matching(self.rows@, *f)));
        }
        PageResult { total, page: f.page, page_size: f.page_size, data }
    }
}

/// A page of rows in listing order is itself in listing order: later
/// timestamps first, equal timestamps by ascending hash.
pub proof fn lemma_page_in_listing_order(ordered: Seq<E2NTxResponse>, f: QueryFilter)
    requires
        sorted_by(ordered, listing_order()),
        f.wf(),
    ensures
        sorted_by(page_window(ordered, f.offset(), f.page_size as int), listing_order()),
        forall|i: int, j: int|
            0 <= i < j < page_window(ordered, f.offset(), f.page_size as int).len() ==> (
            #[trigger] page_window(ordered, f.offset(), f.page_size as int)[i]).timestamp >= (
            #[trigger] page_window(ordered, f.offset(), f.page_size as int)[j]).timestamp,
{
    let w = page_window(ordered, f.offset(), f.page_size as int);
    lemma_page_len(ordered, f);
    assert forall|i: int, j: int| 0 <= i < j < w.len() implies #[trigger] row_le(w[i], w[j]) by {
        let start = if f.offset() < ordered.len() { f.offset() } else { ordered.len() as int };
        assert(w[i] == ordered[start + i]);
        assert(w[j] == ordered[start + j]);
        assert(listing_order()(ordered[start + i], ordered[start + j]));
    }
    assert forall|i: int, j: int| 0 <= i < j < w.len() implies (#[trigger] w[i]).timestamp >= (
    #[trigger] w[j]).timestamp by {
        assert(listing_order()(w[i], w[j]));
    }
}

proof fn lemma_hash_le_refl(a: Seq<char>)
    ensures
        hash_le(a, a),
    decreases a.len(),
{
    if a.len() > 0 {
        lemma_hash_le_refl(a.drop_first());
    }
}

proof fn lemma_hash_le_antisym(a: Seq<char>, b: Seq<char>)
    requires
        hash_le(a, b),
        hash_le(b, a),
    ensures
        a == b,
    decreases a.len(),
{
    if a.len() > 0 && b.len() > 0 {
        lemma_hash_le_antisym(a.drop_first(), b.drop_first());
        assert(a =~= seq![a[0]] + a.drop_first());
        assert(b =~= seq![b[0]] + b.drop_first());
    }
}

/// Rows of a multiset that share a hash are the same row.
pub open spec fn hash_determines(m: Multiset<E2NTxResponse>) -> bool {
    forall|x: E2NTxResponse, y: E2NTxResponse|
        #![trigger m.contains(x), m.contains(y)]
        m.contains(x) && m.contains(y) && x.tx_hash@ == y.tx_hash@ ==> x == y
}

proof fn lemma_orderings_agree(o1: Seq<E2NTxResponse>, o2: Seq<E2NTxResponse>)
    requires
        sorted_by(o1, listing_order()),
        sorted_by(o2, listing_order()),
        o1.to_multiset() == o2.to_multiset(),
        hash_determines(o1.to_multiset()),
    ensures
        o1 == o2,
    decreases o1.len(),
{
    broadcast use vstd::multiset::group_multiset_axioms;

    if o1.len() == 0 || o2.len() == 0 {
        assert(o1.len() == o1.to_multiset().len());
        assert(o2.len() == o2.to_multiset().len());
        assert(o1 =~= o2);
    } else {
        let m = o1.to_multiset();
        assert(o1.contains(o2[0]) && o2.contains(o1[0])) by {
            assert(o2.to_multiset().count(o2[0]) > 0) by {
                assert(o2.contains(o2[0]));
            }
            assert(o1.to_multiset().count(o1[0]) > 0) by {
                assert(o1.contains(o1[0]));
            }
        }
        let i = choose|i: int| 0 <= i < o1.len() && o1[i] == o2[0];
        let j = choose|j: int| 0 <= j < o2.len() && o2[j] == o1[0];
        lemma_hash_le_refl(o1[0].tx_hash@);
        lemma_hash_le_refl(o2[0].tx_hash@);
        if i > 0 {
            assert(listing_order()(o1[0], o1[i]));
        }
        if j > 0 {
            assert(listing_order()(o2[0], o2[j]));
        }
        assert(row_le(o1[0], o2[0]));
        assert(row_le(o2[0], o1[0]));
        lemma_hash_le_antisym(o1[0].tx_hash@, o2[0].tx_hash@);
        assert(m.contains(o1[0]) && m.contains(o2[0]));
        assert(o1[0] == o2[0]);
        let r1 = o1.drop_first();
        let r2 = o2.drop_first();
        assert(o1.remove(0) =~= r1);
        assert(o2.remove(0) =~= r2);
        assert(r1.to_multiset() =~= m.remove(o1[0]));
        assert(r2.to_multiset() =~= m.remove(o2[0]));
        assert forall|x: E2NTxResponse, y: E2NTxResponse|
            r1.to_multiset().contains(x) && r1.to_multiset().contains(y) && x.tx_hash@
                == y.tx_hash@ implies x == y by {
            assert(m.contains(x) && m.contains(y));
        }
        assert forall|a: int, b: int| 0 <= a < b < r1.len() implies #[trigger] listing_order()(
            r1[a],
            r1[b],
        ) by {
            assert(listing_order()(o1[a + 1], o1[b + 1]));
        }
        assert forall|a: int, b: int| 0 <= a < b < r2.len() implies #[trigger] listing_order()(
            r2[a],
            r2[b],
        ) by {
            assert(listing_order()(o2[a + 1], o2[b + 1]));
        }
        lemma_orderings_agree(r1, r2);
        assert(o1 =~= o2) by {
            assert forall|k: int| 0 <= k < o1.len() implies o1[k] == o2[k] by {
                if k > 0 {
                    assert(o1[k] == r1[k - 1]);
                    assert(o2[k] == r2[k - 1]);
                }
            }
        }
    }
}

/// In a table whose hashes are unique, the listing order leaves no choice:
/// any two orderings of the rows a filter admits are the same sequence, so
/// rows with equal timestamps come out in one fixed order.
pub proof fn lemma_listing_deterministic(
    rows: Seq<E2NTxResponse>,
    f: QueryFilter,
    o1: Seq<E2NTxResponse>,
    o2: Seq<E2NTxResponse>,
)
    requires
        hashes_unique(rows),
        ordering_of(o1, matching(rows, f)),
        ordering_of(o2, matching(rows, f)),
    ensures
        o1 == o2,
{
    let pred = |t: E2NTxResponse| row_matches(f, t);
    let m = matching(rows, f).to_multiset();
    assert forall|x: E2NTxResponse, y: E2NTxResponse|
        m.contains(x) && m.contains(y) && x.tx_hash@ == y.tx_hash@ implies x == y by {
        assert(matching(rows, f).contains(x));
        assert(matching(rows, f).contains(y));
        rows.lemma_filter_contains_rev(pred, x);
        rows.lemma_filter_contains_rev(pred, y);
        let i = choose|i: int| 0 <= i < rows.len() && rows[i] == x;
        let j = choose|j: int| 0 <= j < rows.len() && rows[j] == y;
        if i < j {
            assert(rows[i].tx_hash@ != rows[j].tx_hash@);
        } else if j < i {
            assert(rows[j].tx_hash@ != rows[i].tx_hash@);
        }
    }
    lemma_orderings_agree(o1, o2);
}

/// A row written to a table whose hashes stay unique is the only row that a
/// lookup by its hash can return: it comes back identical, its amount text
/// and fractional digit count included.
pub proof fn lemma_written_row_read_back(
    rows: Seq<E2NTxResponse>,
    t: E2NTxResponse,
    u: E2NTxResponse,
)
    requires
        hashes_unique(rows.push(t)),
        rows.push(t).contains(u),
        u.tx_hash@ == t.tx_hash@,
    ensures
        u == t,
        u.amount@ == t.amount@,
        u.decimal == t.decimal,
{
    let all = rows.push(t);
    let i = choose|i: int| 0 <= i < all.len() && all[i] == u;
    let last = rows.len() as int;
    assert(all[last] == t);
    if i < last {
        assert(all[i].tx_hash@ != all[last].tx_hash@);
    }
}

/// Without sender or receiver the predicate admits every row: the count is
/// the whole table and the listing orders all of it.
pub proof fn lemma_unfiltered_matches_all(rows: Seq<E2NTxResponse>, f: QueryFilter)
    requires
        f.sender is None,
        f.receiver is None,
    ensures
        matching(rows, f) == rows,
    decreases rows.len(),
{
    let pred = |t: E2NTxResponse| row_matches(f, t);
    if rows.len() == 0 {
        assert(rows.filter(pred).len() == 0);
        assert(matching(rows, f) =~= rows);
    } else {
        let init = rows.drop_last();
        lemma_unfiltered_matches_all(init, f);
        assert(init.push(rows.last()) =~= rows);
        init.lemma_filter_push(rows.last(), pred);
    }
}

/// A listing request without sender and receiver that passes validation
/// has no predicate: neither statement carries a filter value, and every
/// row of the table counts towards the total and is listed.
pub proof fn lemma_unfiltered_listing(params: GetE2NTxsParams, rows: Seq<E2NTxResponse>)
    requires
        params.from is None,
        params.to is None,
        build_result(params) is Ok,
    ensures
        ({
            let f = build_result(params)->Ok_0;
            &&& f.sender is None && f.receiver is None
            &&& count_text(false, false) == "SELECT count(*) FROM e2n"@
            &&& filter_binds(f) == Seq::<BindValue>::empty()
            &&& page_binds(f) == seq![
                BindValue::Int(f.page_size as i64),
                BindValue::Int(f.offset() as i64),
            ]
            &&& matching(rows, f) == rows
        }),
{
    let f = build_result(params)->Ok_0;
    crate::plan::lemma_unfiltered_plan(f);
    lemma_unfiltered_matches_all(rows, f);
}

} // verus!
