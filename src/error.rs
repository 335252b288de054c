use vstd::prelude::*;

verus! {

/// Which listing parameter was rejected.
#[derive(Clone, Copy, Debug, PartialEq, Eq, Structural)]
pub enum Invalid {
    /// `page` was zero or negative.
    Page,
    /// `page_size` was zero, negative or above `MAX_PAGE_SIZE`.
    PageSize,
}

/// The three ways a read can fail.
#[derive(Clone, Copy, Debug, PartialEq, Eq, Structural)]
pub enum QueryError {
    /// The client's input was out of range; no query is sent.
    Validation(Invalid),
    /// A single-record lookup matched no row.
    NotFound,
    /// The store failed, or a fetched row did not have the expected shape.
    Storage,
}

/// The client-facing text of each error; it never carries the store's own words.
pub open spec fn message_of(e: QueryError) -> Seq<char> {
    match e {
        QueryError::Validation(Invalid::Page) => "page must be at least 1"@,
        QueryError::Validation(Invalid::PageSize) => "pageSize must be between 1 and 100"@,
        QueryError::NotFound => "no transaction with this hash"@,
        QueryError::Storage => "internal storage error"@,
    }
}

impl QueryError {
    /// A short description that is safe to hand to a client.
    pub fn message(&self) -> (r: String)
        ensures
            r@ == message_of(*self),
            r@.len() > 0,
    {
        let s = match self {
            QueryError::Validation(Invalid::Page) => "page must be at least 1",
            QueryError::Validation(Invalid::PageSize) => "pageSize must be between 1 and 100",
            QueryError::NotFound => "no transaction with this hash",
            QueryError::Storage => "internal storage error",
        };
        proof {
            reveal_strlit("page must be at least 1");
            reveal_strlit("pageSize must be between 1 and 100");
            reveal_strlit("no transaction with this hash");
            reveal_strlit("internal storage error");
        }
        s.to_owned()
    }
}

} // verus!
