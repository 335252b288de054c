use vstd::prelude::*;

use crate::error::{Invalid, QueryError};

verus! {

/// Largest page size a listing may ask for.
pub const MAX_PAGE_SIZE: i32 = 100;

/// Page used when the client names none.
pub const DEFAULT_PAGE: i32 = 1;

/// Page size used when the client names none.
pub const DEFAULT_PAGE_SIZE: i32 = 10;

/// Parameters of a single-record lookup.
pub struct GetE2NByTxHashParams {
    pub hash: String,
}

/// Raw parameters of a listing, as the client sent them.
pub struct GetE2NTxsParams {
    pub from: Option<String>,
    pub to: Option<String>,
    pub page: Option<i32>,
    pub page_size: Option<i32>,
}

/// A validated listing request.
pub struct QueryFilter {
    pub sender: Option<String>,
    pub receiver: Option<String>,
    pub page: i32,
    pub page_size: i32,
}

/// Unicode's White_Space property: the characters that `str::trim` drops.
pub open spec fn is_white_space(c: char) -> bool {
    ||| '\u{9}' <= c <= '\u{d}'
    ||| c == ' '
    ||| c == '\u{85}'
    ||| c == '\u{a0}'
    ||| c == '\u{1680}'
    ||| '\u{2000}' <= c <= '\u{200a}'
    ||| c == '\u{2028}'
    ||| c == '\u{2029}'
    ||| c == '\u{202f}'
    ||| c == '\u{205f}'
    ||| c == '\u{3000}'
}

/// `t` is `s` with its leading and trailing White_Space characters removed.
pub open spec fn is_trim_of(t: Seq<char>, s: Seq<char>) -> bool {
    exists|a: int, b: int|
        #![trigger s.subrange(a, b)]
        0 <= a <= b <= s.len() && t == s.subrange(a, b) && (forall|i: int|
            0 <= i < a ==> is_white_space(#[trigger] s[i])) && (forall|i: int|
            b <= i < s.len() ==> is_white_space(#[trigger] s[i])) && (a < b ==> !is_white_space(
            s[a],
        ) && !is_white_space(s[b - 1]))
}

/// Relies on `str::trim`: the result is the text without leading and
/// trailing characters of Unicode's White_Space property.
#[verifier::external_body]
fn trim_text(s: &str) -> (r: &str)
    ensures
        is_trim_of(r@, s@),
{
    s.trim()
}

/// Text that holds nothing but whitespace.
pub open spec fn is_blank(s: Seq<char>) -> bool {
    forall|i: int| 0 <= i < s.len() ==> is_white_space(#[trigger] s[i])
}

proof fn lemma_trim_empty_iff_blank(t: Seq<char>, s: Seq<char>)
    requires
        is_trim_of(t, s),
    ensures
        t.len() == 0 <==> is_blank(s),
{
    let (a, b) = choose|a: int, b: int|
        #![trigger s.subrange(a, b)]
        0 <= a <= b <= s.len() && t == s.subrange(a, b) && (forall|i: int|
            0 <= i < a ==> is_white_space(#[trigger] s[i])) && (forall|i: int|
            b <= i < s.len() ==> is_white_space(#[trigger] s[i])) && (a < b ==> !is_white_space(
            s[a],
        ) && !is_white_space(s[b - 1]));
    if a == b {
        assert forall|i: int| 0 <= i < s.len() implies is_white_space(#[trigger] s[i]) by {
            if i < a {
            } else {
            }
        }
    }
}

/// A raw equality filter after blank input is dropped.
pub open spec fn present_value(v: Option<String>) -> Option<String> {
    match v {
        Some(s) => if is_blank(s@) { None } else { Some(s) },
        None => None,
    }
}

pub open spec fn page_in_range(page: int) -> bool {
    page >= 1
}

pub open spec fn page_size_in_range(size: int) -> bool {
    1 <= size <= MAX_PAGE_SIZE
}

/// The page a listing asks for, the default standing in for a missing one.
pub open spec fn requested_page(p: GetE2NTxsParams) -> int {
    match p.page {
        Some(n) => n as int,
        None => DEFAULT_PAGE as int,
    }
}

/// The page size a listing asks for, the default standing in for a missing one.
pub open spec fn requested_page_size(p: GetE2NTxsParams) -> int {
    match p.page_size {
        Some(n) => n as int,
        None => DEFAULT_PAGE_SIZE as int,
    }
}

/// The outcome of validating listing parameters.
pub open spec fn build_result(p: GetE2NTxsParams) -> Result<QueryFilter, QueryError> {
    if !page_in_range(requested_page(p)) {
        Err(QueryError::Validation(Invalid::Page))
    } else if !page_size_in_range(requested_page_size(p)) {
        Err(QueryError::Validation(Invalid::PageSize))
    } else {
        Ok(
            QueryFilter {
                sender: present_value(p.from),
                receiver: present_value(p.to),
                page: requested_page(p) as i32,
                page_size: requested_page_size(p) as i32,
            },
        )
    }
}

impl QueryFilter {
    /// A filter that the planner accepts: its page and page size are in range.
    pub open spec fn wf(&self) -> bool {
        &&& page_in_range(self.page as int)
        &&& page_size_in_range(self.page_size as int)
    }

    /// Rows skipped before the requested page.
    pub open spec fn offset(&self) -> int {
        (self.page as int - 1) * self.page_size as int
    }
}

fn present_filter(v: Option<String>) -> (r: Option<String>)
    ensures
        r == present_value(v),
{
    match v {
        Some(s) => {
            let t = trim_text(s.as_str());
            proof {
                lemma_trim_empty_iff_blank(t@, s@);
            }
            let blank = t.is_empty();
            if blank {
                None
            } else {
                Some(s)
            }
        },
        None => None,
    }
}

/// Validates and normalises listing parameters.
///
/// A missing `page` is 1 and a missing `page_size` is 10. A `page` below 1 is
/// rejected first, then a `page_size` outside `1..=MAX_PAGE_SIZE`. A sender
/// or receiver that is blank after trimming is dropped rather than matched.
pub fn build_filter(params: GetE2NTxsParams) -> (r: Result<QueryFilter, QueryError>)
    ensures
        r == build_result(params),
        r matches Ok(f) ==> f.wf(),
{
    let page = match params.page {
        Some(n) => n,
        None => DEFAULT_PAGE,
    };
    let page_size = match params.page_size {
        Some(n) => n,
        None => DEFAULT_PAGE_SIZE,
    };
    if page < 1 {
        return Err(QueryError::Validation(Invalid::Page));
    }
    if page_size < 1 || page_size > MAX_PAGE_SIZE {
        return Err(QueryError::Validation(Invalid::PageSize));
    }
    let sender = present_filter(params.from);
    let receiver = present_filter(params.to);
    Ok(QueryFilter { sender, receiver, page, page_size })
}

/// A page size of zero, one above `MAX_PAGE_SIZE`, or a page below 1 is
/// rejected as a validation error, so no filter and hence no statement
/// exists for it.
pub proof fn lemma_out_of_range_rejected(p: GetE2NTxsParams)
    requires
        p.page_size == Some(0i32) || (p.page_size matches Some(n) && n > MAX_PAGE_SIZE) || (
        p.page matches Some(n) && n < 1),
    ensures
        build_result(p) matches Err(QueryError::Validation(_)),
{
}

} // verus!
