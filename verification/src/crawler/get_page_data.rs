//! The decision half of fetching a page: whether a response's status code
//! and content type make it worth keeping. The network call itself happens
//! outside the library and hands these values in.

use vstd::prelude::*;
use vstd::string::StrSliceExecFns;

verus! {

/// Why a fetched response is discarded.
#[derive(Debug, Clone, Copy, PartialEq, Eq, Structural)]
pub enum FetchError {
    /// A client or server error status (400 through 599).
    HttpStatus,
    /// A content type other than `text/html`.
    ContentType,
}

/// `prefix` starts `s`.
pub open spec fn starts_with(s: Seq<char>, prefix: Seq<char>) -> bool {
    s.len() >= prefix.len() && s.subrange(0, prefix.len() as int) == prefix
}

/// The acceptance rule for a fetched response: error statuses are
/// rejected first, then anything that is not HTML.
pub open spec fn check_page_response_spec(status_code: u16, content_type: Seq<char>) -> Result<
    (),
    FetchError,
> {
    if 400 <= status_code <= 599 {
        Err(FetchError::HttpStatus)
    } else if !starts_with(content_type, "text/html"@) {
        Err(FetchError::ContentType)
    } else {
        Ok(())
    }
}

/// Decides whether a fetched response is a page the crawler keeps.
pub fn check_page_response(status_code: u16, content_type: &str) -> (r: Result<(), FetchError>)
    ensures
        r == check_page_response_spec(status_code, content_type@),
{
    if status_code >= 400 && status_code <= 599 {
        return Err(FetchError::HttpStatus);
    }
    let prefix = "text/html";
    proof {
        reveal_strlit("text/html");
    }
    let m = prefix.unicode_len();
    if content_type.unicode_len() < m {
        return Err(FetchError::ContentType);
    }
    let mut i: usize = 0;
    while i < m
        invariant
            m == prefix@.len(),
            prefix@ == "text/html"@,
            !(400 <= status_code <= 599),
            i <= m,
            m <= content_type@.len(),
            forall|j: int| 0 <= j < i ==> content_type@[j] == prefix@[j],
        decreases m - i,
    {
        if content_type.get_char(i) != prefix.get_char(i) {
            proof {
                assert(content_type@.subrange(0, prefix@.len() as int)[i as int]
                    != prefix@[i as int]);
            }
            return Err(FetchError::ContentType);
        }
        i += 1;
    }
    proof {
        assert(content_type@.subrange(0, prefix@.len() as int) =~= prefix@);
    }
    Ok(())
}

} // verus!
