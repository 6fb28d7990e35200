//! A crawled page and its persistence record. The record holds every field
//! as an optional string, the shape the backing store hands back; turning a
//! page into a record and back is lossless.

use vstd::prelude::*;
use crate::utils::parse::{
    format_time, int_literal_spec, int_to_dec_seq, int_to_string, lemma_int_dec_round_trip,
    parse_int, parse_time, rfc2822_of, rfc2822_parse, MAX_RFC2822_TS,
};

verus! {

/// A page fetched during the current round. Identity is `normalized_url`;
/// `last_crawled` is a Unix timestamp in seconds.
#[derive(Debug, Clone, PartialEq, Eq)]
pub struct Page {
    pub normalized_url: String,
    pub html: String,
    pub content_type: String,
    pub status_code: i32,
    pub last_crawled: i64,
}

/// The field set a page is persisted as; every value a string, every field
/// possibly missing when read back from the store.
#[derive(Debug, Clone, PartialEq, Eq)]
pub struct PageRecord {
    pub normalized_url: Option<String>,
    pub html: Option<String>,
    pub content_type: Option<String>,
    pub status_code: Option<String>,
    pub last_crawled: Option<String>,
}

/// Why a record does not decode to a page: a missing field, or a field that
/// does not parse.
#[derive(Debug, Clone, Copy, PartialEq, Eq, Structural)]
pub enum PageError {
    MissingNormalizedUrl,
    MissingHtml,
    MissingContentType,
    MissingStatusCode,
    InvalidStatusCode,
    MissingLastCrawled,
    InvalidLastCrawled,
}

/// The timestamp lies in the range the RFC 2822 formatter accepts.
pub open spec fn page_wf(p: Page) -> bool {
    0 <= p.last_crawled <= MAX_RFC2822_TS
}

/// What decoding a record returns: the first missing or unparsable field's
/// error, or the page all five fields denote.
pub open spec fn from_hash_spec(d: PageRecord) -> Result<Page, PageError> {
    match d.normalized_url {
        None => Err(PageError::MissingNormalizedUrl),
        Some(normalized_url) => match d.html {
            None => Err(PageError::MissingHtml),
            Some(html) => match d.content_type {
                None => Err(PageError::MissingContentType),
                Some(content_type) => match d.status_code {
                    None => Err(PageError::MissingStatusCode),
                    Some(status_str) => match int_literal_spec(status_str@) {
                        None => Err(PageError::InvalidStatusCode),
                        Some(status) => if status < i32::MIN || status > i32::MAX {
                            Err(PageError::InvalidStatusCode)
                        } else {
                            match d.last_crawled {
                                None => Err(PageError::MissingLastCrawled),
                                Some(time_str) => match rfc2822_parse(time_str@) {
                                    None => Err(PageError::InvalidLastCrawled),
                                    Some(t) => Ok(
                                        Page {
                                            normalized_url,
                                            html,
                                            content_type,
                                            status_code: status as i32,
                                            last_crawled: t,
                                        },
                                    ),
                                },
                            }
                        },
                    },
                },
            },
        },
    }
}

/// The record `d` is exactly what [`Page::to_hash`] produces for `p`.
pub open spec fn records_page(d: PageRecord, p: Page) -> bool {
    &&& d.normalized_url == Some(p.normalized_url)
    &&& d.html == Some(p.html)
    &&& d.content_type == Some(p.content_type)
    &&& (d.status_code matches Some(s) && s@ == int_to_dec_seq(p.status_code as int))
    &&& (d.last_crawled matches Some(s) && s@ == rfc2822_of(p.last_crawled))
}

impl Page {
    pub fn new(normalized_url: String, html: String, content_type: String, status_code: i32) -> (r:
        Page)
        ensures
            r.normalized_url == normalized_url,
            r.html == html,
            r.content_type == content_type,
            r.status_code == status_code,
            page_wf(r),
    {
        let t = now_ts();
        let last_crawled = if t < 0 {
            0
        } else if t > MAX_RFC2822_TS {
            MAX_RFC2822_TS
        } else {
            t
        };
        Page { normalized_url, html, content_type, status_code, last_crawled }
    }

    /// Encodes the page as its persistence record, every field present.
    pub fn to_hash(&self) -> (r: PageRecord)
        requires
            page_wf(*self),
        ensures
            records_page(r, *self),
    {
        PageRecord {
            normalized_url: Some(self.normalized_url.clone()),
            html: Some(self.html.clone()),
            content_type: Some(self.content_type.clone()),
            status_code: Some(int_to_string(self.status_code)),
            last_crawled: Some(format_time(self.last_crawled)),
        }
    }

    /// Decodes a persistence record back into a page.
    ///
    /// The final clause is the round-trip law: a record encoding any
    /// in-range page decodes to exactly that page.
    pub fn from_hash(data: &PageRecord) -> (r: Result<Page, PageError>)
        ensures
            r == from_hash_spec(*data),
            forall|p: Page| page_wf(p) && records_page(*data, p) ==> r == Ok::<Page, PageError>(p),
    {
        let normalized_url = match &data.normalized_url {
            Some(u) => u.clone(),
            None => {
                return Err(PageError::MissingNormalizedUrl);
            },
        };
        let html = match &data.html {
            Some(h) => h.clone(),
            None => {
                return Err(PageError::MissingHtml);
            },
        };
        let content_type = match &data.content_type {
            Some(c) => c.clone(),
            None => {
                return Err(PageError::MissingContentType);
            },
        };
        let status_str = match &data.status_code {
            Some(s) => s,
            None => {
                return Err(PageError::MissingStatusCode);
            },
        };
        let status_code = match parse_int(status_str.as_str()) {
            Ok(v) => v,
            Err(_) => {
                proof {
                    assert forall|p: Page| page_wf(p) && records_page(*data, p) implies false by {
                        lemma_int_dec_round_trip(p.status_code as int);
                    }
                }
                return Err(PageError::InvalidStatusCode);
            },
        };
        let time_str = match &data.last_crawled {
            Some(s) => s,
            None => {
                return Err(PageError::MissingLastCrawled);
            },
        };
        let last_crawled = match parse_time(time_str.as_str()) {
            Ok(t) => t,
            Err(_) => {
                return Err(PageError::InvalidLastCrawled);
            },
        };
        let page = Page { normalized_url, html, content_type, status_code, last_crawled };
        proof {
            assert forall|p: Page| page_wf(p) && records_page(*data, p) implies page == p by {
                lemma_int_dec_round_trip(p.status_code as int);
            }
        }
        Ok(page)
    }
}

/// The clock's reading, as a Unix timestamp in seconds.
///
/// Relies on chrono's `Utc::now`; nothing is assumed about what the clock
/// returns.
#[verifier::external_body]
pub fn now_ts() -> i64 {
    chrono::Utc::now().timestamp()
}

} // verus!
