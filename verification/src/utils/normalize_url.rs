//! Canonicalizes a raw URL into the string key that identifies a page:
//! scheme dropped, `www.` prefix dropped, trailing slashes dropped,
//! query and fragment already absent from the parsed path.

use vstd::prelude::*;
use vstd::string::StrSliceExecFns;
use vstd::string::StringExecFns;
use crate::utils::url_parts::{
    parse_url, trim_slashes, trim_trailing_slashes, url_host, url_parse_ok, url_path, url_scheme,
    is_http_scheme, UrlParts,
};

verus! {

/// Why a raw URL cannot be normalized.
#[derive(Debug, Clone, Copy, PartialEq, Eq, Structural)]
pub enum NormalizeUrlError {
    /// The URL parser rejected the input.
    ParseError,
    /// The scheme is neither `http` nor `https`.
    InvalidScheme,
    /// The URL has no host component.
    MissingHost,
}

/// `h` with a leading `www.` removed.
pub open spec fn strip_www_spec(h: Seq<char>) -> Seq<char> {
    if h.len() >= 4 && h[0] == 'w' && h[1] == 'w' && h[2] == 'w' && h[3] == '.' {
        h.skip(4)
    } else {
        h
    }
}

/// What normalization returns for any raw URL: the de-`www.`ed host
/// followed by the path without trailing slashes, or the first applicable
/// error (unparsable input, then non-http(s) scheme, then missing host).
pub open spec fn normalize_url_spec(s: Seq<char>) -> Result<Seq<char>, NormalizeUrlError> {
    if !url_parse_ok(s) {
        Err(NormalizeUrlError::ParseError)
    } else if !is_http_scheme(url_scheme(s)) {
        Err(NormalizeUrlError::InvalidScheme)
    } else {
        match url_host(s) {
            None => Err(NormalizeUrlError::MissingHost),
            Some(h) => Ok(strip_www_spec(h) + trim_slashes(url_path(s))),
        }
    }
}

/// The executable side of [`strip_www_spec`].
fn strip_www(host: &String) -> (r: String)
    requires
        host.is_ascii(),
    ensures
        r@ == strip_www_spec(host@),
        r.is_ascii(),
{
    let n = host.as_str().unicode_len();
    if n >= 4 && host.as_str().get_ascii(0) == 119 && host.as_str().get_ascii(1) == 119
        && host.as_str().get_ascii(2) == 119 && host.as_str().get_ascii(3) == 46 {
        let rest = host.as_str().substring_ascii(4, n);
        proof {
            assert(rest@ =~= host@.skip(4));
        }
        rest.to_owned()
    } else {
        host.clone()
    }
}

/// Canonicalizes a raw URL into its normalized page key.
pub fn normalize_url(raw_url: &str) -> (r: Result<String, NormalizeUrlError>)
    ensures
        normalize_url_spec(raw_url@) matches Ok(v) ==> r matches Ok(u) && u@ == v,
        normalize_url_spec(raw_url@) matches Err(e) ==> r matches Err(e2) && e == e2,
{
    let parts: UrlParts = match parse_url(raw_url) {
        Some(p) => p,
        None => {
            return Err(NormalizeUrlError::ParseError);
        },
    };
    if !(parts.scheme == "http".to_owned() || parts.scheme == "https".to_owned()) {
        return Err(NormalizeUrlError::InvalidScheme);
    }
    match parts.host {
        None => Err(NormalizeUrlError::MissingHost),
        Some(h) => {
            let base = strip_www(&h);
            let trimmed = trim_trailing_slashes(parts.path.as_str());
            Ok(base.concat(trimmed))
        },
    }
}

} // verus!
