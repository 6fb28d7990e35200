//! Strips a raw URL to a re-qualifiable form: scheme and host kept, query,
//! fragment and trailing path slashes dropped. Pushing a link through this
//! step before normalizing changes nothing: normalization gives the same
//! key for the stripped form as for the original URL.

use vstd::prelude::*;
use vstd::string::StrSliceExecFns;
use vstd::string::StringExecFns;
use crate::utils::url_parts::{
    lemma_trim_slashes_idempotent, parse_url, reparses_cleanly, stripped_form, trim_slashes,
    trim_trailing_slashes, url_host, url_parse_ok, url_path, url_scheme, is_http_scheme, UrlParts,
};
use crate::utils::normalize_url::normalize_url_spec;

verus! {

/// Why a raw URL cannot be stripped.
#[derive(Debug, Clone, Copy, PartialEq, Eq, Structural)]
pub enum StripUrlError {
    /// The URL parser rejected the input.
    ParseError,
    /// The URL has an empty scheme.
    MissingScheme,
    /// The URL has no host component.
    MissingHost,
}

/// What stripping returns for any raw URL: `scheme://host` plus the path
/// without trailing slashes, or the first applicable error.
pub open spec fn strip_url_spec(s: Seq<char>) -> Result<Seq<char>, StripUrlError> {
    if !url_parse_ok(s) {
        Err(StripUrlError::ParseError)
    } else if url_scheme(s).len() == 0 {
        Err(StripUrlError::MissingScheme)
    } else {
        match url_host(s) {
            None => Err(StripUrlError::MissingHost),
            Some(h) => Ok(stripped_form(url_scheme(s), h, url_path(s))),
        }
    }
}

/// Strips a raw URL to its re-qualifiable form.
///
/// The final clause is the idempotence law for the strip-then-normalize
/// composition: for any http(s) URL that strips successfully, normalizing
/// the stripped form yields exactly what normalizing the original yields.
pub fn strip_url(raw_url: &str) -> (r: Result<String, StripUrlError>)
    ensures
        strip_url_spec(raw_url@) matches Ok(v) ==> r matches Ok(u) && u@ == v,
        strip_url_spec(raw_url@) matches Err(e) ==> r matches Err(e2) && e == e2,
        r matches Ok(u) ==> (is_http_scheme(url_scheme(raw_url@)) ==> normalize_url_spec(u@)
            == normalize_url_spec(raw_url@)),
{
    let parts: UrlParts = match parse_url(raw_url) {
        Some(p) => p,
        None => {
            return Err(StripUrlError::ParseError);
        },
    };
    if parts.scheme.as_str().unicode_len() == 0 {
        return Err(StripUrlError::MissingScheme);
    }
    match parts.host {
        None => Err(StripUrlError::MissingHost),
        Some(h) => {
            let ghost scheme_view = parts.scheme@;
            let ghost path_view = parts.path@;
            let trimmed = trim_trailing_slashes(parts.path.as_str());
            let out = parts.scheme.concat("://").concat(h.as_str()).concat(trimmed);
            proof {
                assert(out@ == stripped_form(scheme_view, h@, path_view));
                if is_http_scheme(url_scheme(raw_url@)) {
                    assert(reparses_cleanly(scheme_view, h@, path_view));
                    if trim_slashes(path_view).len() == 0 {
                        assert(url_path(out@) == seq!['/']);
                        assert(seq!['/'].last() == '/');
                        assert(seq!['/'].drop_last() =~= Seq::<char>::empty());
                        assert(trim_slashes(seq!['/']) == trim_slashes(Seq::<char>::empty()));
                        assert(trim_slashes(Seq::<char>::empty()) =~= Seq::<char>::empty());
                        assert(trim_slashes(path_view) =~= Seq::<char>::empty());
                        assert(trim_slashes(url_path(out@)) == trim_slashes(path_view));
                    } else {
                        lemma_trim_slashes_idempotent(path_view);
                    }
                    assert(normalize_url_spec(out@) == normalize_url_spec(raw_url@));
                }
            }
            Ok(out)
        },
    }
}

} // verus!
