//! The trust boundary around the `url` crate: parsing a raw URL into its
//! scheme, host and path components, plus the character-level helpers the
//! normalizer builds its output with.

use vstd::prelude::*;
use vstd::string::StrSliceExecFns;

verus! {

/// The scheme component of a successfully parsed URL (lower-cased by the
/// parser).
pub uninterp spec fn url_scheme(s: Seq<char>) -> Seq<char>;

/// The host component of a successfully parsed URL, if it has one.
pub uninterp spec fn url_host(s: Seq<char>) -> Option<Seq<char>>;

/// The path component of a successfully parsed URL.
pub uninterp spec fn url_path(s: Seq<char>) -> Seq<char>;

/// Whether the URL parser accepts the string as an absolute URL.
pub uninterp spec fn url_parse_ok(s: Seq<char>) -> bool;

/// The scheme, host and path of a parsed URL, as plain strings.
pub struct UrlParts {
    pub scheme: String,
    pub host: Option<String>,
    pub path: String,
}

/// One of the two schemes the crawler follows.
pub open spec fn is_http_scheme(s: Seq<char>) -> bool {
    s == "http"@ || s == "https"@
}

/// `s` with every trailing `'/'` removed.
pub open spec fn trim_slashes(s: Seq<char>) -> Seq<char>
    decreases s.len(),
{
    if s.len() > 0 && s.last() == '/' {
        trim_slashes(s.drop_last())
    } else {
        s
    }
}

/// `scheme://host` followed by the path without trailing slashes: the
/// stripped, re-qualifiable form of a URL.
pub open spec fn stripped_form(scheme: Seq<char>, host: Seq<char>, path: Seq<char>) -> Seq<char> {
    scheme + "://"@ + host + trim_slashes(path)
}

/// Parsing the stripped form of an already-parsed http(s) URL succeeds and
/// recovers the same scheme and host, and the trimmed path (or `/` when the
/// trimmed path is empty). The URL parser normalizes at parse time, so its
/// serialized components pass through a second parse unchanged.
pub open spec fn reparses_cleanly(scheme: Seq<char>, host: Seq<char>, path: Seq<char>) -> bool {
    let s2 = stripped_form(scheme, host, path);
    &&& url_parse_ok(s2)
    &&& url_scheme(s2) == scheme
    &&& url_host(s2) == Some(host)
    &&& url_path(s2) == if trim_slashes(path).len() == 0 {
        seq!['/']
    } else {
        trim_slashes(path)
    }
}

/// Relies on `url::Url::parse` and the accessors `scheme`, `host_str` and
/// `path`. The parse result is a function of the input string alone. The
/// crate documents that the scheme is lower-cased ASCII, that hosts are
/// punycode- or percent-encoded ASCII, that paths are percent-encoded ASCII,
/// and that the path of a special-scheme URL such as http(s) starts with
/// `'/'` (a non-special scheme may pair a host with an empty path). The final
/// clause is the parser's idempotence on its own serialization: the crate
/// normalizes scheme, host and path at parse time (`check_invariants`
/// asserts that re-parsing the serialization reproduces the URL), and
/// dropping query, fragment and trailing path slashes leaves a serialization
/// of an http(s) URL with the same scheme and host.
#[verifier::external_body]
pub fn parse_url(raw: &str) -> (r: Option<UrlParts>)
    ensures
        r is Some <==> url_parse_ok(raw@),
        r matches Some(p) ==> p.scheme@ == url_scheme(raw@) && p.path@ == url_path(raw@),
        r matches Some(p) ==> p.host.deep_view() == url_host(raw@),
        r matches Some(p) ==> p.scheme.is_ascii() && p.path.is_ascii(),
        r matches Some(p) ==> (p.host matches Some(h) ==> h.is_ascii()),
        r matches Some(p) ==> ((p.host is Some && is_http_scheme(p.scheme@)) ==> p.path@.len() > 0
            && p.path@[0] == '/'),
        r matches Some(p) ==> (p.host matches Some(h) ==> (is_http_scheme(p.scheme@)
            ==> reparses_cleanly(p.scheme@, h@, p.path@))),
{
    match url::Url::parse(raw) {
        Ok(u) => Some(
            UrlParts {
                scheme: u.scheme().to_string(),
                host: u.host_str().map(|h| h.to_string()),
                path: u.path().to_string(),
            },
        ),
        Err(_) => None,
    }
}

/// Trimming is idempotent: a trimmed path has no trailing slash left.
pub proof fn lemma_trim_slashes_idempotent(s: Seq<char>)
    ensures
        trim_slashes(trim_slashes(s)) == trim_slashes(s),
    decreases s.len(),
{
    if s.len() > 0 && s.last() == '/' {
        lemma_trim_slashes_idempotent(s.drop_last());
    }
}

/// The executable side of [`trim_slashes`].
pub fn trim_trailing_slashes(path: &str) -> (r: &str)
    requires
        path.is_ascii(),
    ensures
        r@ == trim_slashes(path@),
        r.is_ascii(),
{
    let n = path.unicode_len();
    proof {
        assert(path@.subrange(0, n as int) =~= path@);
    }
    let mut end = n;
    while end > 0 && path.get_ascii(end - 1) == 47
        invariant
            path.is_ascii(),
            end <= n,
            n == path@.len(),
            trim_slashes(path@) == trim_slashes(path@.subrange(0, end as int)),
        decreases end,
    {
        proof {
            let prefix = path@.subrange(0, end as int);
            assert(prefix.last() == path@[end - 1]);
            assert(prefix.drop_last() =~= path@.subrange(0, end - 1));
        }
        end = end - 1;
    }
    proof {
        let prefix = path@.subrange(0, end as int);
        if end > 0 {
            assert(prefix.last() == path@[end - 1]);
            assert(prefix.last() != '/');
        }
        assert(trim_slashes(prefix) == prefix);
    }
    path.substring_ascii(0, end)
}

} // verus!
