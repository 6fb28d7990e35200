//! Syntactic filter applied to candidate outbound links before they are
//! queued. A link passes only if it avoids the `w/index.php` wiki-editing
//! path, contains no `%` escape, and every character is an ASCII
//! alphanumeric or one of the allowed URL symbols (which excludes every
//! byte above 127).

use vstd::prelude::*;
use vstd::string::StrSliceExecFns;

verus! {

broadcast use vstd::string::is_ascii_spec_bytes;

/// The URL symbols, besides ASCII alphanumerics, that a candidate link may
/// contain: `-._~:/?#[]@!$&'()*+,;=`.
pub open spec fn is_allowed_symbol_char(c: char) -> bool {
    ||| c == '-'
    ||| c == '.'
    ||| c == '_'
    ||| c == '~'
    ||| c == ':'
    ||| c == '/'
    ||| c == '?'
    ||| c == '#'
    ||| c == '['
    ||| c == ']'
    ||| c == '@'
    ||| c == '!'
    ||| c == '$'
    ||| c == '&'
    ||| c == '\''
    ||| c == '('
    ||| c == ')'
    ||| c == '*'
    ||| c == '+'
    ||| c == ','
    ||| c == ';'
    ||| c == '='
}

/// A character a candidate link may contain: an ASCII alphanumeric or an
/// allowed symbol. Notably this excludes `%`, whitespace, and every
/// character above 127.
pub open spec fn is_url_char(c: char) -> bool {
    ||| ('0' <= c && c <= '9')
    ||| ('A' <= c && c <= 'Z')
    ||| ('a' <= c && c <= 'z')
    ||| is_allowed_symbol_char(c)
}

/// `sub` occurs as a contiguous substring of `s`.
pub open spec fn contains_seq(s: Seq<char>, sub: Seq<char>) -> bool {
    exists|i: int|
        0 <= i && i + sub.len() <= s.len() && #[trigger] s.subrange(i, i + sub.len()) == sub
}

/// What the validator accepts: no wiki-editing path and only URL characters.
pub open spec fn is_valid_url_spec(s: Seq<char>) -> bool {
    &&& !contains_seq(s, "w/index.php"@)
    &&& forall|i: int| 0 <= i < s.len() ==> is_url_char(#[trigger] s[i])
}

pub fn is_allowed_symbol(ch: char) -> (r: bool)
    ensures
        r == is_allowed_symbol_char(ch),
{
    ch == '-' || ch == '.' || ch == '_' || ch == '~' || ch == ':' || ch == '/' || ch == '?'
        || ch == '#' || ch == '[' || ch == ']' || ch == '@' || ch == '!' || ch == '$' || ch == '&'
        || ch == '\'' || ch == '(' || ch == ')' || ch == '*' || ch == '+' || ch == ',' || ch == ';'
        || ch == '='
}

fn url_byte_ok(b: u8) -> (r: bool)
    ensures
        r == is_url_char(b as char),
{
    (48 <= b && b <= 57) || (65 <= b && b <= 90) || (97 <= b && b <= 122) || is_allowed_symbol(
        b as char,
    )
}

/// Substring search over ASCII strings, the executable side of
/// [`contains_seq`].
pub fn str_contains_ascii(s: &str, pat: &str) -> (r: bool)
    requires
        s.is_ascii(),
        pat.is_ascii(),
    ensures
        r == contains_seq(s@, pat@),
{
    let n = s.unicode_len();
    let m = pat.unicode_len();
    if m > n {
        return false;
    }
    let mut i: usize = 0;
    while i <= n - m
        invariant
            s.is_ascii(),
            pat.is_ascii(),
            n == s@.len(),
            m == pat@.len(),
            m <= n,
            i <= n - m + 1,
            forall|k: int| 0 <= k < i ==> #[trigger] s@.subrange(k, k + m as int) != pat@,
        decreases n - i,
    {
        let mut j: usize = 0;
        let mut diff = false;
        while j < m && !diff
            invariant
                s.is_ascii(),
                pat.is_ascii(),
                n == s@.len(),
                m == pat@.len(),
                m <= n,
                i <= n - m,
                j <= m,
                !diff ==> forall|k: int| 0 <= k < j ==> s@[i + k] == pat@[k],
                diff ==> s@.subrange(i as int, i + m as int) != pat@,
            decreases m - j + (if diff {
                0int
            } else {
                1int
            }),
        {
            if s.get_ascii(i + j) != pat.get_ascii(j) {
                proof {
                    assert(s@.subrange(i as int, i + m as int)[j as int] == s@[i + j]);
                }
                diff = true;
            } else {
                j += 1;
            }
        }
        if !diff {
            proof {
                assert(s@.subrange(i as int, i + m as int) =~= pat@);
            }
            return true;
        }
        proof {
            if m == 0 {
                assert(s@.subrange(i as int, i + m as int) =~= pat@);
            }
        }
        i += 1;
    }
    proof {
        assert forall|k: int| !(0 <= k && k + pat@.len() <= s@.len() && #[trigger] s@.subrange(
            k,
            k + pat@.len(),
        ) == pat@) by {
            if 0 <= k && k + pat@.len() <= s@.len() {
                assert(k < i);
            }
        }
    }
    false
}

/// Decides whether a candidate outbound link may be queued.
pub fn is_valid_url(link: &str) -> (r: bool)
    ensures
        r == is_valid_url_spec(link@),
{
    if !link.is_ascii() {
        proof {
            let i = choose|i: int|
                !(0 <= i < link@.len() ==> '\0' <= #[trigger] link@[i] <= '\u{7f}');
            assert(!is_url_char(link@[i]));
        }
        return false;
    }
    let pat = "w/index.php";
    proof {
        reveal_strlit("w/index.php");
        assert(vstd::string::is_ascii(pat)) by {
            assert forall|i: int| 0 <= i < pat@.len() implies '\0' <= #[trigger] pat@[i]
                <= '\u{7f}' by {}
        }
    }
    if str_contains_ascii(link, pat) {
        return false;
    }
    let n = link.unicode_len();
    let mut i: usize = 0;
    while i < n
        invariant
            link.is_ascii(),
            n == link@.len(),
            i <= n,
            forall|j: int| 0 <= j < i ==> is_url_char(#[trigger] link@[j]),
        decreases n - i,
    {
        if !url_byte_ok(link.get_ascii(i)) {
            return false;
        }
        i += 1;
    }
    true
}

} // verus!
