//! Parsing helpers for the values the crawler stores as strings: decimal
//! integers (verified both directions), RFC 2822 timestamps (through
//! chrono), and JSON string arrays (through serde_json).

use vstd::prelude::*;
use vstd::string::StrSliceExecFns;
use vstd::string::StringExecFns;

verus! {

/// Latest timestamp the RFC 2822 formatter accepts: 9999-12-31T23:59:59Z.
/// The formatter panics on years of more than four digits.
pub const MAX_RFC2822_TS: i64 = 253_402_300_799;

/// Why a string is not a decimal `i32`.
#[derive(Debug, Clone, Copy, PartialEq, Eq, Structural)]
pub enum ParseIntError {
    /// Empty, or a character that is not a digit (or a leading sign).
    InvalidDigit,
    /// A well-formed decimal number outside the `i32` range.
    OutOfRange,
}

/// Why a string is not an RFC 2822 timestamp.
#[derive(Debug, Clone, Copy, PartialEq, Eq, Structural)]
pub enum ParseTimeError {
    Invalid,
}

/// Why a string is not a JSON array of strings.
#[derive(Debug, Clone, Copy, PartialEq, Eq, Structural)]
pub enum ParseJsonError {
    Invalid,
}

pub open spec fn dec_digit(c: char) -> bool {
    '0' <= c && c <= '9'
}

pub open spec fn digit_val(c: char) -> int {
    c as int - 48
}

pub open spec fn all_digits(s: Seq<char>) -> bool {
    forall|i: int| 0 <= i < s.len() ==> dec_digit(#[trigger] s[i])
}

/// The number denoted by a sequence of decimal digits.
pub open spec fn digits_val(s: Seq<char>) -> int
    decreases s.len(),
{
    if s.len() == 0 {
        0
    } else {
        digits_val(s.drop_last()) * 10 + digit_val(s.last())
    }
}

/// The integer a string denotes: an optional sign followed by at least one
/// digit, with no bound on magnitude.
pub open spec fn int_literal_spec(s: Seq<char>) -> Option<int> {
    let negative = s.len() > 0 && s[0] == '-';
    let digits = if s.len() > 0 && (s[0] == '+' || s[0] == '-') {
        s.skip(1)
    } else {
        s
    };
    if digits.len() == 0 || !all_digits(digits) {
        None
    } else if negative {
        Some(-digits_val(digits))
    } else {
        Some(digits_val(digits))
    }
}

pub open spec fn digit_char(d: int) -> char {
    ((48 + d) as u8) as char
}

/// The decimal digit string of a natural number, most significant first.
pub open spec fn nat_to_dec_seq(n: nat) -> Seq<char>
    decreases n,
{
    if n < 10 {
        seq![digit_char(n as int)]
    } else {
        nat_to_dec_seq(n / 10) + seq![digit_char((n % 10) as int)]
    }
}

/// The decimal string of an integer, with a `-` sign when negative.
pub open spec fn int_to_dec_seq(v: int) -> Seq<char> {
    if v < 0 {
        seq!['-'] + nat_to_dec_seq((-v) as nat)
    } else {
        nat_to_dec_seq(v as nat)
    }
}

pub proof fn lemma_digits_val_nonneg(s: Seq<char>)
    requires
        all_digits(s),
    ensures
        digits_val(s) >= 0,
    decreases s.len(),
{
    if s.len() > 0 {
        assert(all_digits(s.drop_last())) by {
            assert(forall|i: int|
                0 <= i < s.len() - 1 ==> s.drop_last()[i] == #[trigger] s[i]);
        }
        lemma_digits_val_nonneg(s.drop_last());
    }
}

/// A digit string's value only grows as more digits are appended.
pub proof fn lemma_digits_prefix_le(s: Seq<char>, j: int)
    requires
        all_digits(s),
        0 <= j <= s.len(),
    ensures
        digits_val(s.subrange(0, j)) <= digits_val(s),
    decreases s.len() - j,
{
    if j == s.len() {
        assert(s.subrange(0, j) =~= s);
    } else {
        let shorter = s.subrange(0, j);
        let longer = s.subrange(0, j + 1);
        assert(longer.drop_last() =~= shorter);
        assert(longer.last() == s[j]);
        assert(all_digits(shorter));
        lemma_digits_val_nonneg(shorter);
        assert(digits_val(longer) == digits_val(shorter) * 10 + digit_val(s[j]));
        lemma_digits_prefix_le(s, j + 1);
    }
}

/// The digit string of `n` is nonempty, all digits, starts with a digit
/// (never a sign), and denotes `n`.
pub proof fn lemma_nat_to_dec_seq(n: nat)
    ensures
        nat_to_dec_seq(n).len() >= 1,
        all_digits(nat_to_dec_seq(n)),
        digits_val(nat_to_dec_seq(n)) == n,
    decreases n,
{
    if n < 10 {
        let s = nat_to_dec_seq(n);
        assert(s.drop_last() =~= Seq::<char>::empty());
        assert(digit_char(n as int) as int == 48 + n);
        assert(s.len() == 1 && s.last() == digit_char(n as int));
        assert(digits_val(Seq::<char>::empty()) == 0);
        assert(digits_val(s) == digit_val(digit_char(n as int)));
    } else {
        lemma_nat_to_dec_seq(n / 10);
        let prefix = nat_to_dec_seq(n / 10);
        let s = nat_to_dec_seq(n);
        assert(s.drop_last() =~= prefix);
        assert(s.last() == digit_char((n % 10) as int));
        assert(digits_val(s) == digits_val(prefix) * 10 + (n % 10));
        assert(n / 10 * 10 + n % 10 == n);
    }
}

/// Printing an `i32` and parsing the result gives the value back.
pub proof fn lemma_int_dec_round_trip(v: int)
    requires
        i32::MIN <= v <= i32::MAX,
    ensures
        int_literal_spec(int_to_dec_seq(v)) == Some(v),
{
    if v < 0 {
        let mag = (-v) as nat;
        lemma_nat_to_dec_seq(mag);
        let s = int_to_dec_seq(v);
        assert(s[0] == '-');
        assert(s.skip(1) =~= nat_to_dec_seq(mag));
    } else {
        lemma_nat_to_dec_seq(v as nat);
        let s = int_to_dec_seq(v);
        assert(dec_digit(s[0]));
        assert(s[0] != '+' && s[0] != '-');
    }
}

/// Parses a string into an integer.
pub fn parse_int(value: &str) -> (r: Result<i32, ParseIntError>)
    ensures
        match r {
            Ok(v) => int_literal_spec(value@) == Some(v as int),
            Err(ParseIntError::InvalidDigit) => int_literal_spec(value@) is None,
            Err(ParseIntError::OutOfRange) => (int_literal_spec(value@) matches Some(v) && (v
                < i32::MIN || v > i32::MAX)),
        },
{
    if !value.is_ascii() {
        proof {
            let i = choose|i: int|
                !(0 <= i < value@.len() ==> '\0' <= #[trigger] value@[i] <= '\u{7f}');
            assert(!dec_digit(value@[i]));
            if value@.len() > 0 && (value@[0] == '+' || value@[0] == '-') {
                assert(i >= 1);
                assert(value@.skip(1)[i - 1] == value@[i]);
                assert(!all_digits(value@.skip(1)));
            } else {
                if value@.len() > 0 {
                    assert(!all_digits(value@));
                }
            }
        }
        return Err(ParseIntError::InvalidDigit);
    }
    let n = value.unicode_len();
    if n == 0 {
        return Err(ParseIntError::InvalidDigit);
    }
    let first = value.get_ascii(0);
    let negative = first == 45;
    let start: usize = if first == 43 || first == 45 {
        1
    } else {
        0
    };
    proof {
        assert('\0' <= value@[0] <= '\u{7f}');
        if first == 43 {
            assert(value@[0] == '+');
        }
        if first == 45 {
            assert(value@[0] == '-');
        }
        if first != 43 && first != 45 {
            assert(value@[0] != '+' && value@[0] != '-');
        }
    }
    let ghost digits = if start == 1 {
        value@.skip(1)
    } else {
        value@
    };
    proof {
        assert(digits =~= value@.subrange(start as int, n as int));
    }
    if start == n {
        return Err(ParseIntError::InvalidDigit);
    }
    // First pass: every remaining character must be a digit.
    let mut i: usize = start;
    while i < n
        invariant
            value.is_ascii(),
            n == value@.len(),
            start < n,
            start <= 1,
            start <= i <= n,
            digits == value@.subrange(start as int, n as int),
            start == 1 ==> (value@[0] == '+' || value@[0] == '-'),
            start == 0 ==> (value@[0] != '+' && value@[0] != '-'),
            forall|j: int| start <= j < i ==> dec_digit(#[trigger] value@[j]),
        decreases n - i,
    {
        let b = value.get_ascii(i);
        if b < 48 || b > 57 {
            proof {
                assert(digits[i - start] == value@[i as int]);
                assert(!all_digits(digits));
            }
            return Err(ParseIntError::InvalidDigit);
        }
        i += 1;
    }
    proof {
        assert(all_digits(digits)) by {
            assert(forall|j: int|
                0 <= j < digits.len() ==> digits[j] == #[trigger] value@[j + start]);
        }
    }
    // Second pass: accumulate, stopping as soon as the magnitude leaves the
    // range any `i32` can reach.
    let mut acc: i64 = 0;
    let mut k: usize = start;
    while k < n
        invariant
            value.is_ascii(),
            n == value@.len(),
            start < n,
            start <= 1,
            start <= k <= n,
            digits == value@.subrange(start as int, n as int),
            start == 1 ==> (value@[0] == '+' || value@[0] == '-'),
            start == 0 ==> (value@[0] != '+' && value@[0] != '-'),
            negative <==> value@[0] == '-',
            all_digits(digits),
            0 <= acc <= 0x8000_0000i64,
            acc == digits_val(digits.subrange(0, k - start)),
        decreases n - k,
    {
        let b = value.get_ascii(k);
        proof {
            assert(digits[k - start] == value@[k as int]);
            assert(dec_digit(digits[k - start]));
            assert('\0' <= value@[k as int] <= '\u{7f}');
            assert(digit_val(digits[k - start]) == b - 48);
            assert(digits.subrange(0, k - start + 1).drop_last() =~= digits.subrange(
                0,
                k - start,
            ));
            assert(digits.subrange(0, k - start + 1).last() == digits[k - start]);
        }
        acc = acc * 10 + ((b - 48) as i64);
        k += 1;
        if acc > 0x8000_0000i64 {
            proof {
                lemma_digits_prefix_le(digits, k - start);
                assert(digits_val(digits) >= acc);
                assert(digits.len() > 0);
                if start == 0 {
                    assert(digits =~= value@);
                } else {
                    assert(digits =~= value@.skip(1));
                }
                if negative {
                    assert(int_literal_spec(value@) == Some(-digits_val(digits)));
                } else {
                    assert(int_literal_spec(value@) == Some(digits_val(digits)));
                }
            }
            return Err(ParseIntError::OutOfRange);
        }
    }
    proof {
        assert(digits.subrange(0, n - start) =~= digits);
    }
    if negative {
        proof {
            assert(value@[0] == '-');
        }
        Ok((-acc) as i32)
    } else if acc == 0x8000_0000i64 {
        proof {
            if n > 0 && (value@[0] == '+' || value@[0] == '-') {
                assert(start == 1 && !negative);
                assert(value@[0] == '+');
            }
        }
        Err(ParseIntError::OutOfRange)
    } else {
        proof {
            if start == 1 {
                assert(value@[0] == '+');
            } else {
                assert(dec_digit(value@[0]));
                assert(value@[0] != '+' && value@[0] != '-');
            }
        }
        Ok(acc as i32)
    }
}

/// One decimal digit as a string slice.
fn digit_str(d: u8) -> (r: &'static str)
    requires
        d < 10,
    ensures
        r@ == seq![digit_char(d as int)],
{
    proof {
        reveal_strlit("0");
        reveal_strlit("1");
        reveal_strlit("2");
        reveal_strlit("3");
        reveal_strlit("4");
        reveal_strlit("5");
        reveal_strlit("6");
        reveal_strlit("7");
        reveal_strlit("8");
        reveal_strlit("9");
    }
    match d {
        0 => "0",
        1 => "1",
        2 => "2",
        3 => "3",
        4 => "4",
        5 => "5",
        6 => "6",
        7 => "7",
        8 => "8",
        _ => "9",
    }
}

fn nat_to_string(n: u32) -> (r: String)
    ensures
        r@ == nat_to_dec_seq(n as nat),
    decreases n,
{
    if n < 10 {
        digit_str(n as u8).to_owned()
    } else {
        nat_to_string(n / 10).concat(digit_str((n % 10) as u8))
    }
}

/// Prints an `i32` in decimal; the exact inverse of [`parse_int`].
pub fn int_to_string(v: i32) -> (r: String)
    ensures
        r@ == int_to_dec_seq(v as int),
{
    if v < 0 {
        let mag: u32 = (-(v as i64)) as u32;
        proof {
            reveal_strlit("-");
        }
        let s = "-".to_owned().concat(nat_to_string(mag).as_str());
        proof {
            assert(s@ =~= int_to_dec_seq(v as int));
        }
        s
    } else {
        nat_to_string(v as u32)
    }
}

/// The timestamp an RFC 2822 string denotes, if it is one.
pub uninterp spec fn rfc2822_parse(s: Seq<char>) -> Option<i64>;

/// The format/parse round trip: when the input is the RFC 2822 rendering of
/// an in-range timestamp, parsing recovers that timestamp.
pub open spec fn rfc2822_round_trip_ok(s: Seq<char>, r: Result<i64, ParseTimeError>) -> bool {
    forall|t: i64|
        (0 <= t <= MAX_RFC2822_TS && s == rfc2822_of(t)) ==> r == Ok::<i64, ParseTimeError>(t)
}

/// The RFC 2822 rendering of a Unix timestamp, in UTC.
pub uninterp spec fn rfc2822_of(t: i64) -> Seq<char>;

/// Parses a string into a Unix timestamp using the RFC 2822 format.
///
/// Relies on chrono's `DateTime::parse_from_rfc2822` and `timestamp`: the
/// result is a function of the input string alone. The final clause is the
/// format/parse round trip, which chrono's own test suite pins down:
/// parsing the string `to_rfc2822` produces for an in-range UTC timestamp
/// gives that timestamp back.
#[verifier::external_body]
pub fn parse_time(value: &str) -> (r: Result<i64, ParseTimeError>)
    ensures
        r matches Ok(t) ==> rfc2822_parse(value@) == Some(t),
        r is Err <==> rfc2822_parse(value@) is None,
        rfc2822_round_trip_ok(value@, r),
{
    match chrono::DateTime::parse_from_rfc2822(value) {
        Ok(dt) => Ok(dt.timestamp()),
        Err(_) => Err(ParseTimeError::Invalid),
    }
}

/// Renders a Unix timestamp as an RFC 2822 string, in UTC.
///
/// Relies on chrono's `Utc.timestamp_opt` and `DateTime::to_rfc2822`: the
/// rendering is a function of the timestamp alone. The range bound keeps the
/// year within the four digits the formatter accepts, so the call cannot
/// panic.
#[verifier::external_body]
pub fn format_time(t: i64) -> (r: String)
    requires
        0 <= t <= MAX_RFC2822_TS,
    ensures
        r@ == rfc2822_of(t),
{
    match chrono::TimeZone::timestamp_opt(&chrono::Utc, t, 0) {
        chrono::LocalResult::Single(dt) => dt.to_rfc2822(),
        _ => String::new(),
    }
}

/// The list of strings a JSON document denotes, if it is an array of
/// strings.
pub uninterp spec fn json_string_list(s: Seq<char>) -> Option<Seq<Seq<char>>>;

/// Parses a JSON array string into a vector of strings.
///
/// Relies on `serde_json::from_str::<Vec<String>>`: the result is a
/// function of the input string alone.
#[verifier::external_body]
pub fn parse_strings_slice(value: &str) -> (r: Result<Vec<String>, ParseJsonError>)
    ensures
        r matches Ok(v) ==> json_string_list(value@) == Some(v.deep_view()),
        r is Ok <==> json_string_list(value@) is Some,
{
    match serde_json::from_str::<Vec<String>>(value) {
        Ok(v) => Ok(v),
        Err(_) => Err(ParseJsonError::Invalid),
    }
}

} // verus!
