use spider::utils::parse::{parse_int, parse_strings_slice, parse_time};
use spider::utils::parse::{int_to_string, ParseIntError};

#[test]
fn test_parse_int() {
    struct ParseIntTestCase<'a> {
        name: &'a str,
        input: &'a str,
        expected: Option<i32>,
    }

    let tests = [
        ParseIntTestCase { name: "valid int", input: "42", expected: Some(42) },
        ParseIntTestCase { name: "negative int", input: "-15", expected: Some(-15) },
        ParseIntTestCase { name: "invalid int", input: "abc", expected: None },
    ];

    for test in tests {
        let result = parse_int(test.input);
        match result {
            Ok(val) => {
                if let Some(expected_val) = test.expected {
                    assert_eq!(
                        val, expected_val,
                        "Test '{}' FAILED: expected {}, got {}",
                        test.name, expected_val, val
                    );
                } else {
                    panic!("Test '{}' FAILED: expected error but got Ok({})", test.name, val);
                }
            }
            Err(_) => {
                if test.expected.is_some() {
                    panic!("Test '{}' FAILED: unexpected error", test.name);
                }
            }
        }
    }
}

#[test]
fn test_parse_int_edges() {
    assert_eq!(parse_int("+42"), Ok(42));
    assert_eq!(parse_int("2147483647"), Ok(i32::MAX));
    assert_eq!(parse_int("-2147483648"), Ok(i32::MIN));
    assert_eq!(parse_int("2147483648"), Err(ParseIntError::OutOfRange));
    assert_eq!(parse_int("-2147483649"), Err(ParseIntError::OutOfRange));
    assert_eq!(parse_int("99999999999999999999"), Err(ParseIntError::OutOfRange));
    assert_eq!(parse_int(""), Err(ParseIntError::InvalidDigit));
    assert_eq!(parse_int("-"), Err(ParseIntError::InvalidDigit));
    assert_eq!(parse_int("+"), Err(ParseIntError::InvalidDigit));
    assert_eq!(parse_int("12x"), Err(ParseIntError::InvalidDigit));
    assert_eq!(parse_int("4.2"), Err(ParseIntError::InvalidDigit));
    assert_eq!(parse_int("００"), Err(ParseIntError::InvalidDigit));
}

#[test]
fn test_int_to_string_round_trip() {
    for v in [0, 1, -1, 42, -15, 1000, i32::MAX, i32::MIN] {
        let s = int_to_string(v);
        assert_eq!(s, format!("{}", v));
        assert_eq!(parse_int(&s), Ok(v));
    }
}

#[test]
fn test_parse_time() {
    struct ParseTimeTestCase<'a> {
        name: &'a str,
        input: &'a str,
        expected: Option<&'a str>,
    }

    let tests = [
        ParseTimeTestCase {
            name: "valid time",
            input: "Wed, 02 Oct 2002 15:00:00 +0200",
            expected: Some("2002-10-02T13:00:00Z"),
        },
        ParseTimeTestCase { name: "invalid time", input: "invalid time string", expected: None },
    ];

    for test in tests {
        let result = parse_time(test.input);
        match result {
            Ok(ts) => {
                if let Some(expected_str) = test.expected {
                    let expected_ts = expected_str
                        .parse::<chrono::DateTime<chrono::Utc>>()
                        .unwrap()
                        .timestamp();
                    assert_eq!(
                        ts, expected_ts,
                        "Test '{}' FAILED: expected {}, got {}",
                        test.name, expected_ts, ts
                    );
                } else {
                    panic!("Test '{}' FAILED: expected error but got Ok({})", test.name, ts);
                }
            }
            Err(_) => {
                if test.expected.is_some() {
                    panic!("Test '{}' FAILED: unexpected error", test.name);
                }
            }
        }
    }
}

#[test]
fn test_parse_strings_slice() {
    struct ParseStringsSliceTestCase<'a> {
        name: &'a str,
        input: &'a str,
        expected: Option<Vec<&'a str>>,
    }

    let tests = [
        ParseStringsSliceTestCase {
            name: "valid JSON array",
            input: r#"["one", "two", "three"]"#,
            expected: Some(vec!["one", "two", "three"]),
        },
        ParseStringsSliceTestCase { name: "empty JSON array", input: r#"[]"#, expected: Some(vec![]) },
        ParseStringsSliceTestCase {
            name: "invalid JSON",
            input: r#"["unclosed string]"#,
            expected: None,
        },
    ];

    for test in tests {
        let result = parse_strings_slice(test.input);
        match result {
            Ok(vec) => {
                if let Some(expected_vec) = test.expected {
                    let expected_vec: Vec<String> =
                        expected_vec.iter().map(|s| s.to_string()).collect();
                    assert_eq!(
                        vec, expected_vec,
                        "Test '{}' FAILED: expected {:?}, got {:?}",
                        test.name, expected_vec, vec
                    );
                } else {
                    panic!(
                        "Test '{}' FAILED: expected error but got Ok({:?})",
                        test.name, vec
                    );
                }
            }
            Err(_) => {
                if test.expected.is_some() {
                    panic!("Test '{}' FAILED: unexpected error", test.name);
                }
            }
        }
    }
}
