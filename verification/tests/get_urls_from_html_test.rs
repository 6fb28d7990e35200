use spider::crawler::get_urls_from_html::get_urls_from_html;
use std::collections::HashSet;

#[test]
fn test_get_urls_from_html() {
    struct TestCase<'a> {
        name: &'a str,
        input_url: &'a str,
        input_body: &'a str,
        expected: Vec<&'a str>,
    }

    let tests = vec![
        TestCase {
            name: "absolute and relative URLs",
            input_url: "https://randomsite.com",
            input_body: r#"
                <html>
                    <body>
                        <h1>Some text here</h1>
                        <a href="/path/one">
                            <span>randomsite</span>
                        </a>
                        <a href="https://othersite.com/path/one">
                            <span>othersite.com</span>
                        </a>
                    </body>
                </html>
            "#,
            expected: vec![
                "https://randomsite.com/path/one",
                "https://othersite.com/path/one",
            ],
        },
        TestCase {
            name: "no URLs",
            input_url: "https://randomsite.com",
            input_body: r#"
                <html>
                    <body>
                        <h1>Empty Website</h1>
                    </body>
                </html>
            "#,
            expected: vec![],
        },
        TestCase {
            name: "malformed HTML but valid links",
            input_url: "https://example.com",
            input_body: r#"
                <html>
                    <body>
                        <a href="/valid-link"><span>Valid</span></a>
                        <a href="<invalid></a>"><span>Broken</span></a>
                        <a href="https://valid.com/path"></a>
                    </body>
                </html>
            "#,
            expected: vec!["https://example.com/valid-link", "https://valid.com/path"],
        },
        TestCase {
            name: "remove duplicate links",
            input_url: "https://example.com",
            input_body: r#"
                <html>
                    <body>
                        <a href="/valid-link"><span>Valid</span></a>
                        <a href="<invalid></a>"><span>Broken</span></a>
                        <a href="https://valid.com/path"></a>
                        <a href="/valid-link"><span>Valid</span></a>
                        <a href="<invalid></a>"><span>Broken</span></a>
                        <a href="https://valid.com/path"></a>
                    </body>
                </html>
            "#,
            expected: vec!["https://example.com/valid-link", "https://valid.com/path"],
        },
        TestCase {
            name: "ignore non-ASCII links",
            input_url: "https://example.com",
            input_body: r#"
                <html>
                    <body>
                        <a href="/valid-link"><span>Valid</span></a>
                        <a href="https://valid.com/path"></a>
                        <a href="https://пример.рф">Cyrillic</a>
                        <a href="https://例子.com">Chinese</a>
                        <a href="https://テスト.jp">Japanese</a>
                        <a href="/another-valid"></a>
                    </body>
                </html>
            "#,
            expected: vec![
                "https://example.com/valid-link",
                "https://valid.com/path",
                "https://example.com/another-valid",
            ],
        },
    ];

    for (i, tc) in tests.iter().enumerate() {
        let (actual, _images) = get_urls_from_html(tc.input_body, tc.input_url)
            .expect(&format!("Test {} - '{}' failed to parse HTML", i, tc.name));

        let expected_set: HashSet<_> = tc.expected.iter().cloned().collect();
        let actual_set: HashSet<_> = actual.iter().map(|s| s.as_str()).collect();

        assert_eq!(
            expected_set, actual_set,
            "Test {} - '{}' FAIL: expected URLs: {:?}, actual: {:?}",
            i, tc.name, tc.expected, actual
        );
    }
}

#[test]
fn test_get_urls_from_html_images() {
    let body = r#"
        <html>
            <body>
                <img src="/logo.png" alt="the logo">
                <img src="/logo.png">
                <img src="https://cdn.example.com/pic.jpg" alt="a picture">
                <img src="bad src with spaces">
            </body>
        </html>
    "#;
    let (_, images) = get_urls_from_html(body, "https://example.com").unwrap();
    assert_eq!(images.len(), 2);
    let logo = images.iter().find(|i| i.src == "example.com/logo.png").unwrap();
    // The same source appears twice; the last occurrence's alt (none) wins.
    assert_eq!(logo.alt, None);
    let pic = images.iter().find(|i| i.src == "cdn.example.com/pic.jpg").unwrap();
    assert_eq!(pic.alt.as_deref(), Some("a picture"));
}

#[test]
fn test_get_urls_from_html_bad_base() {
    assert!(get_urls_from_html("<html></html>", "not a url").is_err());
}
