use spider::pages::page::{Page, PageError, PageRecord};

fn sample_page() -> Page {
    Page {
        normalized_url: "example.com/a".to_string(),
        html: "<html><body>hi</body></html>".to_string(),
        content_type: "text/html".to_string(),
        status_code: 200,
        last_crawled: 1033563600,
    }
}

#[test]
fn test_page_record_round_trip() {
    let page = sample_page();
    let record = page.to_hash();
    assert_eq!(Page::from_hash(&record), Ok(page));
}

#[test]
fn test_page_record_fields() {
    let record = sample_page().to_hash();
    assert_eq!(record.normalized_url.as_deref(), Some("example.com/a"));
    assert_eq!(record.status_code.as_deref(), Some("200"));
    // 1033563600 is 2002-10-02T13:00:00Z.
    assert_eq!(
        record.last_crawled.as_deref(),
        Some("Wed, 2 Oct 2002 13:00:00 +0000")
    );
}

#[test]
fn test_from_hash_missing_fields() {
    let full = sample_page().to_hash();

    let mut r = full.clone();
    r.normalized_url = None;
    assert_eq!(Page::from_hash(&r), Err(PageError::MissingNormalizedUrl));

    let mut r = full.clone();
    r.html = None;
    assert_eq!(Page::from_hash(&r), Err(PageError::MissingHtml));

    let mut r = full.clone();
    r.content_type = None;
    assert_eq!(Page::from_hash(&r), Err(PageError::MissingContentType));

    let mut r = full.clone();
    r.status_code = None;
    assert_eq!(Page::from_hash(&r), Err(PageError::MissingStatusCode));

    let mut r = full.clone();
    r.last_crawled = None;
    assert_eq!(Page::from_hash(&r), Err(PageError::MissingLastCrawled));
}

#[test]
fn test_from_hash_bad_fields() {
    let full = sample_page().to_hash();

    let mut r = full.clone();
    r.status_code = Some("two hundred".to_string());
    assert_eq!(Page::from_hash(&r), Err(PageError::InvalidStatusCode));

    let mut r = full.clone();
    r.status_code = Some("99999999999".to_string());
    assert_eq!(Page::from_hash(&r), Err(PageError::InvalidStatusCode));

    let mut r = full.clone();
    r.last_crawled = Some("not a date".to_string());
    assert_eq!(Page::from_hash(&r), Err(PageError::InvalidLastCrawled));
}

#[test]
fn test_from_hash_parses_plain_record() {
    let record = PageRecord {
        normalized_url: Some("example.com".to_string()),
        html: Some("<html></html>".to_string()),
        content_type: Some("text/html".to_string()),
        status_code: Some("301".to_string()),
        last_crawled: Some("Wed, 02 Oct 2002 15:00:00 +0200".to_string()),
    };
    let page = Page::from_hash(&record).unwrap();
    assert_eq!(page.status_code, 301);
    assert_eq!(page.last_crawled, 1033563600);
}

#[test]
fn test_page_new_stamps_current_time() {
    let page = Page::new(
        "example.com".to_string(),
        "<html></html>".to_string(),
        "text/html".to_string(),
        200,
    );
    let now = chrono::Utc::now().timestamp();
    assert!((page.last_crawled - now).abs() < 60);
}
