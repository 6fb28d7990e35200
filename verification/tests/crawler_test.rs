use spider::crawler::crawler::{AddPageError, CrawlerConfig};
use spider::crawler::get_urls_from_html::get_urls_from_html;
use spider::pages::image::ImageSource;
use spider::pages::page::Page;

fn page(url: &str) -> Page {
    Page::new(
        url.to_string(),
        "<html></html>".to_string(),
        "text/html".to_string(),
        200,
    )
}

#[test]
fn test_add_page_duplicate_and_capacity() {
    let mut cfg = CrawlerConfig::new(2, 4);
    assert_eq!(cfg.len_pages(), 0);
    assert!(!cfg.max_pages_reached());

    assert_eq!(cfg.add_page(page("example.com/a")), Ok(()));
    assert_eq!(cfg.add_page(page("example.com/a")), Err(AddPageError::Duplicate));
    assert_eq!(cfg.len_pages(), 1);

    assert_eq!(cfg.add_page(page("example.com/b")), Ok(()));
    assert!(cfg.max_pages_reached());

    // The capacity gate holds whatever else is thrown at it.
    assert_eq!(cfg.add_page(page("example.com/c")), Err(AddPageError::Capacity));
    assert_eq!(cfg.add_page(page("example.com/d")), Err(AddPageError::Capacity));
    assert_eq!(cfg.len_pages(), 2);
}

#[test]
fn test_zero_capacity_round() {
    let mut cfg = CrawlerConfig::new(0, 1);
    assert!(cfg.max_pages_reached());
    assert_eq!(cfg.add_page(page("example.com")), Err(AddPageError::Capacity));
    assert_eq!(cfg.len_pages(), 0);
}

#[test]
fn test_update_links_graph_consistency() {
    let mut cfg = CrawlerConfig::new(10, 4);
    let links = vec![
        "https://example.com/b".to_string(),
        // A self-link: never recorded on either side.
        "https://example.com/a".to_string(),
        // Fails validation: dropped.
        "https://example.com/sp ace".to_string(),
        // Fails normalization: dropped.
        "ftp://example.com/f".to_string(),
    ];
    cfg.update_links("example.com/a", &links);
    let state = cfg.drain_and_clear();

    assert_eq!(state.outlinks.len(), 1);
    let out = &state.outlinks[0];
    assert_eq!(out.normalized_url, "example.com/a");
    assert_eq!(out.get_links(), vec!["example.com/b".to_string()]);

    assert_eq!(state.backlinks.len(), 1);
    let back = &state.backlinks[0];
    assert_eq!(back.normalized_url, "example.com/b");
    assert_eq!(back.get_links(), vec!["example.com/a".to_string()]);
}

#[test]
fn test_seed_page_links_collapse() {
    // Two anchors resolving to the same normalized target produce exactly
    // one outlink entry.
    let html = r#"
        <html>
            <body>
                <a href="/a">relative</a>
                <a href="https://example.com/a">absolute</a>
            </body>
        </html>
    "#;
    let (links, _) = get_urls_from_html(html, "https://example.com/").unwrap();

    let mut cfg = CrawlerConfig::new(10, 4);
    cfg.update_links("example.com", &links);
    let state = cfg.drain_and_clear();

    assert_eq!(state.outlinks.len(), 1);
    let out = &state.outlinks[0];
    assert_eq!(out.normalized_url, "example.com");
    assert_eq!(out.get_links(), vec!["example.com/a".to_string()]);

    assert_eq!(state.backlinks.len(), 1);
    assert_eq!(state.backlinks[0].normalized_url, "example.com/a");
    assert_eq!(state.backlinks[0].get_links(), vec!["example.com".to_string()]);
}

#[test]
fn test_update_links_merges_across_calls() {
    // The source page's outlink set gains links; a later batch never
    // erases what an earlier one recorded, and an empty batch changes
    // nothing.
    let mut cfg = CrawlerConfig::new(10, 4);
    cfg.update_links("example.com/a", &vec!["https://example.com/b".to_string()]);
    cfg.update_links("example.com/a", &vec!["https://example.com/c".to_string()]);
    cfg.update_links("example.com/a", &vec![]);
    let state = cfg.drain_and_clear();

    assert_eq!(state.outlinks.len(), 1);
    let out = &state.outlinks[0];
    assert_eq!(out.normalized_url, "example.com/a");
    assert_eq!(
        out.get_links(),
        vec!["example.com/b".to_string(), "example.com/c".to_string()]
    );
}

#[test]
fn test_add_images_defaults_alt() {
    let mut cfg = CrawlerConfig::new(10, 4);
    let sources = vec![
        ImageSource { src: "cdn.example.com/a.png".to_string(), alt: Some("an a".to_string()) },
        ImageSource { src: "cdn.example.com/b.png".to_string(), alt: None },
    ];
    cfg.add_images("example.com", &sources);
    let state = cfg.drain_and_clear();

    assert_eq!(state.images.len(), 2);
    assert_eq!(state.images[0].normalized_page_url, "example.com");
    assert_eq!(state.images[0].normalized_source_url, "cdn.example.com/a.png");
    assert_eq!(state.images[0].alt, "an a");
    assert_eq!(state.images[1].alt, "");
}

#[test]
fn test_drain_and_clear_resets() {
    let mut cfg = CrawlerConfig::new(10, 4);
    assert_eq!(cfg.add_page(page("example.com/a")), Ok(()));
    cfg.update_links("example.com/a", &vec!["https://example.com/b".to_string()]);

    let state = cfg.drain_and_clear();
    assert_eq!(state.pages.len(), 1);
    assert_eq!(state.pages[0].normalized_url, "example.com/a");
    assert_eq!(state.outlinks.len(), 1);
    assert_eq!(state.backlinks.len(), 1);

    // The accumulator is empty again, its limit kept.
    assert_eq!(cfg.len_pages(), 0);
    let again = cfg.drain_and_clear();
    assert!(again.pages.is_empty());
    assert!(again.outlinks.is_empty());
    assert!(again.backlinks.is_empty());
    assert!(again.images.is_empty());
}

#[test]
fn test_accumulate_page_full_pass() {
    let mut cfg = CrawlerConfig::new(10, 4);
    let links = vec!["https://example.com/next".to_string()];
    let images = vec![ImageSource { src: "cdn.example.com/i.png".to_string(), alt: None }];
    let r = cfg.accumulate_page(
        "example.com",
        "<html></html>".to_string(),
        "text/html".to_string(),
        200,
        &links,
        &images,
    );
    assert_eq!(r, Ok(()));
    // A second worker racing past the visited check is rejected here.
    let r2 = cfg.accumulate_page(
        "example.com",
        "<html></html>".to_string(),
        "text/html".to_string(),
        200,
        &links,
        &images,
    );
    assert_eq!(r2, Err(AddPageError::Duplicate));

    let state = cfg.drain_and_clear();
    assert_eq!(state.pages.len(), 1);
    assert_eq!(state.pages[0].status_code, 200);
    assert_eq!(state.pages[0].content_type, "text/html");
    assert_eq!(state.images.len(), 2);
    assert_eq!(state.outlinks.len(), 1);
    assert_eq!(state.outlinks[0].get_links(), vec!["example.com/next".to_string()]);
}
