use spider::controllers::image_controller::image_save_entries;
use spider::controllers::page_controller::{collect_pages, page_save_entries};
use spider::controllers::page_node_controller::link_save_entries;
use spider::crawler::crawler::CrawlerConfig;
use spider::pages::image::Image;
use spider::pages::page::{Page, PageError};

#[test]
fn test_page_save_entries_keys_and_records() {
    let page = Page::new(
        "example.com/a".to_string(),
        "<html></html>".to_string(),
        "text/html".to_string(),
        200,
    );
    let entries = page_save_entries(&vec![page.clone()]);
    assert_eq!(entries.len(), 1);
    assert_eq!(entries[0].page_key, "page_data:example.com/a");
    assert_eq!(entries[0].record.normalized_url.as_deref(), Some("example.com/a"));
    assert_eq!(entries[0].record.status_code.as_deref(), Some("200"));
    assert_eq!(Page::from_hash(&entries[0].record), Ok(page));
}

#[test]
fn test_collect_pages_propagates_errors() {
    let good = Page::new(
        "example.com/a".to_string(),
        "<html></html>".to_string(),
        "text/html".to_string(),
        200,
    );
    let mut bad = good.to_hash();
    bad.status_code = Some("nope".to_string());

    assert_eq!(
        collect_pages(&vec![good.to_hash(), bad.clone()]),
        Err(PageError::InvalidStatusCode)
    );
    let collected = collect_pages(&vec![good.to_hash()]).unwrap();
    assert_eq!(collected, vec![good]);
    assert_eq!(collect_pages(&vec![]).unwrap(), vec![]);
}

#[test]
fn test_link_save_entries_both_sides() {
    let mut cfg = CrawlerConfig::new(10, 4);
    cfg.update_links(
        "example.com/a",
        &vec!["https://example.com/b".to_string(), "https://example.com/c".to_string()],
    );
    let state = cfg.drain_and_clear();
    let entries = link_save_entries(&state.backlinks, &state.outlinks);

    // Two backlink writes (one per target), then two outlink writes.
    assert_eq!(entries.len(), 4);
    assert_eq!(entries[0].set_key, "backlinks:example.com/b");
    assert_eq!(entries[0].member, "example.com/a");
    assert_eq!(entries[1].set_key, "backlinks:example.com/c");
    assert_eq!(entries[1].member, "example.com/a");
    assert_eq!(entries[2].set_key, "outlinks:example.com/a");
    assert_eq!(entries[2].member, "example.com/b");
    assert_eq!(entries[3].set_key, "outlinks:example.com/a");
    assert_eq!(entries[3].member, "example.com/c");
}

#[test]
fn test_image_save_entries_fields() {
    let images = vec![Image {
        normalized_page_url: "example.com/a".to_string(),
        normalized_source_url: "cdn.example.com/i.png".to_string(),
        alt: "an image".to_string(),
    }];
    let entries = image_save_entries(&images);
    assert_eq!(entries.len(), 1);
    assert_eq!(entries[0].image_key, "image_data:cdn.example.com/i.png");
    assert_eq!(entries[0].page_url, "example.com/a");
    assert_eq!(entries[0].alt, "an image");
    assert_eq!(entries[0].page_images_key, "page_images:example.com/a");
    assert_eq!(entries[0].source_url, "cdn.example.com/i.png");
}
