pub mod backpressure;
pub mod crawl;
pub mod crawler;
pub mod get_page_data;
pub mod get_urls_from_html;
pub mod graph;
