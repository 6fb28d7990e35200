//! One image discovered on a crawled page.

use vstd::prelude::*;

verus! {

/// An image found on a page: where it was found, the normalized URL of its
/// source, and its alt text (empty when the tag had none).
#[derive(Debug, Clone, PartialEq, Eq)]
pub struct Image {
    pub normalized_page_url: String,
    pub normalized_source_url: String,
    pub alt: String,
}

/// An image as extraction hands it over: its normalized source URL and the
/// alt text, when the tag carried one.
#[derive(Debug, Clone, PartialEq, Eq)]
pub struct ImageSource {
    pub src: String,
    pub alt: Option<String>,
}

} // verus!
