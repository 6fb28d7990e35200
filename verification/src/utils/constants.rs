//! Crawler-wide tuning constants and store key prefixes.

use vstd::prelude::*;

verus! {

/// Largest priority score a queued URL may carry.
pub const MAX_SCORE: i64 = 10_000;

/// Smallest priority score a queued URL may carry.
pub const MIN_SCORE: i64 = -1_000;

/// Depth of the downstream indexer queue at which crawling pauses.
pub const MAX_INDEXER_QUEUE_SIZE: i64 = 5_000;

/// Key of the priority work queue in the backing store.
pub fn spider_queue_key() -> (r: &'static str)
    ensures
        r@ == "spider_queue"@,
{
    "spider_queue"
}

/// Key of the downstream indexer queue whose depth drives backpressure.
pub fn indexer_queue_key() -> (r: &'static str)
    ensures
        r@ == "pages_queue"@,
{
    "pages_queue"
}

/// Key of the signal channel the orchestrator blocks on while paused.
pub fn signal_queue_key() -> (r: &'static str)
    ensures
        r@ == "signal_queue"@,
{
    "signal_queue"
}

/// The one signal value that resumes crawling after backpressure.
pub fn resume_crawl_signal() -> (r: &'static str)
    ensures
        r@ == "RESUME_CRAWL"@,
{
    "RESUME_CRAWL"
}

/// The key prefix under which a page's record is stored.
pub fn page_prefix() -> (r: &'static str)
    ensures
        r@ == "page_data"@,
{
    "page_data"
}

/// The key prefix under which an image's record is stored.
pub fn image_prefix() -> (r: &'static str)
    ensures
        r@ == "image_data"@,
{
    "image_data"
}

/// The key prefix of a page's set of image source URLs.
pub fn page_images_prefix() -> (r: &'static str)
    ensures
        r@ == "page_images"@,
{
    "page_images"
}

/// The key prefix of a page's backlink set.
pub fn backlinks_prefix() -> (r: &'static str)
    ensures
        r@ == "backlinks"@,
{
    "backlinks"
}

/// The key prefix of a page's outlink set.
pub fn outlinks_prefix() -> (r: &'static str)
    ensures
        r@ == "outlinks"@,
{
    "outlinks"
}

/// A store key of the shape `prefix:suffix`.
pub open spec fn key_of(prefix: Seq<char>, suffix: Seq<char>) -> Seq<char> {
    prefix + ":"@ + suffix
}

/// Builds the store key `prefix:suffix`.
pub fn store_key(prefix: &str, suffix: &str) -> (r: String)
    ensures
        r@ == key_of(prefix@, suffix@),
{
    prefix.to_owned().concat(":").concat(suffix)
}

/// The durable visited marker's key for a normalized URL.
pub fn visited_key(url: &str) -> (r: String)
    ensures
        r@ == "visited"@ + ":"@ + url@,
{
    store_key("visited", url)
}

} // verus!
