//! Backpressure decisions: when the downstream indexer queue is deep
//! enough to pause crawling, and which signal value resumes it. The
//! orchestrator polls the queue depth and the signal channel and hands
//! their readings in.

use vstd::prelude::*;
use crate::utils::constants::{resume_crawl_signal, MAX_INDEXER_QUEUE_SIZE};

verus! {

/// Whether a reported indexer-queue depth blocks the next crawl round.
pub fn crawl_blocked(indexer_queue_len: i64) -> (r: bool)
    ensures
        r == (indexer_queue_len >= MAX_INDEXER_QUEUE_SIZE),
{
    indexer_queue_len >= MAX_INDEXER_QUEUE_SIZE
}

/// Whether a message from the signal channel resumes crawling: only the
/// reserved resume value does; every other message is ignored.
pub fn is_resume_signal(signal: &str) -> (r: bool)
    ensures
        r == (signal@ == "RESUME_CRAWL"@),
{
    signal.to_owned() == resume_crawl_signal().to_owned()
}

} // verus!
