//! One crawl worker as a state machine, plus the accumulate phase and the
//! link-priority rule. The worker loops: pop, deduplicate, fetch, extract,
//! accumulate, mark visited, enqueue discovered links, and back to the
//! queue; it stops when the queue is empty or the round is full. The
//! blocking calls — queue, store, network — run outside the library, which
//! decides every transition from their reported outcomes.

use vstd::prelude::*;
use crate::crawler::crawler::{AddPageError, CrawlerConfig, graphs_updated};
use crate::pages::image::ImageSource;
use crate::pages::page::{page_wf, Page};
use crate::utils::constants::{MAX_SCORE, MIN_SCORE};
use crate::utils::normalize_url::{normalize_url, normalize_url_spec, NormalizeUrlError};
use crate::utils::strip_url::{strip_url, strip_url_spec, StripUrlError};
use crate::utils::url_parts::{is_http_scheme, url_scheme};

verus! {

/// One unit of work taken from the priority queue.
#[derive(Debug, Clone, PartialEq, Eq)]
pub struct PoppedUrl {
    pub raw_url: String,
    pub score: i64,
    pub normalized_url: String,
}

/// A fetched response the crawler keeps: HTML body, status, content type.
#[derive(Debug, Clone, PartialEq, Eq)]
pub struct FetchedPage {
    pub html: String,
    pub status_code: u16,
    pub content_type: String,
}

/// What extraction found in a page: candidate links and images.
#[derive(Debug, Clone, PartialEq, Eq)]
pub struct ExtractedData {
    pub links: Vec<String>,
    pub images: Vec<ImageSource>,
}

/// Where a worker stands; each non-terminal state names the call whose
/// outcome it awaits.
#[derive(Debug, Clone, PartialEq, Eq)]
pub enum WorkerState {
    /// About to check capacity and pop the next URL.
    AwaitWork,
    /// Awaiting the visited-store check for `item`.
    CheckVisited { item: PoppedUrl },
    /// Awaiting the fetch of `item`'s raw URL.
    Fetch { item: PoppedUrl },
    /// Awaiting link and image extraction from the fetched page.
    Extract { item: PoppedUrl, page: FetchedPage },
    /// Awaiting the accumulator's verdict on the crawled page.
    Accumulate { item: PoppedUrl, page: FetchedPage, data: ExtractedData },
    /// Awaiting the durable visited mark; `round_full` records whether the
    /// accumulator called the round full, which ends the worker after the
    /// mark.
    MarkVisited { item: PoppedUrl, links: Vec<String>, round_full: bool },
    /// Awaiting the enqueueing of the discovered links.
    Enqueue { item: PoppedUrl, links: Vec<String> },
    /// Terminal: queue exhausted, round full, or protocol breached.
    Stopped,
}

/// The outcome of the call a worker state was waiting on.
#[derive(Debug, PartialEq, Eq)]
pub enum WorkerEvent {
    /// The round has reached its page limit.
    CapacityReached,
    /// The queue handed out a URL.
    Popped { item: PoppedUrl },
    /// The queue has no more URLs.
    QueueEmpty,
    /// The visited store answered the dedup check.
    Visited { visited: bool },
    /// The visited store failed; the URL is skipped as transient.
    VisitedCheckFailed,
    /// The fetch returned a page worth keeping.
    Fetched { page: FetchedPage },
    /// The fetch failed or the response was rejected.
    FetchFailed,
    /// Extraction found the page's links and images.
    Extracted { data: ExtractedData },
    /// Extraction failed.
    ExtractFailed,
    /// The accumulator's verdict on the page.
    Accumulated { result: Result<(), AddPageError> },
    /// The durable visited mark was attempted; an error is only logged.
    MarkedVisited { ok: bool },
    /// Every discovered link has been scored and pushed.
    EnqueueDone,
}

/// The worker's transition relation. Transient failures return the worker
/// to the queue; `QueueEmpty` and a full round end it. Once fetch and
/// extraction have produced a page, the URL is durably marked visited
/// whatever the accumulator's verdict; a `Capacity` verdict then ends the
/// worker after the mark, while `Ok` and `Duplicate` go on to enqueue the
/// discovered links. An event that the state was not waiting on ends the
/// worker rather than continuing from a breached protocol.
pub open spec fn worker_step_spec(s: WorkerState, e: WorkerEvent) -> WorkerState {
    match (s, e) {
        (WorkerState::AwaitWork, WorkerEvent::CapacityReached) => WorkerState::Stopped,
        (WorkerState::AwaitWork, WorkerEvent::QueueEmpty) => WorkerState::Stopped,
        (WorkerState::AwaitWork, WorkerEvent::Popped { item }) => WorkerState::CheckVisited {
            item,
        },
        (WorkerState::CheckVisited { item }, WorkerEvent::Visited { visited }) => if visited {
            WorkerState::AwaitWork
        } else {
            WorkerState::Fetch { item }
        },
        (WorkerState::CheckVisited { .. }, WorkerEvent::VisitedCheckFailed) => {
            WorkerState::AwaitWork
        },
        (WorkerState::Fetch { item }, WorkerEvent::Fetched { page }) => WorkerState::Extract {
            item,
            page,
        },
        (WorkerState::Fetch { .. }, WorkerEvent::FetchFailed) => WorkerState::AwaitWork,
        (WorkerState::Extract { item, page }, WorkerEvent::Extracted { data }) => {
            WorkerState::Accumulate { item, page, data }
        },
        (WorkerState::Extract { .. }, WorkerEvent::ExtractFailed) => WorkerState::AwaitWork,
        (WorkerState::Accumulate { item, data, .. }, WorkerEvent::Accumulated { result }) => {
            WorkerState::MarkVisited {
                item,
                links: data.links,
                round_full: (match result {
                    Err(AddPageError::Capacity) => true,
                    _ => false,
                }),
            }
        },
        (
            WorkerState::MarkVisited { item, links, round_full },
            WorkerEvent::MarkedVisited { .. },
        ) => {
            if round_full {
                WorkerState::Stopped
            } else {
                WorkerState::Enqueue { item, links }
            }
        },
        (WorkerState::Enqueue { .. }, WorkerEvent::EnqueueDone) => WorkerState::AwaitWork,
        _ => WorkerState::Stopped,
    }
}

/// Advances a worker by one observed outcome.
pub fn worker_step(s: WorkerState, e: WorkerEvent) -> (r: WorkerState)
    ensures
        r == worker_step_spec(s, e),
{
    match (s, e) {
        (WorkerState::AwaitWork, WorkerEvent::CapacityReached) => WorkerState::Stopped,
        (WorkerState::AwaitWork, WorkerEvent::QueueEmpty) => WorkerState::Stopped,
        (WorkerState::AwaitWork, WorkerEvent::Popped { item }) => WorkerState::CheckVisited {
            item,
        },
        (WorkerState::CheckVisited { item }, WorkerEvent::Visited { visited }) => if visited {
            WorkerState::AwaitWork
        } else {
            WorkerState::Fetch { item }
        },
        (WorkerState::CheckVisited { .. }, WorkerEvent::VisitedCheckFailed) => {
            WorkerState::AwaitWork
        },
        (WorkerState::Fetch { item }, WorkerEvent::Fetched { page }) => WorkerState::Extract {
            item,
            page,
        },
        (WorkerState::Fetch { .. }, WorkerEvent::FetchFailed) => WorkerState::AwaitWork,
        (WorkerState::Extract { item, page }, WorkerEvent::Extracted { data }) => {
            WorkerState::Accumulate { item, page, data }
        },
        (WorkerState::Extract { .. }, WorkerEvent::ExtractFailed) => WorkerState::AwaitWork,
        (WorkerState::Accumulate { item, data, .. }, WorkerEvent::Accumulated { result }) => {
            WorkerState::MarkVisited {
                item,
                links: data.links,
                round_full: (match result {
                    Err(AddPageError::Capacity) => true,
                    _ => false,
                }),
            }
        },
        (
            WorkerState::MarkVisited { item, links, round_full },
            WorkerEvent::MarkedVisited { .. },
        ) => {
            if round_full {
                WorkerState::Stopped
            } else {
                WorkerState::Enqueue { item, links }
            }
        },
        (WorkerState::Enqueue { .. }, WorkerEvent::EnqueueDone) => WorkerState::AwaitWork,
        _ => WorkerState::Stopped,
    }
}

/// A score clamped into the queue's priority range.
pub open spec fn clamp_score(s: int) -> int {
    if s < MIN_SCORE as int {
        MIN_SCORE as int
    } else if s > MAX_SCORE as int {
        MAX_SCORE as int
    } else {
        s
    }
}

/// Priority for a discovered link: its existing queue score when it is
/// already queued, else one deeper than its parent; always clamped into
/// the score range, so no pushed score ever leaves it.
pub fn score_for_link(existing: Option<i64>, parent_depth: i64) -> (r: i64)
    ensures
        r as int == clamp_score(
            match existing {
                Some(s) => s as int,
                None => parent_depth + 1,
            },
        ),
        MIN_SCORE <= r <= MAX_SCORE,
{
    let base: i64 = match existing {
        Some(s) => s,
        None => if parent_depth >= MAX_SCORE {
            MAX_SCORE
        } else {
            parent_depth + 1
        },
    };
    if base < MIN_SCORE {
        MIN_SCORE
    } else if base > MAX_SCORE {
        MAX_SCORE
    } else {
        base
    }
}

/// Why a link cannot be queued: it fails the strip step or the
/// normalization that follows it.
#[derive(Debug, Clone, Copy, PartialEq, Eq, Structural)]
pub enum QueueKeyError {
    Strip(StripUrlError),
    Normalize(NormalizeUrlError),
}

/// The key a link is queued under: the raw URL stripped to its
/// re-qualifiable form, then normalized. For any http(s) URL this is the
/// same key normalization alone would give, so queue membership and page
/// identity agree.
pub fn queue_member(raw_url: &str) -> (r: Result<String, QueueKeyError>)
    ensures
        strip_url_spec(raw_url@) matches Err(e) ==> r == Err::<String, QueueKeyError>(
            QueueKeyError::Strip(e),
        ),
        strip_url_spec(raw_url@) matches Ok(v) ==> match normalize_url_spec(v) {
            Ok(m) => r matches Ok(u) && u@ == m,
            Err(e) => r == Err::<String, QueueKeyError>(QueueKeyError::Normalize(e)),
        },
        r matches Ok(u) ==> (is_http_scheme(url_scheme(raw_url@)) ==> normalize_url_spec(
            raw_url@,
        ) == Ok::<Seq<char>, NormalizeUrlError>(u@)),
{
    let stripped = match strip_url(raw_url) {
        Ok(s) => s,
        Err(e) => {
            return Err(QueueKeyError::Strip(e));
        },
    };
    match normalize_url(stripped.as_str()) {
        Ok(m) => Ok(m),
        Err(e) => Err(QueueKeyError::Normalize(e)),
    }
}

impl CrawlerConfig {
    /// One worker's accumulate phase, in the worker's order: record the
    /// page's images, fold its links into the graph, then submit the page
    /// itself to the capacity gate.
    pub fn accumulate_page(
        &mut self,
        normalized_url: &str,
        html: String,
        content_type: String,
        status_code: u16,
        links: &Vec<String>,
        images: &Vec<ImageSource>,
    ) -> (r: Result<(), AddPageError>)
        requires
            old(self).wf(),
        ensures
            final(self).wf(),
            final(self).spec_max_pages() == old(self).spec_max_pages(),
            final(self).spec_max_concurrency() == old(self).spec_max_concurrency(),
            graphs_updated(*old(self), *final(self), normalized_url@, links.deep_view()),
            final(self).images_view().len() == old(self).images_view().len() + images@.len(),
            final(self).images_view().subrange(0, old(self).images_view().len() as int) == old(self).images_view(),
            forall|j: int|
                0 <= j < images@.len() ==> {
                    let img = #[trigger] final(self).images_view()[old(self).images_view().len() + j];
                    &&& img.normalized_page_url@ == normalized_url@
                    &&& img.normalized_source_url@ == images@[j].src@
                    &&& img.alt@ == (match images@[j].alt {
                        Some(a) => a@,
                        None => Seq::<char>::empty(),
                    })
                },
            match r {
                Ok(()) => !old(self).has_page(normalized_url@) && old(self).pages_view().len()
                    < old(self).spec_max_pages() && final(self).pages_view().len() == old(self).pages_view().len() + 1 && final(self).pages_view().subrange(
                    0,
                    old(self).pages_view().len() as int,
                ) == old(self).pages_view() && {
                    let p = final(self).pages_view().last();
                    &&& p.normalized_url@ == normalized_url@
                    &&& p.html == html
                    &&& p.content_type == content_type
                    &&& p.status_code == status_code as i32
                    &&& page_wf(p)
                },
                Err(AddPageError::Duplicate) => old(self).has_page(normalized_url@) && final(self).pages_view() == old(self).pages_view(),
                Err(AddPageError::Capacity) => !old(self).has_page(normalized_url@) && old(self).pages_view().len() >= old(self).spec_max_pages() && final(self).pages_view()
                    == old(self).pages_view(),
            },
    {
        self.add_images(normalized_url, images);
        self.update_links(normalized_url, links);
        let page = Page::new(normalized_url.to_owned(), html, content_type, status_code as i32);
        let r = self.add_page(page);
        proof {
            if r is Ok {
                assert(final(self).pages_view().subrange(
                    0,
                    old(self).pages_view().len() as int,
                ) =~= old(self).pages_view());
            }
        }
        r
    }
}

} // verus!
