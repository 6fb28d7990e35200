use spider::crawler::backpressure::{crawl_blocked, is_resume_signal};
use spider::crawler::crawl::{
    queue_member, score_for_link, worker_step, ExtractedData, FetchedPage, PoppedUrl, WorkerEvent,
    WorkerState,
};
use spider::crawler::crawler::AddPageError;
use spider::crawler::get_page_data::{check_page_response, FetchError};
use spider::utils::constants::{MAX_SCORE, MIN_SCORE};

fn item() -> PoppedUrl {
    PoppedUrl {
        raw_url: "https://example.com/a".to_string(),
        score: 1,
        normalized_url: "example.com/a".to_string(),
    }
}

fn fetched() -> FetchedPage {
    FetchedPage {
        html: "<html></html>".to_string(),
        status_code: 200,
        content_type: "text/html".to_string(),
    }
}

fn extracted() -> ExtractedData {
    ExtractedData { links: vec!["https://example.com/b".to_string()], images: vec![] }
}

#[test]
fn test_worker_happy_path() {
    let s = WorkerState::AwaitWork;
    let s = worker_step(s, WorkerEvent::Popped { item: item() });
    assert_eq!(s, WorkerState::CheckVisited { item: item() });
    let s = worker_step(s, WorkerEvent::Visited { visited: false });
    assert_eq!(s, WorkerState::Fetch { item: item() });
    let s = worker_step(s, WorkerEvent::Fetched { page: fetched() });
    assert_eq!(s, WorkerState::Extract { item: item(), page: fetched() });
    let s = worker_step(s, WorkerEvent::Extracted { data: extracted() });
    assert_eq!(
        s,
        WorkerState::Accumulate { item: item(), page: fetched(), data: extracted() }
    );
    let s = worker_step(s, WorkerEvent::Accumulated { result: Ok(()) });
    assert_eq!(
        s,
        WorkerState::MarkVisited { item: item(), links: extracted().links, round_full: false }
    );
    let s = worker_step(s, WorkerEvent::MarkedVisited { ok: true });
    assert_eq!(s, WorkerState::Enqueue { item: item(), links: extracted().links });
    let s = worker_step(s, WorkerEvent::EnqueueDone);
    assert_eq!(s, WorkerState::AwaitWork);
}

#[test]
fn test_worker_terminal_transitions() {
    assert_eq!(
        worker_step(WorkerState::AwaitWork, WorkerEvent::QueueEmpty),
        WorkerState::Stopped
    );
    assert_eq!(
        worker_step(WorkerState::AwaitWork, WorkerEvent::CapacityReached),
        WorkerState::Stopped
    );
    // A full round still marks the URL visited first, then stops.
    assert_eq!(
        worker_step(
            WorkerState::Accumulate { item: item(), page: fetched(), data: extracted() },
            WorkerEvent::Accumulated { result: Err(AddPageError::Capacity) },
        ),
        WorkerState::MarkVisited { item: item(), links: extracted().links, round_full: true }
    );
    assert_eq!(
        worker_step(
            WorkerState::MarkVisited { item: item(), links: extracted().links, round_full: true },
            WorkerEvent::MarkedVisited { ok: true },
        ),
        WorkerState::Stopped
    );
}

#[test]
fn test_worker_transient_skips() {
    assert_eq!(
        worker_step(
            WorkerState::CheckVisited { item: item() },
            WorkerEvent::Visited { visited: true },
        ),
        WorkerState::AwaitWork
    );
    assert_eq!(
        worker_step(WorkerState::CheckVisited { item: item() }, WorkerEvent::VisitedCheckFailed),
        WorkerState::AwaitWork
    );
    assert_eq!(
        worker_step(WorkerState::Fetch { item: item() }, WorkerEvent::FetchFailed),
        WorkerState::AwaitWork
    );
    assert_eq!(
        worker_step(
            WorkerState::Extract { item: item(), page: fetched() },
            WorkerEvent::ExtractFailed,
        ),
        WorkerState::AwaitWork
    );
    // A duplicate verdict still marks the URL visited before moving on.
    assert_eq!(
        worker_step(
            WorkerState::Accumulate { item: item(), page: fetched(), data: extracted() },
            WorkerEvent::Accumulated { result: Err(AddPageError::Duplicate) },
        ),
        WorkerState::MarkVisited { item: item(), links: extracted().links, round_full: false }
    );
    // A failed visited mark is only logged; the links are still enqueued.
    assert_eq!(
        worker_step(
            WorkerState::MarkVisited { item: item(), links: extracted().links, round_full: false },
            WorkerEvent::MarkedVisited { ok: false },
        ),
        WorkerState::Enqueue { item: item(), links: extracted().links }
    );
}

#[test]
fn test_worker_protocol_breach_stops() {
    assert_eq!(
        worker_step(WorkerState::Stopped, WorkerEvent::QueueEmpty),
        WorkerState::Stopped
    );
    assert_eq!(
        worker_step(WorkerState::Fetch { item: item() }, WorkerEvent::EnqueueDone),
        WorkerState::Stopped
    );
}

#[test]
fn test_score_for_link_clamping() {
    // A rediscovered link inherits its queued score unchanged when in range.
    assert_eq!(score_for_link(Some(7), 3), 7);
    // A fresh link scores one deeper than its parent.
    assert_eq!(score_for_link(None, 3), 4);
    // Both paths clamp into [MIN_SCORE, MAX_SCORE].
    assert_eq!(score_for_link(Some(999_999), 0), MAX_SCORE);
    assert_eq!(score_for_link(Some(-999_999), 0), MIN_SCORE);
    assert_eq!(score_for_link(None, MAX_SCORE), MAX_SCORE);
    assert_eq!(score_for_link(None, i64::MAX), MAX_SCORE);
    assert_eq!(score_for_link(None, i64::MIN), MIN_SCORE);
    assert_eq!(score_for_link(Some(MIN_SCORE), 0), MIN_SCORE);
}

#[test]
fn test_backpressure_threshold() {
    // Depth at the threshold blocks the next round.
    assert!(crawl_blocked(5000));
    assert!(crawl_blocked(5001));
    assert!(!crawl_blocked(4999));
    assert!(!crawl_blocked(0));

    // Only the reserved signal resumes; everything else leaves it blocked.
    assert!(is_resume_signal("RESUME_CRAWL"));
    assert!(!is_resume_signal("resume_crawl"));
    assert!(!is_resume_signal("RESUME"));
    assert!(!is_resume_signal(""));
}

#[test]
fn test_check_page_response() {
    assert_eq!(check_page_response(200, "text/html"), Ok(()));
    assert_eq!(check_page_response(200, "text/html; charset=utf-8"), Ok(()));
    assert_eq!(check_page_response(301, "text/html"), Ok(()));
    assert_eq!(check_page_response(404, "text/html"), Err(FetchError::HttpStatus));
    assert_eq!(check_page_response(500, "text/html"), Err(FetchError::HttpStatus));
    assert_eq!(check_page_response(200, "application/json"), Err(FetchError::ContentType));
    assert_eq!(check_page_response(200, "text/plain"), Err(FetchError::ContentType));
    assert_eq!(check_page_response(200, ""), Err(FetchError::ContentType));
}

#[test]
fn test_queue_member_matches_normalize() {
    assert_eq!(queue_member("https://www.mults.com/").unwrap(), "mults.com");
    assert_eq!(
        queue_member("https://en.wikipedia.org/wiki/Mega_Man_X#Plot").unwrap(),
        "en.wikipedia.org/wiki/Mega_Man_X"
    );
    // A scheme the crawler does not follow fails at normalization.
    assert!(queue_member("htps://www.mults.com/").is_err());
    // Unparsable input fails at the strip step.
    assert!(queue_member("not a url").is_err());
}
