//! A verified core for a single-process, multi-worker web crawler.
//!
//! The library covers the crawl coordinator's logic: URL normalization and
//! validation, the priority-score discipline, the in-round link-graph
//! accumulator with its capacity invariant, page record round-tripping, the
//! worker state machine, and backpressure decisions. Network and store I/O
//! live outside the library and hand it plain values.

pub mod controllers;
pub mod crawler;
pub mod pages;
pub mod utils;
