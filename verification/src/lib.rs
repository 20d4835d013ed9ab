//! Extraction, deduplication, recency filtering and retention of listing
//! records.

pub mod args;
pub mod context;
pub mod crawl;
pub mod date;
pub mod dom;
pub mod history;
pub mod magnet;
pub mod number;
pub mod pattern;
pub mod pipeline;
pub mod seen;
pub mod text;
pub mod wait;
