//! Attribution pipeline for images posted in monitored broadcast channels.
//!
//! The library matches posted images against a reverse-image-search index,
//! deduplicates candidate sources across media groups, and schedules edit
//! jobs that attach source links to channel posts.

pub mod matcher;
pub mod message;
pub mod pipeline;
pub mod scheduler;
pub mod similarity;
pub mod sites;
pub mod store;
