//! Panoptes: a watchlist of version-controlled repositories, organized into
//! named groups, with a deterministic status summarizer.

pub mod options;
pub mod report;
pub mod store;
pub mod trigger;
