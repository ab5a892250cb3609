//! Retrieval and snippet assembly for a full-text search over time-stamped
//! video captions: query planning, deterministic video ranking with
//! video-level pagination, neighbour context selection, and snippet
//! stitching and truncation around a highlighted span.
pub mod config;
pub mod duration;
pub mod format;
pub mod models;
pub mod neighbors;
pub mod options;
pub mod query;
pub mod ranking;
pub mod search;
pub mod snippet;
pub mod text;
