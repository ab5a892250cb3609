//! Records that the search core shares with the index and its callers.
use vstd::prelude::*;

verus! {

/// One caption segment of a video; times are in milliseconds from the
/// start of the video.
#[derive(Clone, Debug)]
pub struct Caption {
    pub video_id: String,
    pub text: String,
    pub start_ms: i64,
    pub end_ms: i64,
}

/// A matching caption with its snippet; the snippet holds one highlighted
/// span between the highlight tags.
#[derive(Clone, Debug)]
pub struct SearchResult {
    pub video_id: String,
    pub start_ms: i64,
    pub end_ms: i64,
    pub snippet_html: String,
}

/// One page of results, with totals over every page.
#[derive(Clone, Debug)]
pub struct SearchResponse {
    pub results: Vec<SearchResult>,
    pub total_videos: usize,
    pub total_captions: usize,
    pub page: usize,
    pub page_size: usize,
    pub total_pages: usize,
}

/// Metadata of one video, as the video metadata store holds it.
#[derive(Clone, Debug, Default)]
pub struct VideoMetadata {
    pub title: String,
    pub channel_name: String,
    pub channel_id: String,
    /// Unix seconds.
    pub upload_date: i64,
    /// Unix seconds.
    pub crawl_date: i64,
    /// Seconds.
    pub duration: i64,
    pub likes: i64,
    pub views: i64,
    pub comment_count: i64,
    pub has_captions: bool,
    pub tags: Vec<String>,
    pub video_id: String,
    pub playlists: Vec<String>,
}

} // verus!
