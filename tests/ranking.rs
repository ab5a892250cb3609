use caption_search::models::VideoMetadata;
use caption_search::options::{SearchOptions, SortBy, SortOrder};
use caption_search::ranking::{apply_metadata, needs_metadata, rank_videos, total_pages, VideoRankEntry};

fn entry(id: &str, avg: i64, count: i64) -> VideoRankEntry {
    VideoRankEntry {
        video_id: id.to_string(),
        avg_score: avg,
        max_score: avg,
        match_count: count,
        upload_date: 0,
        duration: 0,
        views: 0,
        likes: 0,
    }
}

fn metadata(id: &str, upload_date: i64, duration: i64, views: i64, likes: i64) -> VideoMetadata {
    VideoMetadata {
        video_id: id.to_string(),
        upload_date,
        duration,
        views,
        likes,
        ..VideoMetadata::default()
    }
}

fn ids(v: &[String]) -> Vec<&str> {
    v.iter().map(|s| s.as_str()).collect()
}

#[test]
fn relevance_desc_puts_best_score_first() {
    let entries = vec![entry("v2", 10, 1), entry("v1", 30, 3), entry("v3", 20, 2)];
    let options = SearchOptions::natural(SortBy::Relevance, SortOrder::Desc);
    let r = rank_videos(&entries, &options, 0, 10);
    assert_eq!(ids(&r), vec!["v1", "v3", "v2"]);
}

#[test]
fn relevance_ties_break_by_video_id() {
    let entries = vec![entry("c", 5, 1), entry("a", 5, 1), entry("b", 5, 1)];
    let options = SearchOptions::natural(SortBy::Relevance, SortOrder::Desc);
    let r = rank_videos(&entries, &options, 0, 10);
    assert_eq!(ids(&r), vec!["a", "b", "c"]);
}

#[test]
fn caption_matches_ascending() {
    let entries = vec![entry("five", 10, 5), entry("two", 10, 2)];
    let options = SearchOptions::natural(SortBy::CaptionMatches, SortOrder::Asc);
    let r = rank_videos(&entries, &options, 0, 10);
    assert_eq!(ids(&r), vec!["two", "five"]);
}

#[test]
fn caption_matches_equal_counts_prefer_relevance_then_id() {
    let entries = vec![entry("b", 10, 3), entry("c", 20, 3), entry("a", 10, 3)];
    let options = SearchOptions::natural(SortBy::CaptionMatches, SortOrder::Asc);
    let r = rank_videos(&entries, &options, 0, 10);
    assert_eq!(ids(&r), vec!["c", "a", "b"]);
}

#[test]
fn same_candidates_in_any_order_rank_the_same() {
    let a = vec![entry("x", 7, 2), entry("y", 7, 2), entry("z", 9, 1), entry("w", 7, 2)];
    let b = vec![entry("w", 7, 2), entry("z", 9, 1), entry("y", 7, 2), entry("x", 7, 2)];
    for sort_by in SortBy::all_variants() {
        for order in [SortOrder::Asc, SortOrder::Desc] {
            let options = SearchOptions::wide(sort_by, order);
            let first = rank_videos(&a, &options, 0, 10);
            let second = rank_videos(&b, &options, 0, 10);
            assert_eq!(first, second);
            assert_eq!(first, rank_videos(&a, &options, 0, 10));
        }
    }
}

#[test]
fn pages_concatenate_to_the_full_ranking() {
    let entries: Vec<VideoRankEntry> =
        (0..7).map(|i| entry(&format!("v{}", i), (i * 37 % 11) as i64, 1)).collect();
    let options = SearchOptions::natural(SortBy::Relevance, SortOrder::Desc);
    let full = rank_videos(&entries, &options, 0, 100);
    assert_eq!(full.len(), 7);
    for page_size in 1..9usize {
        let pages = total_pages(entries.len(), page_size);
        let mut joined = Vec::new();
        for page in 0..pages {
            joined.extend(rank_videos(&entries, &options, page, page_size));
        }
        assert_eq!(joined, full);
    }
}

#[test]
fn page_past_the_end_is_empty() {
    let entries = vec![entry("a", 1, 1), entry("b", 2, 1)];
    let options = SearchOptions::natural(SortBy::Relevance, SortOrder::Desc);
    assert!(rank_videos(&entries, &options, 1, 2).is_empty());
    assert!(rank_videos(&entries, &options, usize::MAX, usize::MAX).is_empty());
    assert_eq!(ids(&rank_videos(&entries, &options, 1, 1)), vec!["a"]);
}

#[test]
fn no_candidates_rank_nothing() {
    let options = SearchOptions::natural(SortBy::Views, SortOrder::Desc);
    assert!(rank_videos(&Vec::new(), &options, 0, 10).is_empty());
    assert_eq!(total_pages(0, 10), 0);
}

#[test]
fn total_pages_rounds_up() {
    assert_eq!(total_pages(10, 3), 4);
    assert_eq!(total_pages(9, 3), 3);
    assert_eq!(total_pages(1, 1), 1);
    assert_eq!(total_pages(5, 0), 0);
    assert_eq!(total_pages(usize::MAX, 2), usize::MAX / 2 + 1);
}

#[test]
fn metadata_sorts_need_enrichment() {
    assert!(needs_metadata(SortBy::UploadDate));
    assert!(needs_metadata(SortBy::Duration));
    assert!(needs_metadata(SortBy::Views));
    assert!(needs_metadata(SortBy::Likes));
    assert!(!needs_metadata(SortBy::Relevance));
    assert!(!needs_metadata(SortBy::CaptionMatches));
}

#[test]
fn metadata_fills_sort_fields() {
    let mut entries = vec![entry("a", 1, 1), entry("b", 2, 1), entry("c", 3, 1)];
    let docs = vec![metadata("b", 100, 60, 1000, 10), metadata("a", 50, 30, 5, 1), metadata("b", 200, 61, 2000, 20)];
    apply_metadata(&mut entries, &docs);
    assert_eq!((entries[0].upload_date, entries[0].duration, entries[0].views, entries[0].likes), (50, 30, 5, 1));
    assert_eq!((entries[1].upload_date, entries[1].duration, entries[1].views, entries[1].likes), (200, 61, 2000, 20));
    assert_eq!((entries[2].upload_date, entries[2].duration, entries[2].views, entries[2].likes), (0, 0, 0, 0));
    assert_eq!(entries[1].avg_score, 2);
    assert_eq!(entries[1].video_id, "b");
}

#[test]
fn views_descending_after_enrichment() {
    let mut entries = vec![entry("a", 9, 1), entry("b", 1, 1), entry("c", 5, 1)];
    let docs = vec![metadata("a", 0, 0, 10, 0), metadata("b", 0, 0, 30, 0), metadata("c", 0, 0, 10, 0)];
    apply_metadata(&mut entries, &docs);
    let options = SearchOptions::natural(SortBy::Views, SortOrder::Desc);
    assert_eq!(ids(&rank_videos(&entries, &options, 0, 10)), vec!["b", "a", "c"]);
    let options = SearchOptions::natural(SortBy::Views, SortOrder::Asc);
    assert_eq!(ids(&rank_videos(&entries, &options, 0, 10)), vec!["a", "c", "b"]);
}

#[test]
fn upload_date_and_duration_orders() {
    let mut entries = vec![entry("old", 1, 1), entry("new", 1, 1)];
    let docs = vec![metadata("old", 100, 500, 0, 0), metadata("new", 900, 20, 0, 0)];
    apply_metadata(&mut entries, &docs);
    let options = SearchOptions::natural(SortBy::UploadDate, SortOrder::Desc);
    assert_eq!(ids(&rank_videos(&entries, &options, 0, 10)), vec!["new", "old"]);
    let options = SearchOptions::natural(SortBy::Duration, SortOrder::Asc);
    assert_eq!(ids(&rank_videos(&entries, &options, 0, 10)), vec!["new", "old"]);
    let options = SearchOptions::natural(SortBy::Likes, SortOrder::Asc);
    assert_eq!(ids(&rank_videos(&entries, &options, 0, 10)), vec!["new", "old"]);
}

#[test]
fn video_ids_compare_by_code_point() {
    let entries = vec![entry("é", 1, 1), entry("z", 1, 1), entry("Z", 1, 1), entry("za", 1, 1)];
    let options = SearchOptions::natural(SortBy::Relevance, SortOrder::Asc);
    assert_eq!(ids(&rank_videos(&entries, &options, 0, 10)), vec!["Z", "z", "za", "é"]);
}
