use caption_search::models::Caption;
use caption_search::neighbors::{neighbor_window, select_neighbors};
use caption_search::options::{SearchOptions, SortBy, SortOrder};
use caption_search::ranking::{rank_videos, VideoRankEntry};
use caption_search::search::{
    complete_result, join_neighbor_text, parse_search_result, search_response, with_context, POST_TAG, PRE_TAG,
};
use caption_search::snippet::{clean_caption_text, stitch_with_neighbors_enhanced, truncate_around_highlight};

fn caption(video: &str, text: &str, start_ms: i64, end_ms: i64) -> Caption {
    Caption { video_id: video.to_string(), text: text.to_string(), start_ms, end_ms }
}

fn count(s: &str, pat: &str) -> usize {
    s.matches(pat).count()
}

#[test]
fn cleaning_fixes_spacing() {
    assert_eq!(clean_caption_text("  hello  world , ok .  "), "hello world, ok.");
    assert_eq!(clean_caption_text("why ? now !"), "why? now!");
    assert_eq!(clean_caption_text("a   b"), "a b");
    assert_eq!(clean_caption_text("a     b  ,   c"), "a b, c");
    assert_eq!(clean_caption_text(""), "");
    assert_eq!(clean_caption_text(" \t "), "");
}

#[test]
fn cleaning_twice_changes_nothing_more() {
    for t in ["a   b", "  x  ,  y .  z ? w !  ", "one  two   three    four", " , . ! ?", "\ta \t b"] {
        let once = clean_caption_text(t);
        assert_eq!(clean_caption_text(&once), once);
        assert!(!once.contains("  "));
        assert_eq!(once, once.trim());
    }
}

#[test]
fn stitch_without_neighbors_is_the_cleaned_anchor() {
    let anchor = "  the <strong>match</strong> , here ";
    assert_eq!(stitch_with_neighbors_enhanced("", anchor, ""), clean_caption_text(anchor));
    assert_eq!(stitch_with_neighbors_enhanced("", anchor, ""), "the <strong>match</strong>, here");
}

#[test]
fn stitch_inserts_ellipses_between_open_breaks() {
    assert_eq!(stitch_with_neighbors_enhanced("hi", "<strong>x</strong>", "bye"), "hi … <strong>x</strong> … bye");
    assert_eq!(stitch_with_neighbors_enhanced("Done.", "<strong>x</strong>", ", then"), "Done. <strong>x</strong> , then");
    assert_eq!(stitch_with_neighbors_enhanced("Wait:", "a", "b"), "Wait: a … b");
    assert_eq!(stitch_with_neighbors_enhanced("   ", "a", "   "), "a");
}

#[test]
fn truncation_leaves_short_text_alone() {
    let s = "short <strong>text</strong> here";
    assert_eq!(truncate_around_highlight(s, 100, PRE_TAG, POST_TAG), s);
    let n = s.chars().count();
    assert_eq!(truncate_around_highlight(s, n, PRE_TAG, POST_TAG), s);
    assert_eq!(truncate_around_highlight("", 0, PRE_TAG, POST_TAG), "");
}

#[test]
fn truncation_keeps_small_highlight_in_long_filler() {
    let prev = "a".repeat(500);
    let next = "b".repeat(500);
    let s = format!("{}<strong>x</strong>{}", prev, next);
    let out = truncate_around_highlight(&s, 20, "<strong>", "</strong>");
    assert!(out.contains("<strong>x</strong>"));
    assert_eq!(count(&out, "<strong>"), 1);
    assert_eq!(count(&out, "</strong>"), 1);
    assert!(out.starts_with('…'));
    assert!(out.ends_with('…'));
    // 18 for the span, 21 of context on each side, and the two ellipses.
    assert_eq!(out.chars().count(), 62);
}

#[test]
fn truncation_snaps_to_sentence_and_word_boundaries() {
    let filler = "word ".repeat(100);
    let s = format!("{}First part. Some lead in <strong>hit</strong> and then more. {}", filler, filler);
    let out = truncate_around_highlight(&s, 60, PRE_TAG, POST_TAG);
    assert!(out.contains("<strong>hit</strong>"));
    assert!(out.starts_with('…'));
    assert!(out.ends_with('…'));
    assert!(out.contains("Some lead in <strong>hit</strong> and then more."));
    assert!(!out.contains("  "));
}

#[test]
fn truncation_without_highlight_cuts_the_head() {
    let s = "abcdefghij klmnopqrstuvwxyz";
    assert_eq!(truncate_around_highlight(s, 12, PRE_TAG, POST_TAG), "abcdefghij…");
    assert_eq!(truncate_around_highlight(s, 5, PRE_TAG, POST_TAG), "abc…");
    assert_eq!(truncate_around_highlight(s, 1, PRE_TAG, POST_TAG), "…");
    let open_only = format!("{}<strong>never closed", "z".repeat(50));
    assert_eq!(truncate_around_highlight(&open_only, 10, PRE_TAG, POST_TAG), "zzzzzzzz…");
}

#[test]
fn truncation_keeps_one_highlight_when_over_budget() {
    for budget in [0usize, 5, 30, 100, 400] {
        let s = format!("{} Intro. <strong>the found words</strong> outro! {}", "x y ".repeat(120), "p q. ".repeat(90));
        let out = truncate_around_highlight(&s, budget, PRE_TAG, POST_TAG);
        assert_eq!(count(&out, PRE_TAG), 1);
        assert_eq!(count(&out, POST_TAG), 1);
        assert!(out.find(PRE_TAG).unwrap() < out.find(POST_TAG).unwrap());
        assert!(out.contains("<strong>the found words</strong>"));
    }
}

#[test]
fn neighbors_around_an_exact_anchor() {
    let window = vec![
        caption("v", "one", 0, 1000),
        caption("v", "two", 1000, 2000),
        caption("v", "three", 2000, 3000),
        caption("v", "anchor", 3050, 4000),
        caption("v", "four", 4000, 5000),
    ];
    let (prev, next) = select_neighbors(&window, 3000, 4000, 2, 2);
    assert_eq!(prev.iter().map(|c| c.text.as_str()).collect::<Vec<_>>(), vec!["two", "three"]);
    assert_eq!(next.iter().map(|c| c.text.as_str()).collect::<Vec<_>>(), vec!["four"]);
}

#[test]
fn neighbors_fall_back_to_time_split() {
    let window = vec![
        caption("v", "a", 0, 1000),
        caption("v", "b", 1000, 2000),
        caption("v", "c", 2000, 2500),
        caption("v", "d", 6000, 7000),
        caption("v", "e", 7000, 8000),
        caption("v", "f", 8000, 9000),
    ];
    let (prev, next) = select_neighbors(&window, 2600, 5000, 2, 2);
    assert_eq!(prev.iter().map(|c| c.text.as_str()).collect::<Vec<_>>(), vec!["b", "c"]);
    assert_eq!(next.iter().map(|c| c.text.as_str()).collect::<Vec<_>>(), vec!["d", "e"]);
    let (prev, next) = select_neighbors(&Vec::new(), 2600, 5000, 2, 2);
    assert!(prev.is_empty() && next.is_empty());
}

#[test]
fn neighbor_window_is_at_least_thirty_seconds() {
    let w = neighbor_window(60_000, 65_000, 2, 2);
    assert_eq!((w.from_ms, w.to_ms, w.max_hits), (30_000, 95_000, 50));
    let w = neighbor_window(100_000, 101_000, 10, 10);
    assert_eq!((w.from_ms, w.to_ms, w.max_hits), (-20_000, 221_000, 63));
}

#[test]
fn neighbor_text_skips_blank_captions() {
    let cs = vec![caption("v", " hi  there ", 0, 1), caption("v", "   ", 1, 2), caption("v", "ok .", 2, 3)];
    assert_eq!(join_neighbor_text(&cs), "hi there ok.");
    assert_eq!(join_neighbor_text(&Vec::new()), "");
}

#[test]
fn hit_prefers_highlight_then_text() {
    let r = parse_search_result("v".to_string(), 1, 2, Some("<strong>a</strong>".to_string()), Some("a".to_string()));
    assert_eq!(r.snippet_html, "<strong>a</strong>");
    let r = parse_search_result("v".to_string(), 1, 2, None, Some("raw".to_string()));
    assert_eq!(r.snippet_html, "raw");
    let r = parse_search_result("v".to_string(), 1, 2, None, None);
    assert_eq!(r.snippet_html, "");
    assert_eq!((r.video_id.as_str(), r.start_ms, r.end_ms), ("v", 1, 2));
}

#[test]
fn failed_neighbor_lookup_keeps_the_anchor() {
    let r = parse_search_result("v".to_string(), 0, 1, Some("  <strong>a</strong>  ".to_string()), None);
    let kept = complete_result(r.clone(), None);
    assert_eq!(kept.snippet_html, "<strong>a</strong>");
    let blank = parse_search_result("v".to_string(), 0, 1, Some(" ".to_string()), None);
    assert_eq!(complete_result(blank, None).snippet_html, "");
    let stitched = complete_result(r, Some((Vec::new(), Vec::new())));
    assert_eq!(stitched.snippet_html, "<strong>a</strong>");
}

#[test]
fn hello_world_scenario() {
    let entries = vec![
        VideoRankEntry { video_id: "v2".to_string(), avg_score: 4, max_score: 4, match_count: 1, upload_date: 0, duration: 0, views: 0, likes: 0 },
        VideoRankEntry { video_id: "v1".to_string(), avg_score: 12, max_score: 12, match_count: 1, upload_date: 0, duration: 0, views: 0, likes: 0 },
    ];
    let options = SearchOptions::natural(SortBy::Relevance, SortOrder::Desc);
    let ranked = rank_videos(&entries, &options, 0, 10);
    assert_eq!(ranked, vec!["v1".to_string(), "v2".to_string()]);

    let hit = parse_search_result("v1".to_string(), 2000, 5000, Some("<strong>hello world</strong>".to_string()), Some("hello world".to_string()));
    let window = vec![caption("v1", "hi", 0, 2000), caption("v1", "hello world", 2000, 5000), caption("v1", "bye", 5000, 7000)];
    let (prev, next) = select_neighbors(&window, hit.start_ms, hit.end_ms, 2, 2);
    let res = with_context(hit, &prev, &next);
    assert_eq!(res.start_ms, 2000);
    assert_eq!(res.snippet_html, "hi … <strong>hello world</strong> … bye");

    let response = search_response(vec![res], 2, 5, 0, 10);
    assert_eq!((response.total_videos, response.total_captions, response.total_pages), (2, 5, 1));
    assert_eq!(response.results.len(), 1);
}

#[test]
fn empty_result_set_has_no_pages() {
    let response = search_response(Vec::new(), 0, 0, 0, 10);
    assert_eq!(response.total_pages, 0);
    assert!(response.results.is_empty());
}

#[test]
fn truncation_gives_unused_context_to_the_other_side() {
    let s = format!("<strong>x</strong>{}", "b ".repeat(300));
    let out = truncate_around_highlight(&s, 100, PRE_TAG, POST_TAG);
    assert!(out.starts_with("<strong>x</strong>"));
    assert!(out.ends_with("b…"));
    // The whole budget of 100 goes after the span, then the cut moves to the next space.
    assert_eq!(out.chars().count(), 102);
}
