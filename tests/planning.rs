use caption_search::duration::parse_iso8601_duration_to_seconds;
use caption_search::config::{get_app_name, get_backend_url, is_debug_mode};
use caption_search::format::{compare_with_order_int, format_duration, format_iso8601_duration, format_number};
use caption_search::options::{sort_by_from_key, sort_by_key, sort_order_from_key, sort_order_key, SearchOptions, SearchType, SortBy, SortOrder};
use caption_search::query::{build_query, MatchClause, TermOperator, TextField};
use caption_search::search::caption_highlight;
use std::cmp::Ordering;

#[test]
fn natural_plan_is_two_exact_phrases() {
    let options = SearchOptions::natural(SortBy::Relevance, SortOrder::Desc);
    assert_eq!(options.search_type, SearchType::Natural);
    assert!(options.fuzzy_distance.is_none());
    let plan = build_query("hello world", &options);
    assert_eq!(plan.clauses.len(), 2);
    match &plan.clauses[0] {
        MatchClause::Phrase(p) => {
            assert_eq!((p.field, p.query.as_str(), p.slop, p.boost_tenths), (TextField::Raw, "hello world", None, 30));
        }
        _ => panic!("expected a phrase"),
    }
    match &plan.clauses[1] {
        MatchClause::Phrase(p) => {
            assert_eq!((p.field, p.query.as_str(), p.slop, p.boost_tenths), (TextField::Stemmed, "hello world", Some(0), 10));
        }
        _ => panic!("expected a phrase"),
    }
}

#[test]
fn wide_plan_loosens_in_falling_boost() {
    let options = SearchOptions::wide(SortBy::Views, SortOrder::Asc);
    assert_eq!(options.fuzzy_distance.as_deref(), Some("AUTO"));
    let plan = build_query("star citizen", &options);
    assert_eq!(plan.clauses.len(), 6);
    let boosts: Vec<u32> = plan
        .clauses
        .iter()
        .map(|c| match c {
            MatchClause::Phrase(p) => p.boost_tenths,
            MatchClause::Terms(t) => t.boost_tenths,
        })
        .collect();
    assert_eq!(boosts, vec![40, 30, 25, 20, 15, 10]);
    match &plan.clauses[3] {
        MatchClause::Terms(t) => {
            assert_eq!(t.operator, TermOperator::And);
            assert_eq!(t.fuzziness.as_deref(), Some("AUTO"));
            assert_eq!(t.fields[0].boost_tenths, 15);
        }
        _ => panic!("expected terms"),
    }
    match &plan.clauses[5] {
        MatchClause::Terms(t) => {
            assert_eq!((t.operator, t.minimum_match_percent), (TermOperator::Or, Some(50)));
        }
        _ => panic!("expected terms"),
    }
}

#[test]
fn wide_plan_uses_the_given_fuzziness() {
    let mut options = SearchOptions::wide(SortBy::Relevance, SortOrder::Desc);
    options.fuzzy_distance = Some("2".to_string());
    let plan = build_query("q", &options);
    match &plan.clauses[5] {
        MatchClause::Terms(t) => assert_eq!(t.fuzziness.as_deref(), Some("2")),
        _ => panic!("expected terms"),
    }
    options.fuzzy_distance = None;
    let plan = build_query("q", &options);
    match &plan.clauses[3] {
        MatchClause::Terms(t) => assert_eq!(t.fuzziness.as_deref(), Some("AUTO")),
        _ => panic!("expected terms"),
    }
}

#[test]
fn highlight_settings() {
    let h = caption_highlight();
    assert_eq!((h.max_hits, h.fragments, h.fragment_size, h.boundary_max_scan, h.no_match_size), (1000, 1, 400, 50, 250));
}

#[test]
fn sort_keys_round_trip() {
    for sb in SortBy::all_variants() {
        assert_eq!(sort_by_from_key(sort_by_key(&sb)), Some(sb));
    }
    for so in [SortOrder::Asc, SortOrder::Desc] {
        assert_eq!(sort_order_from_key(sort_order_key(&so)), Some(so));
    }
    assert_eq!(sort_by_key(&SortBy::CaptionMatches), "caption_matches");
    assert_eq!(sort_by_from_key("nope"), None);
    assert_eq!(sort_order_from_key("ASC"), None);
}

#[test]
fn sort_labels() {
    assert_eq!(SortBy::UploadDate.display_name(), "Upload date");
    assert_eq!(SortBy::CaptionMatches.display_name(), "Caption matches");
    assert_eq!(SortOrder::Desc.display_name(), "Descending");
    assert_eq!(SortBy::all_variants().len(), 6);
}

#[test]
fn numbers_group_by_thousands() {
    assert_eq!(format_number(0), "0");
    assert_eq!(format_number(999), "999");
    assert_eq!(format_number(1000), "1,000");
    assert_eq!(format_number(1234567), "1,234,567");
    assert_eq!(format_number(-1234), "-1,234");
    assert_eq!(format_number(-123456), "-123,456");
    assert_eq!(format_number(i64::MIN), "-9,223,372,036,854,775,808");
    assert_eq!(format_number(-999), "-999");
}

#[test]
fn durations_as_minutes_and_seconds() {
    assert_eq!(format_duration(0), "00:00");
    assert_eq!(format_duration(125), "02:05");
    assert_eq!(format_duration(3600), "60:00");
    assert_eq!(format_duration(-1), "71582788:15");
}

#[test]
fn iso_durations() {
    assert_eq!(format_iso8601_duration("PT1H2M3S"), "01:02:03");
    assert_eq!(format_iso8601_duration("PT2M3S"), "02:03");
    assert_eq!(format_iso8601_duration("PT45S"), "00:45");
    assert_eq!(format_iso8601_duration("PT10H"), "10:00:00");
    assert_eq!(format_iso8601_duration("PTxM"), "00:00");
    assert_eq!(format_iso8601_duration(""), "00:00");
}

#[test]
fn ordered_integer_comparison() {
    assert_eq!(compare_with_order_int(1, 2, &SortOrder::Asc), Ordering::Less);
    assert_eq!(compare_with_order_int(1, 2, &SortOrder::Desc), Ordering::Greater);
    assert_eq!(compare_with_order_int(5, 5, &SortOrder::Desc), Ordering::Equal);
    assert_eq!(compare_with_order_int(i64::MAX, i64::MAX - 1, &SortOrder::Asc), Ordering::Greater);
}

#[test]
fn configuration_defaults() {
    assert_eq!(get_backend_url(None), "http://localhost:8000");
    assert_eq!(get_backend_url(Some("https://x".to_string())), "https://x");
    assert_eq!(get_app_name(None), "Paulsenik's StarCitizen Content Search");
    assert!(is_debug_mode(Some("true".to_string())));
    assert!(!is_debug_mode(Some("false".to_string())));
    assert!(!is_debug_mode(Some("yes".to_string())));
    assert!(!is_debug_mode(None));
}

#[test]
fn iso_durations_in_seconds() {
    assert_eq!(parse_iso8601_duration_to_seconds("PT1H2M3S"), 3723);
    assert_eq!(parse_iso8601_duration_to_seconds("PT90S"), 90);
    assert_eq!(parse_iso8601_duration_to_seconds("PT1.5H"), 5400);
    assert_eq!(parse_iso8601_duration_to_seconds("PT.5M"), 30);
    assert_eq!(parse_iso8601_duration_to_seconds("PT2.75S"), 2);
    assert_eq!(parse_iso8601_duration_to_seconds("PT1X2S"), 2);
    assert_eq!(parse_iso8601_duration_to_seconds("PT1.2.3S"), 0);
    assert_eq!(parse_iso8601_duration_to_seconds("PT5"), 0);
    assert_eq!(parse_iso8601_duration_to_seconds("PT"), 0);
    assert_eq!(parse_iso8601_duration_to_seconds(""), 0);
    assert_eq!(parse_iso8601_duration_to_seconds("P1D"), 0);
    assert_eq!(parse_iso8601_duration_to_seconds("1H"), 0);
    assert_eq!(parse_iso8601_duration_to_seconds("PT99999999999999999999999H"), i64::MAX);
    assert_eq!(parse_iso8601_duration_to_seconds("PT2562047788015215H"), 9223372036854774000);
    assert_eq!(parse_iso8601_duration_to_seconds("PT2562047788015216H"), i64::MAX);
}
