//! Assembly of search results: the settings of the caption request, the
//! result of one hit, its snippet with neighbour context, and the response
//! page.
use vstd::prelude::*;
use crate::models::{Caption, SearchResponse, SearchResult};
use crate::ranking::{page_count, total_pages};
use crate::snippet::{
    clean_chars, cleaned, stitch_with_neighbors_enhanced, stitched, truncate_around_highlight,
    truncated,
};
use crate::text::{chars_of, extend_range, trim};

verus! {

/// Marks the start of a highlighted span.
pub const PRE_TAG: &'static str = "<strong>";

/// Marks the end of a highlighted span.
pub const POST_TAG: &'static str = "</strong>";

/// The character budget of a snippet with its context.
pub const MAX_COMBINED_CHARS: usize = 800;

/// Captions of context taken before a match.
pub const DEFAULT_NEIGHBORS_BEFORE: usize = 2;

/// Captions of context taken after a match.
pub const DEFAULT_NEIGHBORS_AFTER: usize = 2;

/// How the index is asked to highlight the captions of one video.
#[derive(Clone, Copy, Debug, PartialEq, Eq, Structural)]
pub struct HighlightSettings {
    /// Most hits returned for one video.
    pub max_hits: usize,
    /// Fragments per hit.
    pub fragments: usize,
    /// Characters per fragment.
    pub fragment_size: usize,
    /// How far a sentence boundary is looked for.
    pub boundary_max_scan: usize,
    /// Characters of context for a hit without a highlightable span.
    pub no_match_size: usize,
}

/// The highlighting of caption requests: one sentence-bounded fragment of
/// up to 400 characters per hit, 250 characters where nothing is
/// highlighted, up to 1000 hits per video.
pub fn caption_highlight() -> (r: HighlightSettings)
    ensures
        r == (HighlightSettings {
            max_hits: 1000,
            fragments: 1,
            fragment_size: 400,
            boundary_max_scan: 50,
            no_match_size: 250,
        }),
{
    HighlightSettings {
        max_hits: 1000,
        fragments: 1,
        fragment_size: 400,
        boundary_max_scan: 50,
        no_match_size: 250,
    }
}

/// The snippet of a hit: its first highlight fragment, else its raw text,
/// else nothing.
pub open spec fn hit_snippet(highlight: Option<Seq<char>>, text: Option<Seq<char>>) -> Seq<char> {
    match highlight {
        Some(h) => h,
        None => match text {
            Some(t) => t,
            None => Seq::empty(),
        },
    }
}

/// The result of one hit, before neighbour context is added.
pub fn parse_search_result(
    video_id: String,
    start_ms: i64,
    end_ms: i64,
    highlight: Option<String>,
    text: Option<String>,
) -> (r: SearchResult)
    ensures
        r.video_id == video_id,
        r.start_ms == start_ms,
        r.end_ms == end_ms,
        r.snippet_html@ == hit_snippet(
            match highlight {
                Some(h) => Some(h@),
                None => None,
            },
            match text {
                Some(t) => Some(t@),
                None => None,
            },
        ),
{
    let snippet_html = match highlight {
        Some(h) => h,
        None => match text {
            Some(t) => t,
            None => String::new(),
        },
    };
    SearchResult { video_id, start_ms, end_ms, snippet_html }
}

/// The cleaned texts of the non-blank captions of `cs`, joined by single
/// spaces.
pub open spec fn neighbor_text(cs: Seq<Caption>) -> Seq<char>
    decreases cs.len(),
{
    if cs.len() == 0 {
        Seq::empty()
    } else {
        let rest = neighbor_text(cs.drop_last());
        let c = cleaned(cs.last().text@);
        if trim(c).len() == 0 {
            rest
        } else if rest.len() == 0 {
            c
        } else {
            rest + seq![' '] + c
        }
    }
}

/// The text of a run of neighbouring captions.
pub fn join_neighbor_text(captions: &Vec<Caption>) -> (r: String)
    ensures
        r@ == neighbor_text(captions@),
{
    let mut out: Vec<char> = Vec::new();
    for i in 0..captions.len()
        invariant
            out@ == neighbor_text(captions@.take(i as int)),
    {
        assert(captions@.take(i + 1).drop_last() =~= captions@.take(i as int));
        let c = clean_chars(&chars_of(captions[i].text.as_str()));
        let t = crate::text::trimmed_range(&c, 0, c.len());
        assert(c@.subrange(0, c.len() as int) =~= c@);
        if t.len() > 0 {
            if out.len() > 0 {
                out.push(' ');
            }
            extend_range(&mut out, &c, 0, c.len());
        }
        assert(out@ =~= neighbor_text(captions@.take(i + 1)));
    }
    assert(captions@.take(captions.len() as int) =~= captions@);
    crate::text::string_of(&out)
}

/// The snippet of an anchor with its neighbours' text around it, cut to the
/// budget around the highlight.
pub open spec fn snippet_in_context(anchor: Seq<char>, prev: Seq<Caption>, next: Seq<Caption>) -> Seq<
    char,
> {
    truncated(
        stitched(neighbor_text(prev), anchor, neighbor_text(next)),
        MAX_COMBINED_CHARS as int,
        PRE_TAG@,
        POST_TAG@,
    )
}

/// `res` with its snippet stitched between its neighbours' text and cut to
/// the budget.
pub fn with_context(res: SearchResult, prev: &Vec<Caption>, next: &Vec<Caption>) -> (r:
    SearchResult)
    ensures
        r.video_id == res.video_id,
        r.start_ms == res.start_ms,
        r.end_ms == res.end_ms,
        r.snippet_html@ == snippet_in_context(res.snippet_html@, prev@, next@),
{
    let prev_text = join_neighbor_text(prev);
    let next_text = join_neighbor_text(next);
    let combined = stitch_with_neighbors_enhanced(
        prev_text.as_str(),
        res.snippet_html.as_str(),
        next_text.as_str(),
    );
    let snippet_html = truncate_around_highlight(
        combined.as_str(),
        MAX_COMBINED_CHARS,
        PRE_TAG,
        POST_TAG,
    );
    SearchResult { video_id: res.video_id, start_ms: res.start_ms, end_ms: res.end_ms, snippet_html }
}

/// `res` once its neighbours were looked for: stitched with their text
/// where they came, and where the lookup failed stitched with no neighbour
/// at all, so its own anchor text is kept, cleaned and cut to the budget.
pub fn complete_result(res: SearchResult, neighbors: Option<(Vec<Caption>, Vec<Caption>)>) -> (r:
    SearchResult)
    ensures
        r.video_id == res.video_id,
        r.start_ms == res.start_ms,
        r.end_ms == res.end_ms,
        r.snippet_html@ == match neighbors {
            Some(n) => snippet_in_context(res.snippet_html@, n.0@, n.1@),
            None => snippet_in_context(res.snippet_html@, Seq::empty(), Seq::empty()),
        },
{
    match neighbors {
        Some((prev, next)) => with_context(res, &prev, &next),
        None => {
            let none: Vec<Caption> = Vec::new();
            with_context(res, &none, &none)
        },
    }
}

/// A page of results with the totals over all pages.
pub fn search_response(
    results: Vec<SearchResult>,
    total_videos: usize,
    total_captions: usize,
    page: usize,
    page_size: usize,
) -> (r: SearchResponse)
    ensures
        r.results == results,
        r.total_videos == total_videos,
        r.total_captions == total_captions,
        r.page == page,
        r.page_size == page_size,
        r.total_pages == page_count(total_videos as int, page_size as int),
{
    let pages = total_pages(total_videos, page_size);
    SearchResponse { results, total_videos, total_captions, page, page_size, total_pages: pages }
}

} // verus!
