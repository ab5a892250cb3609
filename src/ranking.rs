//! Video ranking: a deterministic total order over the videos that match a
//! query, and video-level pagination over that order.
use vstd::prelude::*;
use vstd::relations::{sorted_by, total_ordering};
use crate::models::VideoMetadata;
use crate::options::{SortBy, SortOrder, SearchOptions};
use crate::text::chars_of;

verus! {

broadcast use vstd::seq_lib::group_to_multiset_ensures;

/// Per-video match statistics, with the metadata that sorting may need.
///
/// Scores are carried as integer keys whose order is the order of the
/// index's (floating-point) scores.
#[derive(Clone, Debug)]
pub struct VideoRankEntry {
    pub video_id: String,
    pub avg_score: i64,
    pub max_score: i64,
    pub match_count: i64,
    pub upload_date: i64,
    pub duration: i64,
    pub views: i64,
    pub likes: i64,
}

/// A sort key compared lexicographically: primary, secondary, video id.
pub type RankKey = (int, int, Seq<char>);

/// `x` turned so that ascending order of the result is the requested order.
pub open spec fn directed(order: SortOrder, x: int) -> int {
    match order {
        SortOrder::Asc => x,
        SortOrder::Desc => -x,
    }
}

/// The field that `sort_by` names.
pub open spec fn primary_value(e: VideoRankEntry, sort_by: SortBy) -> int {
    match sort_by {
        SortBy::Relevance => e.avg_score as int,
        SortBy::UploadDate => e.upload_date as int,
        SortBy::Duration => e.duration as int,
        SortBy::Views => e.views as int,
        SortBy::Likes => e.likes as int,
        SortBy::CaptionMatches => e.match_count as int,
    }
}

/// The key of a video: the requested field in the requested direction; then
/// the average score descending (unless the field is the score itself); then
/// the video id ascending.
pub open spec fn rank_key(e: VideoRankEntry, sort_by: SortBy, order: SortOrder) -> RankKey {
    if sort_by == SortBy::Relevance {
        (directed(order, e.avg_score as int), 0, e.video_id@)
    } else {
        (directed(order, primary_value(e, sort_by)), -(e.avg_score as int), e.video_id@)
    }
}

/// Lexicographic order of character sequences by code point (the order of
/// `String`'s `Ord`).
pub open spec fn chars_leq(a: Seq<char>, b: Seq<char>) -> bool
    decreases a.len(),
{
    if a.len() == 0 {
        true
    } else if b.len() == 0 {
        false
    } else if a[0] != b[0] {
        (a[0] as int) < (b[0] as int)
    } else {
        chars_leq(a.drop_first(), b.drop_first())
    }
}

pub open spec fn key_leq(a: RankKey, b: RankKey) -> bool {
    a.0 < b.0 || (a.0 == b.0 && (a.1 < b.1 || (a.1 == b.1 && chars_leq(a.2, b.2))))
}

pub open spec fn key_order() -> spec_fn(RankKey, RankKey) -> bool {
    |a: RankKey, b: RankKey| key_leq(a, b)
}

pub open spec fn rank_keys(entries: Seq<VideoRankEntry>, sort_by: SortBy, order: SortOrder) -> Seq<
    RankKey,
> {
    entries.map_values(|e: VideoRankEntry| rank_key(e, sort_by, order))
}

/// The ids of all candidate videos, best first.
pub open spec fn ranked_ids(entries: Seq<VideoRankEntry>, sort_by: SortBy, order: SortOrder) -> Seq<
    Seq<char>,
> {
    rank_keys(entries, sort_by, order).sort_by(key_order()).map_values(|k: RankKey| k.2)
}

/// Page `page` of `s` when pages hold `size` items.
pub open spec fn page_of<A>(s: Seq<A>, page: int, size: int) -> Seq<A> {
    let start = page * size;
    if start >= s.len() {
        Seq::empty()
    } else if start + size <= s.len() {
        s.subrange(start, start + size)
    } else {
        s.subrange(start, s.len() as int)
    }
}

proof fn lemma_chars_leq_reflexive(a: Seq<char>)
    ensures
        chars_leq(a, a),
    decreases a.len(),
{
    if a.len() > 0 {
        lemma_chars_leq_reflexive(a.drop_first());
    }
}

proof fn lemma_chars_leq_antisymmetric(a: Seq<char>, b: Seq<char>)
    requires
        chars_leq(a, b),
        chars_leq(b, a),
    ensures
        a == b,
    decreases a.len(),
{
    if a.len() > 0 && b.len() > 0 {
        if a[0] == b[0] {
            lemma_chars_leq_antisymmetric(a.drop_first(), b.drop_first());
            assert(a =~= seq![a[0]] + a.drop_first());
            assert(b =~= seq![b[0]] + b.drop_first());
        }
    }
}

proof fn lemma_chars_leq_transitive(a: Seq<char>, b: Seq<char>, c: Seq<char>)
    requires
        chars_leq(a, b),
        chars_leq(b, c),
    ensures
        chars_leq(a, c),
    decreases a.len(),
{
    if a.len() > 0 && b.len() > 0 && c.len() > 0 {
        if a[0] == b[0] && b[0] == c[0] {
            lemma_chars_leq_transitive(a.drop_first(), b.drop_first(), c.drop_first());
        }
    }
}

proof fn lemma_chars_leq_connected(a: Seq<char>, b: Seq<char>)
    ensures
        chars_leq(a, b) || chars_leq(b, a),
    decreases a.len(),
{
    if a.len() > 0 && b.len() > 0 && a[0] == b[0] {
        lemma_chars_leq_connected(a.drop_first(), b.drop_first());
    }
}

/// The key order is a total order.
pub proof fn lemma_key_order_total()
    ensures
        total_ordering(key_order()),
{
    assert forall|a: RankKey| #[trigger] key_order()(a, a) by {
        lemma_chars_leq_reflexive(a.2);
    }
    assert forall|a: RankKey, b: RankKey|
        #[trigger] key_order()(a, b) && #[trigger] key_order()(b, a) implies a == b by {
        if a.0 == b.0 && a.1 == b.1 {
            lemma_chars_leq_antisymmetric(a.2, b.2);
        }
    }
    assert forall|a: RankKey, b: RankKey, c: RankKey|
        #[trigger] key_order()(a, b) && #[trigger] key_order()(b, c) implies key_order()(a, c) by {
        if a.0 == b.0 && b.0 == c.0 && a.1 == b.1 && b.1 == c.1 {
            lemma_chars_leq_transitive(a.2, b.2, c.2);
        }
    }
    assert forall|a: RankKey, b: RankKey| #[trigger] key_order()(a, b) || key_order()(b, a) by {
        lemma_chars_leq_connected(a.2, b.2);
    }
}

/// The number of pages that `total` items fill, `size` to a page; no page
/// when pages hold nothing.
pub open spec fn page_count(total: int, size: int) -> int {
    if size <= 0 {
        0
    } else if total % size == 0 {
        total / size
    } else {
        total / size + 1
    }
}

/// The pages `0 .. n` of `s`, one after another.
pub open spec fn pages_concat<A>(s: Seq<A>, size: int, n: nat) -> Seq<A>
    decreases n,
{
    if n == 0 {
        Seq::empty()
    } else {
        pages_concat(s, size, (n - 1) as nat) + page_of(s, n - 1, size)
    }
}

proof fn lemma_pages_prefix<A>(s: Seq<A>, size: int, n: nat)
    requires
        size >= 1,
    ensures
        pages_concat(s, size, n) == s.subrange(
            0,
            if n * size <= s.len() {
                n * size
            } else {
                s.len() as int
            },
        ),
    decreases n,
{
    if n == 0 {
        assert(s.subrange(0, 0) =~= Seq::<A>::empty());
    } else {
        let k = (n - 1) as nat;
        lemma_pages_prefix(s, size, k);
        assert(n * size == k * size + size) by (nonlinear_arith)
            requires
                n == k + 1,
        ;
        assert(k * size >= 0) by (nonlinear_arith)
            requires
                size >= 1,
        ;
        if k * size >= s.len() {
            assert(pages_concat(s, size, n) =~= s.subrange(0, s.len() as int));
        } else if n * size <= s.len() {
            assert(pages_concat(s, size, n) =~= s.subrange(0, n * size));
        } else {
            assert(pages_concat(s, size, n) =~= s.subrange(0, s.len() as int));
        }
    }
}

/// Reading every page of a ranking, from the first to the last that
/// `page_count` gives, yields the whole ranking once, in order.
pub proof fn lemma_pages_cover<A>(ranked: Seq<A>, page_size: int)
    requires
        page_size >= 1,
    ensures
        pages_concat(ranked, page_size, page_count(ranked.len() as int, page_size) as nat)
            == ranked,
{
    let t = ranked.len() as int;
    let n = page_count(t, page_size);
    vstd::arithmetic::div_mod::lemma_fundamental_div_mod(t, page_size);
    assert(n * page_size >= t) by (nonlinear_arith)
        requires
            t == page_size * (t / page_size) + t % page_size,
            0 <= t % page_size < page_size,
            n == if t % page_size == 0 { t / page_size } else { t / page_size + 1 },
    ;
    assert(n >= 0) by (nonlinear_arith)
        requires
            t >= 0,
            page_size >= 1,
            n == if t % page_size == 0 { t / page_size } else { t / page_size + 1 },
    ;
    lemma_pages_prefix(ranked, page_size, n as nat);
    assert(ranked.subrange(0, t) =~= ranked);
}

proof fn lemma_map_multiset<A, B>(a: Seq<A>, b: Seq<A>, f: spec_fn(A) -> B)
    requires
        a.to_multiset() == b.to_multiset(),
    ensures
        a.map_values(f).to_multiset() == b.map_values(f).to_multiset(),
    decreases a.len(),
{
    if a.len() == 0 {
        assert(b.to_multiset().len() == 0);
        assert(a.map_values(f) =~= Seq::<B>::empty());
        assert(b.map_values(f) =~= Seq::<B>::empty());
    } else {
        let x = a[0];
        assert(a.to_multiset().contains(x));
        assert(b.contains(x));
        let i = choose|i: int| 0 <= i < b.len() && b[i] == x;
        assert(a.remove(0) =~= a.drop_first());
        lemma_map_multiset(a.drop_first(), b.remove(i), f);
        assert(a.map_values(f) =~= a.drop_first().map_values(f).insert(0, f(x)));
        assert(b.map_values(f) =~= b.remove(i).map_values(f).insert(i, f(x)));
    }
}

/// Ranking depends on the set of candidates alone: the same candidates in
/// any order, as an index may return tied groups, give the same ranked ids,
/// and so the same pages.
pub proof fn lemma_rank_deterministic(
    a: Seq<VideoRankEntry>,
    b: Seq<VideoRankEntry>,
    sort_by: SortBy,
    order: SortOrder,
)
    requires
        a.to_multiset() == b.to_multiset(),
    ensures
        ranked_ids(a, sort_by, order) == ranked_ids(b, sort_by, order),
{
    let f = |e: VideoRankEntry| rank_key(e, sort_by, order);
    lemma_map_multiset(a, b, f);
    let ka = rank_keys(a, sort_by, order);
    let kb = rank_keys(b, sort_by, order);
    assert(ka == a.map_values(f));
    assert(kb == b.map_values(f));
    lemma_key_order_total();
    ka.lemma_sort_by_ensures(key_order());
    kb.lemma_sort_by_ensures(key_order());
    vstd::seq_lib::lemma_sorted_unique(ka.sort_by(key_order()), kb.sort_by(key_order()), key_order());
}

/// The ranking holds every candidate once, in key order: its keys are
/// those of the candidates, ascending.
pub proof fn lemma_ranking_orders_all_candidates(
    entries: Seq<VideoRankEntry>,
    sort_by: SortBy,
    order: SortOrder,
)
    ensures
        rank_keys(entries, sort_by, order).sort_by(key_order()).to_multiset() == rank_keys(
            entries,
            sort_by,
            order,
        ).to_multiset(),
        sorted_by(rank_keys(entries, sort_by, order).sort_by(key_order()), key_order()),
        ranked_ids(entries, sort_by, order).len() == entries.len(),
{
    lemma_key_order_total();
    let keys = rank_keys(entries, sort_by, order);
    keys.lemma_sort_by_ensures(key_order());
    assert(keys.sort_by(key_order()).len() == keys.to_multiset().len());
}

/// A candidate whose key comes strictly before another's is ranked before
/// it: both are in the ranking, and every place of the first is ahead of
/// every place of the second.
pub proof fn lemma_rank_precedence(
    entries: Seq<VideoRankEntry>,
    sort_by: SortBy,
    order: SortOrder,
    a: int,
    b: int,
)
    requires
        0 <= a < entries.len(),
        0 <= b < entries.len(),
        key_leq(rank_key(entries[a], sort_by, order), rank_key(entries[b], sort_by, order)),
        rank_key(entries[a], sort_by, order) != rank_key(entries[b], sort_by, order),
    ensures
        ({
            let ranked = rank_keys(entries, sort_by, order).sort_by(key_order());
            &&& ranked.contains(rank_key(entries[a], sort_by, order))
            &&& ranked.contains(rank_key(entries[b], sort_by, order))
            &&& forall|i: int, j: int|
                0 <= i < ranked.len() && 0 <= j < ranked.len() && ranked[i] == rank_key(
                    entries[a],
                    sort_by,
                    order,
                ) && ranked[j] == rank_key(entries[b], sort_by, order) ==> i < j
        }),
{
    let keys = rank_keys(entries, sort_by, order);
    let ranked = keys.sort_by(key_order());
    let ka = rank_key(entries[a], sort_by, order);
    let kb = rank_key(entries[b], sort_by, order);
    lemma_key_order_total();
    keys.lemma_sort_by_ensures(key_order());
    assert(keys[a] == ka);
    assert(keys[b] == kb);
    assert(keys.to_multiset().contains(ka));
    assert(keys.to_multiset().contains(kb));
    assert forall|i: int, j: int|
        0 <= i < ranked.len() && 0 <= j < ranked.len() && ranked[i] == ka && ranked[j]
            == kb implies i < j by {
        if j < i {
            assert(key_order()(ranked[j], ranked[i]));
            assert(key_order()(ka, kb));
        }
    }
}

/// Ranked by caption matches, videos with as many matches come in falling
/// average score, and at equal score in ascending video id.
pub proof fn lemma_caption_matches_tie_break(x: VideoRankEntry, y: VideoRankEntry, order: SortOrder)
    requires
        x.match_count == y.match_count,
    ensures
        key_leq(rank_key(x, SortBy::CaptionMatches, order), rank_key(y, SortBy::CaptionMatches, order))
            <==> (x.avg_score > y.avg_score || (x.avg_score == y.avg_score && chars_leq(
            x.video_id@,
            y.video_id@,
        ))),
{
}

/// Ranked by relevance in descending order, a higher average score comes
/// first.
pub proof fn lemma_relevance_desc(x: VideoRankEntry, y: VideoRankEntry)
    requires
        x.avg_score > y.avg_score,
    ensures
        key_leq(rank_key(x, SortBy::Relevance, SortOrder::Desc), rank_key(y, SortBy::Relevance, SortOrder::Desc)),
        rank_key(x, SortBy::Relevance, SortOrder::Desc) != rank_key(y, SortBy::Relevance, SortOrder::Desc),
{
}

/// The number of pages for `total_videos` videos, `page_size` to a page.
pub fn total_pages(total_videos: usize, page_size: usize) -> (r: usize)
    ensures
        r == page_count(total_videos as int, page_size as int),
{
    if page_size == 0 {
        0
    } else if total_videos % page_size == 0 {
        total_videos / page_size
    } else {
        proof {
            let t = total_videos as int;
            let d = page_size as int;
            vstd::arithmetic::div_mod::lemma_fundamental_div_mod(t, d);
            assert(t / d < usize::MAX) by (nonlinear_arith)
                requires
                    t == d * (t / d) + t % d,
                    0 < t % d,
                    d >= 1,
                    t <= usize::MAX,
            ;
        }
        total_videos / page_size + 1
    }
}

/// The metadata record of the video `id`: the last one in `docs`, if any.
pub open spec fn metadata_for(docs: Seq<VideoMetadata>, id: Seq<char>) -> Option<VideoMetadata>
    decreases docs.len(),
{
    if docs.len() == 0 {
        None
    } else if docs.last().video_id@ == id {
        Some(docs.last())
    } else {
        metadata_for(docs.drop_last(), id)
    }
}

/// `e` with the sort fields of its video's metadata, where there is any.
pub open spec fn enriched(e: VideoRankEntry, docs: Seq<VideoMetadata>) -> VideoRankEntry {
    match metadata_for(docs, e.video_id@) {
        Some(m) => VideoRankEntry {
            upload_date: m.upload_date,
            duration: m.duration,
            views: m.views,
            likes: m.likes,
            ..e
        },
        None => e,
    }
}

fn find_metadata(docs: &Vec<VideoMetadata>, id: &String) -> (r: Option<usize>)
    ensures
        match r {
            Some(j) => j < docs.len() && metadata_for(docs@, id@) == Some(docs@[j as int]),
            None => metadata_for(docs@, id@) is None,
        },
{
    let mut j: usize = docs.len();
    assert(docs@.subrange(0, j as int) =~= docs@);
    while j > 0
        invariant
            j <= docs.len(),
            metadata_for(docs@, id@) == metadata_for(docs@.subrange(0, j as int), id@),
        decreases j,
    {
        assert(docs@.subrange(0, j as int).drop_last() =~= docs@.subrange(0, j - 1));
        if docs[j - 1].video_id == *id {
            return Some(j - 1);
        }
        j = j - 1;
    }
    None
}

/// Fills the upload date, duration, views and likes of every entry from the
/// metadata of its video; an entry whose video has none stays as it is.
pub fn apply_metadata(entries: &mut Vec<VideoRankEntry>, docs: &Vec<VideoMetadata>)
    ensures
        final(entries)@ == old(entries)@.map_values(|e: VideoRankEntry| enriched(e, docs@)),
{
    let ghost start = entries@;
    let n = entries.len();
    for k in 0..n
        invariant
            n == start.len(),
            entries@.len() == n,
            forall|i: int| 0 <= i < k ==> entries@[i] == enriched(start[i], docs@),
            forall|i: int| k <= i < n ==> entries@[i] == start[i],
    {
        match find_metadata(docs, &entries[k].video_id) {
            Some(j) => {
                let e = VideoRankEntry {
                    video_id: entries[k].video_id.clone(),
                    avg_score: entries[k].avg_score,
                    max_score: entries[k].max_score,
                    match_count: entries[k].match_count,
                    upload_date: docs[j].upload_date,
                    duration: docs[j].duration,
                    views: docs[j].views,
                    likes: docs[j].likes,
                };
                entries.set(k, e);
            },
            None => {},
        }
    }
    assert(entries@ =~= start.map_values(|e: VideoRankEntry| enriched(e, docs@)));
}

/// Whether sorting by `sort_by` needs video metadata that captions lack.
pub fn needs_metadata(sort_by: SortBy) -> (r: bool)
    ensures
        r <==> (sort_by == SortBy::UploadDate || sort_by == SortBy::Duration || sort_by
            == SortBy::Views || sort_by == SortBy::Likes),
{
    match sort_by {
        SortBy::UploadDate | SortBy::Duration | SortBy::Views | SortBy::Likes => true,
        SortBy::Relevance | SortBy::CaptionMatches => false,
    }
}

/// Lexicographic comparison of two character sequences by code point.
pub fn chars_le(a: &Vec<char>, b: &Vec<char>) -> (r: bool)
    ensures
        r == chars_leq(a@, b@),
{
    let mut i: usize = 0;
    assert(a@.skip(0) =~= a@);
    assert(b@.skip(0) =~= b@);
    while i < a.len() && i < b.len()
        invariant
            i <= a.len(),
            i <= b.len(),
            chars_leq(a@, b@) == chars_leq(a@.skip(i as int), b@.skip(i as int)),
        decreases a.len() - i,
    {
        if a[i] != b[i] {
            return a[i] < b[i];
        }
        assert(a@.skip(i as int).drop_first() =~= a@.skip(i + 1));
        assert(b@.skip(i as int).drop_first() =~= b@.skip(i + 1));
        i = i + 1;
    }
    i == a.len()
}

/// A video reduced to what ordering reads.
struct RankItem {
    primary: i64,
    secondary: i64,
    chars: Vec<char>,
    id: String,
}

spec fn item_key(it: RankItem, order: SortOrder) -> RankKey {
    (directed(order, it.primary as int), -(it.secondary as int), it.chars@)
}

spec fn item_keys(items: Seq<RankItem>, order: SortOrder) -> Seq<RankKey> {
    items.map_values(|it: RankItem| item_key(it, order))
}

fn rank_item(e: &VideoRankEntry, sort_by: SortBy, order: SortOrder) -> (r: RankItem)
    ensures
        item_key(r, order) == rank_key(*e, sort_by, order),
        r.id@ == r.chars@,
{
    let primary = match sort_by {
        SortBy::Relevance => e.avg_score,
        SortBy::UploadDate => e.upload_date,
        SortBy::Duration => e.duration,
        SortBy::Views => e.views,
        SortBy::Likes => e.likes,
        SortBy::CaptionMatches => e.match_count,
    };
    let secondary = match sort_by {
        SortBy::Relevance => 0,
        _ => e.avg_score,
    };
    RankItem { primary, secondary, chars: chars_of(e.video_id.as_str()), id: e.video_id.clone() }
}

fn item_le(a: &RankItem, b: &RankItem, order: SortOrder) -> (r: bool)
    ensures
        r == key_leq(item_key(*a, order), item_key(*b, order)),
{
    if a.primary != b.primary {
        match order {
            SortOrder::Asc => a.primary < b.primary,
            SortOrder::Desc => a.primary > b.primary,
        }
    } else if a.secondary != b.secondary {
        a.secondary > b.secondary
    } else {
        chars_le(&a.chars, &b.chars)
    }
}

/// The first position at which `it` can be inserted into `sorted`, after
/// every item that does not come after it.
fn insert_position(sorted: &Vec<RankItem>, it: &RankItem, order: SortOrder) -> (p: usize)
    requires
        sorted_by(item_keys(sorted@, order), key_order()),
        total_ordering(key_order()),
    ensures
        p <= sorted.len(),
        forall|k: int| 0 <= k < p ==> key_leq(item_key(sorted@[k], order), item_key(*it, order)),
        forall|k: int|
            p <= k < sorted.len() ==> !key_leq(item_key(sorted@[k], order), item_key(*it, order)),
{
    let ghost keys = item_keys(sorted@, order);
    let ghost x = item_key(*it, order);
    let mut lo: usize = 0;
    let mut hi: usize = sorted.len();
    while lo < hi
        invariant
            lo <= hi <= sorted.len(),
            keys == item_keys(sorted@, order),
            x == item_key(*it, order),
            sorted_by(keys, key_order()),
            total_ordering(key_order()),
            forall|k: int| 0 <= k < lo ==> key_leq(#[trigger] keys[k], x),
            forall|k: int| hi <= k < sorted.len() ==> !key_leq(#[trigger] keys[k], x),
        decreases hi - lo,
    {
        let mid = lo + (hi - lo) / 2;
        assert(keys[mid as int] == item_key(sorted@[mid as int], order));
        if item_le(&sorted[mid], it, order) {
            assert forall|k: int| 0 <= k <= mid implies key_leq(#[trigger] keys[k], x) by {
                if k < mid {
                    assert(key_order()(keys[k], keys[mid as int]));
                    assert(key_order()(keys[mid as int], x));
                }
            }
            lo = mid + 1;
        } else {
            assert forall|k: int| mid <= k < sorted.len() implies !key_leq(#[trigger] keys[k], x) by {
                if k > mid {
                    assert(key_order()(keys[mid as int], keys[k]));
                    if key_order()(keys[k], x) {
                        assert(key_order()(keys[mid as int], x));
                    }
                }
            }
            hi = mid;
        }
    }
    proof {
        assert forall|k: int| 0 <= k < lo implies key_leq(item_key(sorted@[k], order), x) by {
            assert(keys[k] == item_key(sorted@[k], order));
        }
        assert forall|k: int| lo <= k < sorted.len() implies !key_leq(
            item_key(sorted@[k], order),
            x,
        ) by {
            assert(keys[k] == item_key(sorted@[k], order));
        }
    }
    lo
}

/// The candidates as items sorted by key.
fn sorted_items(entries: &Vec<VideoRankEntry>, sort_by: SortBy, order: SortOrder) -> (r: Vec<
    RankItem,
>)
    ensures
        item_keys(r@, order) == rank_keys(entries@, sort_by, order).sort_by(key_order()),
        forall|k: int| 0 <= k < r.len() ==> (#[trigger] r@[k]).id@ == r@[k].chars@,
{
    proof {
        lemma_key_order_total();
    }
    let mut sorted: Vec<RankItem> = Vec::new();
    for i in 0..entries.len()
        invariant
            total_ordering(key_order()),
            sorted_by(item_keys(sorted@, order), key_order()),
            item_keys(sorted@, order).to_multiset() == rank_keys(
                entries@.subrange(0, i as int),
                sort_by,
                order,
            ).to_multiset(),
            forall|k: int| 0 <= k < sorted.len() ==> (#[trigger] sorted@[k]).id@ == sorted@[k].chars@,
    {
        let it = rank_item(&entries[i], sort_by, order);
        let p = insert_position(&sorted, &it, order);
        let ghost old_sorted = sorted@;
        let ghost x = item_key(it, order);
        sorted.insert(p, it);
        proof {
            let old_keys = item_keys(old_sorted, order);
            let keys = item_keys(sorted@, order);
            assert(keys =~= old_keys.insert(p as int, x));
            assert(rank_keys(entries@.subrange(0, i + 1), sort_by, order) =~= rank_keys(
                entries@.subrange(0, i as int),
                sort_by,
                order,
            ).push(x));
            assert forall|a: int, b: int| 0 <= a < b < keys.len() implies #[trigger] key_order()(
                keys[a],
                keys[b],
            ) by {
                if b < p {
                    assert(key_order()(old_keys[a], old_keys[b]));
                } else if b == p {
                    assert(key_leq(old_keys[a], x));
                } else if a == p {
                    assert(!key_leq(old_keys[b - 1], x));
                    assert(key_order()(x, old_keys[b - 1]) || key_order()(old_keys[b - 1], x));
                } else if a < p {
                    assert(key_order()(old_keys[a], old_keys[b - 1]));
                } else {
                    assert(key_order()(old_keys[a - 1], old_keys[b - 1]));
                }
            }
        }
    }
    proof {
        let keys = item_keys(sorted@, order);
        let all = rank_keys(entries@, sort_by, order);
        assert(entries@.subrange(0, entries.len() as int) =~= entries@);
        all.lemma_sort_by_ensures(key_order());
        vstd::seq_lib::lemma_sorted_unique(keys, all.sort_by(key_order()), key_order());
    }
    sorted
}

/// The ids of page `page` of the candidates in rank order, `page_size` videos
/// to a page. A page past the last holds no ids.
pub fn rank_videos(
    entries: &Vec<VideoRankEntry>,
    options: &SearchOptions,
    page: usize,
    page_size: usize,
) -> (r: Vec<String>)
    ensures
        r@.map_values(|s: String| s@) == page_of(
            ranked_ids(entries@, options.sort_by, options.sort_order),
            page as int,
            page_size as int,
        ),
{
    let order = options.sort_order;
    let sorted = sorted_items(entries, options.sort_by, order);
    let ghost ids = ranked_ids(entries@, options.sort_by, order);
    proof {
        assert(ids =~= item_keys(sorted@, order).map_values(|k: RankKey| k.2));
        assert(0 <= (page as int) * (page_size as int) <= (usize::MAX as int) * (usize::MAX as int))
            by (nonlinear_arith)
            requires
                0 <= page <= usize::MAX,
                0 <= page_size <= usize::MAX,
        ;
    }
    let start: u128 = (page as u128) * (page_size as u128);
    let mut out: Vec<String> = Vec::new();
    if start >= sorted.len() as u128 {
        assert(out@.map_values(|s: String| s@) =~= page_of(ids, page as int, page_size as int));
        return out;
    }
    let end: u128 = if start + (page_size as u128) <= sorted.len() as u128 {
        start + (page_size as u128)
    } else {
        sorted.len() as u128
    };
    let first = start as usize;
    let last = end as usize;
    for i in first..last
        invariant
            first == start,
            last == end,
            first <= last <= sorted.len(),
            ids =~= item_keys(sorted@, order).map_values(|k: RankKey| k.2),
            forall|k: int| 0 <= k < sorted.len() ==> (#[trigger] sorted@[k]).id@ == sorted@[k].chars@,
            out@.map_values(|s: String| s@) =~= ids.subrange(first as int, i as int),
    {
        let id = sorted[i].id.clone();
        let ghost prev = out@;
        out.push(id);
        assert(ids[i as int] == sorted@[i as int].chars@);
        assert(out@.map_values(|s: String| s@) =~= prev.map_values(|s: String| s@).push(
            sorted@[i as int].id@,
        ));
        assert(out@.map_values(|s: String| s@) =~= ids.subrange(first as int, i + 1));
    }
    out
}

} // verus!
