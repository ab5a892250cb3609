//! Snippet assembly: cleaning caption text, stitching an anchor between its
//! neighbours, and truncating the result to a character budget around the
//! highlighted span.
use vstd::prelude::*;
use crate::text::{
    chars_of, extend_range, is_white_space, occurs_at, replace_all, string_of, trim, trim_bounds,
    trim_end, trim_ends, trim_start, trimmed_range,
};

verus! {

/// Whether `t` occurs in `s` at `i`.
pub fn matches_at(s: &Vec<char>, t: &Vec<char>, i: usize) -> (r: bool)
    ensures
        r == occurs_at(s@, t@, i as int),
{
    if i > s.len() || t.len() > s.len() - i {
        return false;
    }
    let mut k: usize = 0;
    while k < t.len()
        invariant
            i + t.len() <= s.len(),
            k <= t.len(),
            forall|j: int| 0 <= j < k ==> s@[i + j] == t@[j],
        decreases t.len() - k,
    {
        if s[i + k] != t[k] {
            assert(s@.subrange(i as int, i + t.len())[k as int] != t@[k as int]);
            return false;
        }
        k = k + 1;
    }
    assert(s@.subrange(i as int, i + t.len()) =~= t@);
    true
}

/// The first position at or after `i` at which `t` occurs in `s`.
pub open spec fn find_from(s: Seq<char>, t: Seq<char>, i: int) -> Option<int>
    decreases s.len() + 1 - i,
{
    if i < 0 || i + t.len() > s.len() {
        None
    } else if occurs_at(s, t, i) {
        Some(i)
    } else {
        find_from(s, t, i + 1)
    }
}

proof fn lemma_find_from(s: Seq<char>, t: Seq<char>, i: int)
    requires
        i >= 0,
    ensures
        match find_from(s, t, i) {
            Some(p) => i <= p && occurs_at(s, t, p) && forall|j: int|
                i <= j < p ==> !occurs_at(s, t, j),
            None => forall|j: int| i <= j ==> !occurs_at(s, t, j),
        },
    decreases s.len() + 1 - i,
{
    if i + t.len() <= s.len() && !occurs_at(s, t, i) {
        lemma_find_from(s, t, i + 1);
    }
}

/// The first position at or after `from` at which `t` occurs in `s`.
pub fn find_chars(s: &Vec<char>, t: &Vec<char>, from: usize) -> (r: Option<usize>)
    ensures
        match r {
            Some(p) => find_from(s@, t@, from as int) == Some(p as int),
            None => find_from(s@, t@, from as int) is None,
        },
{
    if t.len() == 0 {
        if from <= s.len() {
            assert(s@.subrange(from as int, from as int) =~= t@);
            return Some(from);
        }
        return None;
    }
    let mut i: usize = from;
    while i < s.len() && t.len() <= s.len() - i
        invariant
            from <= i,
            t.len() > 0,
            find_from(s@, t@, from as int) == find_from(s@, t@, i as int),
        decreases s.len() - i,
    {
        if matches_at(s, t, i) {
            return Some(i);
        }
        i = i + 1;
    }
    None
}

/// `s` with each occurrence of `pat` replaced by `rep`, left to right.
pub fn replace_chars(s: &Vec<char>, pat: &Vec<char>, rep: &Vec<char>) -> (r: Vec<char>)
    requires
        pat.len() > 0,
    ensures
        r@ == replace_all(s@, pat@, rep@),
{
    let mut out: Vec<char> = Vec::new();
    let mut i: usize = 0;
    assert(s@.skip(0) =~= s@);
    while i < s.len()
        invariant
            i <= s.len(),
            pat.len() > 0,
            out@ + replace_all(s@.skip(i as int), pat@, rep@) == replace_all(s@, pat@, rep@),
        decreases s.len() - i,
    {
        let ghost rest = s@.skip(i as int);
        if matches_at(s, pat, i) {
            assert(rest.subrange(0, pat.len() as int) =~= s@.subrange(i as int, i + pat.len()));
            assert(rest.skip(pat.len() as int) =~= s@.skip(i + pat.len()));
            let ghost before = out@;
            extend_range(&mut out, rep, 0, rep.len());
            assert(rep@.subrange(0, rep.len() as int) =~= rep@);
            assert(out@ + replace_all(s@.skip(i + pat.len()), pat@, rep@) =~= before
                + replace_all(rest, pat@, rep@));
            i = i + pat.len();
        } else {
            assert(!occurs_at(rest, pat@, 0)) by {
                if occurs_at(rest, pat@, 0) {
                    assert(rest.subrange(0, pat.len() as int) =~= s@.subrange(
                        i as int,
                        i + pat.len(),
                    ));
                }
            }
            assert(rest.drop_first() =~= s@.skip(i + 1));
            let ghost before = out@;
            out.push(s[i]);
            assert(out@ + replace_all(s@.skip(i + 1), pat@, rep@) =~= before + replace_all(
                rest,
                pat@,
                rep@,
            ));
            i = i + 1;
        }
    }
    assert(s@.skip(s.len() as int) =~= Seq::<char>::empty());
    assert(out@ + Seq::<char>::empty() =~= out@);
    out
}

/// `s` with each run of spaces shortened to a single space.
pub open spec fn collapse_spaces(s: Seq<char>) -> Seq<char>
    decreases s.len(),
{
    if s.len() == 0 {
        s
    } else {
        let r = collapse_spaces(s.drop_last());
        if s.last() == ' ' && r.len() > 0 && r.last() == ' ' {
            r
        } else {
            r.push(s.last())
        }
    }
}

/// Whether no two spaces stand next to each other in `s`.
pub open spec fn no_double_space(s: Seq<char>) -> bool {
    forall|i: int| 0 <= i && i + 1 < s.len() ==> !(#[trigger] s[i] == ' ' && s[i + 1] == ' ')
}

/// Caption text tidied for display: trimmed, each run of spaces collapsed
/// to one space, and no space before `,` `.` `?` `!`.
pub open spec fn cleaned(t: Seq<char>) -> Seq<char> {
    let a = collapse_spaces(trim(t));
    let b = replace_all(a, seq![' ', ','], seq![',']);
    let c = replace_all(b, seq![' ', '.'], seq!['.']);
    let d = replace_all(c, seq![' ', '?'], seq!['?']);
    replace_all(d, seq![' ', '!'], seq!['!'])
}

fn space_before(c: char) -> (r: Vec<char>)
    ensures
        r@ == seq![' ', c],
{
    let mut v: Vec<char> = Vec::new();
    v.push(' ');
    v.push(c);
    assert(v@ =~= seq![' ', c]);
    v
}

fn single(c: char) -> (r: Vec<char>)
    ensures
        r@ == seq![c],
{
    let mut v: Vec<char> = Vec::new();
    v.push(c);
    assert(v@ =~= seq![c]);
    v
}

proof fn lemma_collapse_no_double(s: Seq<char>)
    ensures
        no_double_space(collapse_spaces(s)),
    decreases s.len(),
{
    if s.len() > 0 {
        lemma_collapse_no_double(s.drop_last());
        let r = collapse_spaces(s.drop_last());
        let out = collapse_spaces(s);
        assert forall|i: int| 0 <= i && i + 1 < out.len() implies !(#[trigger] out[i] == ' ' && out[
            i + 1
        ] == ' ') by {
            if i + 1 < r.len() {
                assert(out[i] == r[i] && out[i + 1] == r[i + 1]);
            }
        }
    }
}

/// Taking out the space before `c` (not itself a space) keeps a text free of
/// double spaces; the result starts with the text's first character or `c`.
proof fn lemma_unspace_keeps_single(s: Seq<char>, c: char)
    requires
        c != ' ',
        no_double_space(s),
    ensures
        no_double_space(replace_all(s, seq![' ', c], seq![c])),
        replace_all(s, seq![' ', c], seq![c]).len() > 0 ==> s.len() > 0 && (replace_all(
            s,
            seq![' ', c],
            seq![c],
        )[0] == s[0] || replace_all(s, seq![' ', c], seq![c])[0] == c),
    decreases s.len(),
{
    let pat = seq![' ', c];
    let rep = seq![c];
    if s.len() > 0 {
        let out = replace_all(s, pat, rep);
        if occurs_at(s, pat, 0) {
            let rest = s.skip(2);
            assert forall|i: int| 0 <= i && i + 1 < rest.len() implies !(#[trigger] rest[i] == ' '
                && rest[i + 1] == ' ') by {
                assert(rest[i] == s[i + 2] && rest[i + 1] == s[i + 3]);
            }
            lemma_unspace_keeps_single(rest, c);
            let r = replace_all(rest, pat, rep);
            assert(out == rep + r);
            assert forall|i: int| 0 <= i && i + 1 < out.len() implies !(#[trigger] out[i] == ' '
                && out[i + 1] == ' ') by {
                if i > 0 {
                    assert(out[i] == r[i - 1] && out[i + 1] == r[i]);
                }
            }
            assert(out[0] == c);
        } else {
            let rest = s.drop_first();
            assert forall|i: int| 0 <= i && i + 1 < rest.len() implies !(#[trigger] rest[i] == ' '
                && rest[i + 1] == ' ') by {
                assert(rest[i] == s[i + 1] && rest[i + 1] == s[i + 2]);
            }
            lemma_unspace_keeps_single(rest, c);
            let r = replace_all(rest, pat, rep);
            assert(out == seq![s[0]] + r);
            assert forall|i: int| 0 <= i && i + 1 < out.len() implies !(#[trigger] out[i] == ' '
                && out[i + 1] == ' ') by {
                if i > 0 {
                    assert(out[i] == r[i - 1] && out[i + 1] == r[i]);
                } else if s[0] == ' ' && r.len() > 0 {
                    assert(out[1] == r[0]);
                    assert(s[1] != ' ');
                }
            }
            assert(out[0] == s[0]);
        }
    }
}

/// Cleaned text never holds two spaces in a row.
pub proof fn lemma_cleaned_single_spaced(t: Seq<char>)
    ensures
        no_double_space(cleaned(t)),
{
    let a = collapse_spaces(trim(t));
    lemma_collapse_no_double(trim(t));
    lemma_unspace_keeps_single(a, ',');
    let b = replace_all(a, seq![' ', ','], seq![',']);
    lemma_unspace_keeps_single(b, '.');
    let c = replace_all(b, seq![' ', '.'], seq!['.']);
    lemma_unspace_keeps_single(c, '?');
    let d = replace_all(c, seq![' ', '?'], seq!['?']);
    lemma_unspace_keeps_single(d, '!');
}

/// `s` with each run of spaces shortened to a single space.
fn collapse_chars(s: &Vec<char>) -> (r: Vec<char>)
    ensures
        r@ == collapse_spaces(s@),
{
    let mut out: Vec<char> = Vec::new();
    for i in 0..s.len()
        invariant
            out@ == collapse_spaces(s@.take(i as int)),
    {
        assert(s@.take(i + 1).drop_last() =~= s@.take(i as int));
        let c = s[i];
        if !(c == ' ' && out.len() > 0 && out[out.len() - 1] == ' ') {
            out.push(c);
        }
    }
    assert(s@.take(s.len() as int) =~= s@);
    out
}

pub(crate) fn clean_chars(t: &Vec<char>) -> (r: Vec<char>)
    ensures
        r@ == cleaned(t@),
{
    let trimmed = trimmed_range(t, 0, t.len());
    assert(t@.subrange(0, t.len() as int) =~= t@);
    let a = collapse_chars(&trimmed);
    let b = replace_chars(&a, &space_before(','), &single(','));
    let c = replace_chars(&b, &space_before('.'), &single('.'));
    let d = replace_chars(&c, &space_before('?'), &single('?'));
    replace_chars(&d, &space_before('!'), &single('!'))
}

/// Caption text tidied for display (see `cleaned`).
pub fn clean_caption_text(text: &str) -> (r: String)
    ensures
        r@ == cleaned(text@),
{
    string_of(&clean_chars(&chars_of(text)))
}

/// Punctuation that ends a sentence, after which no ellipsis is needed.
pub open spec fn closes_sentence(c: char) -> bool {
    c == '.' || c == '!' || c == '?' || c == ':'
}

/// Punctuation that a continuation may start with, before which no
/// ellipsis is needed.
pub open spec fn opens_with_punctuation(c: char) -> bool {
    c == '.' || c == ',' || c == '!' || c == '?' || c == ':'
}

/// The anchor between its cleaned neighbours, joined by single spaces; an
/// empty neighbour is left out, and an ellipsis stands between a neighbour
/// and the anchor unless punctuation already marks the break there.
pub open spec fn stitched(prev: Seq<char>, anchor: Seq<char>, next: Seq<char>) -> Seq<char> {
    let p = cleaned(prev);
    let a = cleaned(anchor);
    let q = cleaned(next);
    let left = if p.len() == 0 {
        a
    } else if closes_sentence(p.last()) {
        p + seq![' '] + a
    } else {
        p + seq![' ', '…', ' '] + a
    };
    if q.len() == 0 {
        left
    } else if opens_with_punctuation(q[0]) {
        left + seq![' '] + q
    } else {
        left + seq![' ', '…', ' '] + q
    }
}

fn push_all(out: &mut Vec<char>, s: &Vec<char>)
    ensures
        final(out)@ == old(out)@ + s@,
{
    extend_range(out, s, 0, s.len());
    assert(s@.subrange(0, s.len() as int) =~= s@);
}

/// Stitches the anchor's highlighted text between the text of its
/// preceding and following neighbours.
pub fn stitch_with_neighbors_enhanced(prev: &str, anchor_html: &str, next: &str) -> (r: String)
    ensures
        r@ == stitched(prev@, anchor_html@, next@),
{
    let p = clean_chars(&chars_of(prev));
    let a = clean_chars(&chars_of(anchor_html));
    let q = clean_chars(&chars_of(next));
    let mut out: Vec<char> = Vec::new();
    if p.len() > 0 {
        push_all(&mut out, &p);
        let c = p[p.len() - 1];
        if c == '.' || c == '!' || c == '?' || c == ':' {
            out.push(' ');
        } else {
            out.push(' ');
            out.push('…');
            out.push(' ');
        }
    }
    push_all(&mut out, &a);
    if q.len() > 0 {
        let c = q[0];
        if c == '.' || c == ',' || c == '!' || c == '?' || c == ':' {
            out.push(' ');
        } else {
            out.push(' ');
            out.push('…');
            out.push(' ');
        }
        push_all(&mut out, &q);
    }
    assert(out@ =~= stitched(prev@, anchor_html@, next@));
    string_of(&out)
}

/// With no neighbour on either side, stitching gives the cleaned anchor and
/// nothing else.
pub proof fn lemma_stitch_alone(anchor: Seq<char>)
    ensures
        stitched(Seq::empty(), anchor, Seq::empty()) == cleaned(anchor),
{
    lemma_cleaned_empty();
}

pub open spec fn min_int(a: int, b: int) -> int {
    if a <= b {
        a
    } else {
        b
    }
}

pub open spec fn max_int(a: int, b: int) -> int {
    if a >= b {
        a
    } else {
        b
    }
}

/// The first `pre`..`post` pair of `s`, as the positions where the pair
/// starts and where it ends.
pub open spec fn highlight_span(s: Seq<char>, pre: Seq<char>, post: Seq<char>) -> Option<
    (int, int),
> {
    match find_from(s, pre, 0) {
        Some(ps) => match find_from(s, post, ps + pre.len()) {
            Some(qs) => Some((ps, qs + post.len())),
            None => None,
        },
        None => None,
    }
}

/// Where context around the span `hs..he` of a text of `n` characters is cut
/// for a budget of `max`: what the span leaves of the budget is split in
/// half, each half widened by 20 characters and bounded by the text; when
/// that falls short of the budget, the rest is shared out evenly, a side
/// with too little text left handing its share to the other, until the
/// budget or the text runs out.
pub open spec fn context_cut(n: int, max: int, hs: int, he: int) -> (int, int) {
    let hl = he - hs;
    let side = (if max > hl {
        max - hl
    } else {
        0
    }) / 2;
    let prefix_take = min_int(side + 20, hs);
    let suffix_take = min_int(side + 20, n - he);
    if prefix_take + hl + suffix_take < max {
        let rest = max - (prefix_take + hl + suffix_take);
        let room_before = hs - prefix_take;
        let room_after = n - he - suffix_take;
        let grow_after = min_int(room_after, rest - min_int(room_before, rest / 2));
        let grow_before = min_int(room_before, rest - grow_after);
        (hs - (prefix_take + grow_before), he + suffix_take + grow_after)
    } else {
        (hs - prefix_take, he + suffix_take)
    }
}

/// A sentence end (`.` `!` `?`), or else a space.
pub open spec fn is_break(c: char, sentence: bool) -> bool {
    if sentence {
        c == '.' || c == '!' || c == '?'
    } else {
        c == ' '
    }
}

/// The largest cut position `p` in `lo..=hi` right after a break.
pub open spec fn last_break_cut(s: Seq<char>, lo: int, hi: int, sentence: bool) -> Option<int>
    decreases hi - lo + 1,
{
    if hi < lo || hi < 1 || hi > s.len() {
        None
    } else if is_break(s[hi - 1], sentence) {
        Some(hi)
    } else {
        last_break_cut(s, lo, hi - 1, sentence)
    }
}

/// The smallest index in `lo..=hi` that holds a break.
pub open spec fn first_break(s: Seq<char>, lo: int, hi: int, sentence: bool) -> Option<int>
    decreases hi - lo + 1,
{
    if hi < lo || lo < 0 || lo >= s.len() {
        None
    } else if is_break(s[lo], sentence) {
        Some(lo)
    } else {
        first_break(s, lo + 1, hi, sentence)
    }
}

/// The start cut moved back to just after a sentence end within 30
/// characters, or else just after a space within 20, never past the start
/// of the highlight `hs`.
pub open spec fn snapped_start(s: Seq<char>, start: int, hs: int) -> int {
    if start <= 0 {
        start
    } else {
        let hi = min_int(start + 1, hs);
        match last_break_cut(s, max_int(1, start - 29), hi, true) {
            Some(p) => p,
            None => match last_break_cut(s, max_int(1, start - 19), hi, false) {
                Some(p) => p,
                None => start,
            },
        }
    }
}

/// The end cut moved forward to just after a sentence end within 30
/// characters, or else to a space within 20.
pub open spec fn snapped_end(s: Seq<char>, end: int) -> int {
    if end >= s.len() {
        end
    } else {
        match first_break(s, end, min_int(end + 30, s.len() - 1), true) {
            Some(i) => i + 1,
            None => match first_break(s, end, min_int(end + 20, s.len() - 1), false) {
                Some(i) => i,
                None => end,
            },
        }
    }
}

/// `s` cut to about `max` characters around its first highlighted span,
/// with an ellipsis on each side that was cut; without a span, its first
/// `max - 2` characters and an ellipsis. A text within budget stays whole.
#[verifier::opaque]
pub open spec fn truncated(s: Seq<char>, max: int, pre: Seq<char>, post: Seq<char>) -> Seq<char> {
    if s.len() <= max {
        s
    } else {
        match highlight_span(s, pre, post) {
            Some(span) => {
                let cut = context_cut(s.len() as int, max, span.0, span.1);
                let a = snapped_start(s, cut.0, span.0);
                let b = snapped_end(s, cut.1);
                let head = if a > 0 {
                    seq!['…']
                } else {
                    Seq::empty()
                };
                let tail = if b < s.len() {
                    seq!['…']
                } else {
                    Seq::empty()
                };
                head + trim_ends(s.subrange(a, b), a > 0, b < s.len()) + tail
            },
            None => trim_end(
                s.take(
                    if max >= 2 {
                        max - 2
                    } else {
                        0
                    },
                ),
            ) + seq!['…'],
        }
    }
}

fn context_cut_exec(n: usize, max: usize, hs: usize, he: usize) -> (r: (usize, usize))
    requires
        hs <= he <= n,
    ensures
        r.0 as int == context_cut(n as int, max as int, hs as int, he as int).0,
        r.1 as int == context_cut(n as int, max as int, hs as int, he as int).1,
        r.0 <= hs,
        he <= r.1 <= n,
{
    let hl = he - hs;
    let side = (if max > hl {
        max - hl
    } else {
        0
    }) / 2;
    let prefix_take = if side + 20 <= hs {
        side + 20
    } else {
        hs
    };
    let suffix_take = if side + 20 <= n - he {
        side + 20
    } else {
        n - he
    };
    if prefix_take + hl + suffix_take < max {
        let rest = max - (prefix_take + hl + suffix_take);
        let room_before = hs - prefix_take;
        let room_after = n - he - suffix_take;
        let even = if room_before <= rest / 2 {
            room_before
        } else {
            rest / 2
        };
        let grow_after = if room_after <= rest - even {
            room_after
        } else {
            rest - even
        };
        let grow_before = if room_before <= rest - grow_after {
            room_before
        } else {
            rest - grow_after
        };
        (hs - (prefix_take + grow_before), he + suffix_take + grow_after)
    } else {
        (hs - prefix_take, he + suffix_take)
    }
}

fn break_at(c: char, sentence: bool) -> (r: bool)
    ensures
        r == is_break(c, sentence),
{
    if sentence {
        c == '.' || c == '!' || c == '?'
    } else {
        c == ' '
    }
}

fn last_break_cut_exec(s: &Vec<char>, lo: usize, hi: usize, sentence: bool) -> (r: Option<usize>)
    requires
        1 <= lo,
        hi <= s.len(),
    ensures
        match r {
            Some(p) => last_break_cut(s@, lo as int, hi as int, sentence) == Some(p as int),
            None => last_break_cut(s@, lo as int, hi as int, sentence) is None,
        },
{
    let mut p = hi;
    while p >= lo
        invariant
            1 <= lo,
            p <= hi <= s.len(),
            last_break_cut(s@, lo as int, hi as int, sentence) == last_break_cut(
                s@,
                lo as int,
                p as int,
                sentence,
            ),
        decreases p,
    {
        if break_at(s[p - 1], sentence) {
            return Some(p);
        }
        p = p - 1;
    }
    None
}

fn first_break_exec(s: &Vec<char>, lo: usize, hi: usize, sentence: bool) -> (r: Option<usize>)
    requires
        hi < s.len(),
    ensures
        match r {
            Some(i) => first_break(s@, lo as int, hi as int, sentence) == Some(i as int),
            None => first_break(s@, lo as int, hi as int, sentence) is None,
        },
{
    let mut i = lo;
    while i <= hi
        invariant
            hi < s.len(),
            lo <= i,
            first_break(s@, lo as int, hi as int, sentence) == first_break(
                s@,
                i as int,
                hi as int,
                sentence,
            ),
        decreases hi + 1 - i,
    {
        if break_at(s[i], sentence) {
            return Some(i);
        }
        i = i + 1;
    }
    None
}

fn snapped_start_exec(s: &Vec<char>, start: usize, hs: usize) -> (r: usize)
    requires
        start <= hs <= s.len(),
    ensures
        r == snapped_start(s@, start as int, hs as int),
        r <= hs,
{
    if start == 0 {
        return 0;
    }
    let hi = if start < hs {
        start + 1
    } else {
        hs
    };
    let lo_sentence = if start > 29 {
        start - 29
    } else {
        1
    };
    match last_break_cut_exec(s, lo_sentence, hi, true) {
        Some(p) => {
            proof {
                lemma_last_break_cut_range(s@, lo_sentence as int, hi as int, true);
            }
            p
        },
        None => {
            let lo_word = if start > 19 {
                start - 19
            } else {
                1
            };
            match last_break_cut_exec(s, lo_word, hi, false) {
                Some(p) => {
                    proof {
                        lemma_last_break_cut_range(s@, lo_word as int, hi as int, false);
                    }
                    p
                },
                None => start,
            }
        },
    }
}

proof fn lemma_last_break_cut_range(s: Seq<char>, lo: int, hi: int, sentence: bool)
    ensures
        last_break_cut(s, lo, hi, sentence) matches Some(p) ==> lo <= p <= hi,
    decreases hi - lo + 1,
{
    if !(hi < lo || hi < 1 || hi > s.len()) && !is_break(s[hi - 1], sentence) {
        lemma_last_break_cut_range(s, lo, hi - 1, sentence);
    }
}

proof fn lemma_first_break_range(s: Seq<char>, lo: int, hi: int, sentence: bool)
    ensures
        first_break(s, lo, hi, sentence) matches Some(i) ==> lo <= i <= hi && i < s.len(),
    decreases hi - lo + 1,
{
    if !(hi < lo || lo < 0 || lo >= s.len()) && !is_break(s[lo], sentence) {
        lemma_first_break_range(s, lo + 1, hi, sentence);
    }
}

fn snapped_end_exec(s: &Vec<char>, end: usize) -> (r: usize)
    requires
        end <= s.len(),
    ensures
        r == snapped_end(s@, end as int),
        end <= r <= s.len(),
{
    if end >= s.len() {
        return end;
    }
    let last = s.len() - 1;
    let hi_sentence = if last - end >= 30 {
        end + 30
    } else {
        last
    };
    match first_break_exec(s, end, hi_sentence, true) {
        Some(i) => {
            proof {
                lemma_first_break_range(s@, end as int, hi_sentence as int, true);
            }
            i + 1
        },
        None => {
            let hi_word = if last - end >= 20 {
                end + 20
            } else {
                last
            };
            match first_break_exec(s, end, hi_word, false) {
                Some(i) => {
                    proof {
                        lemma_first_break_range(s@, end as int, hi_word as int, false);
                    }
                    i
                },
                None => end,
            }
        },
    }
}

/// Cuts `s` to about `max_chars` characters around its first
/// `pre_tag`..`post_tag` span, keeping the span whole, preferring sentence
/// and then word boundaries for the cuts, and marking each cut side with an
/// ellipsis.
pub fn truncate_around_highlight(s: &str, max_chars: usize, pre_tag: &str, post_tag: &str) -> (r:
    String)
    ensures
        r@ == truncated(s@, max_chars as int, pre_tag@, post_tag@),
{
    let cs = chars_of(s);
    let n = cs.len();
    if n <= max_chars {
        proof {
            reveal(truncated);
        }
        return string_of(&cs);
    }
    let pre = chars_of(pre_tag);
    let post = chars_of(post_tag);
    let mut span: Option<(usize, usize)> = None;
    match find_chars(&cs, &pre, 0) {
        Some(ps) => {
            proof {
                lemma_find_from(cs@, pre@, 0);
            }
            match find_chars(&cs, &post, ps + pre.len()) {
                Some(qs) => {
                    proof {
                        lemma_find_from(cs@, post@, ps + pre.len());
                    }
                    span = Some((ps, qs + post.len()));
                },
                None => {},
            }
        },
        None => {},
    }
    assert(span matches Some(sp) ==> highlight_span(cs@, pre@, post@) == Some(
        (sp.0 as int, sp.1 as int),
    ) && sp.0 <= sp.1 <= n);
    assert(span is None ==> highlight_span(cs@, pre@, post@) is None);
    let mut out: Vec<char> = Vec::new();
    match span {
        Some((hs, he)) => {
            let (start, end) = context_cut_exec(n, max_chars, hs, he);
            let a = snapped_start_exec(&cs, start, hs);
            let b = snapped_end_exec(&cs, end);
            let (x, y) = trim_bounds(&cs, a, b, a > 0, b < n);
            if a > 0 {
                out.push('…');
            }
            extend_range(&mut out, &cs, x, y);
            if b < n {
                out.push('…');
            }
        },
        None => {
            let k = if max_chars >= 2 {
                max_chars - 2
            } else {
                0
            };
            let (x, y) = trim_bounds(&cs, 0, k, false, true);
            assert(cs@.take(k as int) =~= cs@.subrange(0, k as int));
            extend_range(&mut out, &cs, x, y);
            out.push('…');
        },
    }
    proof {
        reveal(truncated);
    }
    assert(out@ =~= truncated(s@, max_chars as int, pre_tag@, post_tag@));
    string_of(&out)
}

/// A text within budget comes back unchanged.
pub proof fn lemma_truncate_within_budget(s: Seq<char>, max: int, pre: Seq<char>, post: Seq<char>)
    requires
        s.len() <= max,
    ensures
        truncated(s, max, pre, post) == s,
{
    reveal(truncated);
}

/// Whether `t` occurs in `s` at `i` and nowhere else.
pub open spec fn occurs_only_at(s: Seq<char>, t: Seq<char>, i: int) -> bool {
    occurs_at(s, t, i) && forall|j: int| occurs_at(s, t, j) ==> j == i
}

proof fn lemma_context_cut_range(n: int, max: int, hs: int, he: int)
    requires
        0 <= hs <= he <= n,
    ensures
        0 <= context_cut(n, max, hs, he).0 <= hs,
        he <= context_cut(n, max, hs, he).1 <= n,
{
}

proof fn lemma_snapped_range(s: Seq<char>, start: int, hs: int, end: int)
    requires
        0 <= start <= hs,
        end <= s.len(),
    ensures
        0 <= snapped_start(s, start, hs) <= hs,
        end <= snapped_end(s, end) <= s.len(),
{
    if start > 0 {
        let hi = min_int(start + 1, hs);
        lemma_last_break_cut_range(s, max_int(1, start - 29), hi, true);
        lemma_last_break_cut_range(s, max_int(1, start - 19), hi, false);
    }
    if end < s.len() {
        lemma_first_break_range(s, end, min_int(end + 30, s.len() - 1), true);
        lemma_first_break_range(s, end, min_int(end + 20, s.len() - 1), false);
    }
}

/// An occurrence in `s[x..y]` is one in `s`, shifted by `x`.
proof fn lemma_occurs_in_subrange(s: Seq<char>, t: Seq<char>, x: int, y: int, k: int)
    requires
        0 <= x <= y <= s.len(),
    ensures
        occurs_at(s.subrange(x, y), t, k) ==> occurs_at(s, t, x + k),
        0 <= k && x + k + t.len() <= y && occurs_at(s, t, x + k) ==> occurs_at(
            s.subrange(x, y),
            t,
            k,
        ),
{
    if occurs_at(s.subrange(x, y), t, k) {
        assert(s.subrange(x + k, x + k + t.len()) =~= s.subrange(x, y).subrange(k, k + t.len()));
    }
    if 0 <= k && x + k + t.len() <= y && occurs_at(s, t, x + k) {
        assert(s.subrange(x + k, x + k + t.len()) =~= s.subrange(x, y).subrange(k, k + t.len()));
    }
}

/// A pattern without an ellipsis that occurs in `head + mid + tail`, where
/// `head` and `tail` are at most one ellipsis each, occurs within `mid`.
proof fn lemma_occurs_between_ellipses(
    head: Seq<char>,
    mid: Seq<char>,
    tail: Seq<char>,
    t: Seq<char>,
    i: int,
)
    requires
        head.len() <= 1,
        tail.len() <= 1,
        head.len() == 1 ==> head[0] == '…',
        tail.len() == 1 ==> tail[0] == '…',
        t.len() > 0,
        !t.contains('…'),
        occurs_at(head + mid + tail, t, i),
    ensures
        head.len() <= i,
        i + t.len() <= head.len() + mid.len(),
        occurs_at(mid, t, i - head.len()),
{
    let out = head + mid + tail;
    let h = head.len() as int;
    let m = mid.len() as int;
    assert(out.subrange(i, i + t.len()) == t);
    if i < h {
        assert(out[0] == '…');
        assert(t[0] == out.subrange(i, i + t.len())[0]);
        assert(t.contains('…'));
    }
    if i + t.len() > h + m {
        assert(tail.len() == 1);
        assert(out[h + m] == '…');
        assert(t[h + m - i] == out.subrange(i, i + t.len())[h + m - i]);
        assert(t.contains('…'));
    }
    assert(mid.subrange(i - h, i - h + t.len()) =~= out.subrange(i, i + t.len()));
}

/// An ellipsis where `cut` holds, else nothing.
pub open spec fn ellipsis_if(cut: bool) -> Seq<char> {
    if cut {
        seq!['…']
    } else {
        Seq::empty()
    }
}

/// Over budget, with a highlight at `ps..he` whose tags do not start or end
/// with white space, the truncation is a piece of the text around the whole
/// highlight, with at most an ellipsis on each side.
proof fn lemma_truncated_shape(
    s: Seq<char>,
    max: int,
    pre: Seq<char>,
    post: Seq<char>,
    ps: int,
    he: int,
) -> (r: (int, int, bool, bool))
    requires
        s.len() > max,
        pre.len() > 0,
        post.len() > 0,
        0 <= ps,
        ps + pre.len() <= he - post.len(),
        he <= s.len(),
        s.subrange(ps, ps + pre.len()) == pre,
        s.subrange(he - post.len(), he) == post,
        !is_white_space(pre[0]),
        !is_white_space(post.last()),
        highlight_span(s, pre, post) == Some((ps, he)),
    ensures
        0 <= r.0 <= ps,
        he <= r.1 <= s.len(),
        truncated(s, max, pre, post) == ellipsis_if(r.2) + s.subrange(r.0, r.1) + ellipsis_if(
            r.3,
        ),
{
    let n = s.len() as int;
    let hs = ps;
    let cut = context_cut(n, max, hs, he);
    lemma_context_cut_range(n, max, hs, he);
    let a = snapped_start(s, cut.0, hs);
    let b = snapped_end(s, cut.1);
    lemma_snapped_range(s, cut.0, hs, cut.1);
    let core = s.subrange(a, b);
    crate::text::lemma_leading_ws_bound(core);
    let lead: int = if a > 0 {
        crate::text::leading_ws(core) as int
    } else {
        0
    };
    if a > 0 && crate::text::leading_ws(core) > hs - a {
        assert(core[hs - a] == s[hs]);
        assert(s[hs] == s.subrange(hs, hs + pre.len())[0]);
    }
    let a2 = a + lead;
    let t1 = if a > 0 {
        trim_start(core)
    } else {
        core
    };
    assert(t1 =~= s.subrange(a2, b));
    crate::text::lemma_trailing_ws_bound(t1);
    let trail: int = if b < n {
        crate::text::trailing_ws(t1) as int
    } else {
        0
    };
    if b < n && crate::text::trailing_ws(t1) > b - he {
        assert(t1[he - 1 - a2] == s[he - 1]);
        assert(s[he - 1] == s.subrange(he - post.len(), he)[post.len() - 1]);
    }
    let b2 = b - trail;
    assert(trim_ends(core, a > 0, b < n) =~= s.subrange(a2, b2));
    reveal(truncated);
    (a2, b2, a > 0, b < n)
}

/// Over budget, a text with a single `pre` tag followed by a single `post`
/// tag truncates to a text in which each tag still occurs exactly once, in
/// that order, with the highlighted text between them intact. The tags are
/// taken non-empty, free of the ellipsis, and without white space on their
/// outer ends.
pub proof fn lemma_highlight_preserved(
    s: Seq<char>,
    max: int,
    pre: Seq<char>,
    post: Seq<char>,
    ps: int,
    qs: int,
)
    requires
        s.len() > max,
        pre.len() > 0,
        post.len() > 0,
        !is_white_space(pre[0]),
        !is_white_space(post.last()),
        !pre.contains('…'),
        !post.contains('…'),
        occurs_only_at(s, pre, ps),
        occurs_only_at(s, post, qs),
        ps + pre.len() <= qs,
    ensures
        exists|i: int|
            #![trigger occurs_only_at(truncated(s, max, pre, post), pre, i)]
            occurs_only_at(truncated(s, max, pre, post), pre, i) && occurs_only_at(
                truncated(s, max, pre, post),
                post,
                i + (qs - ps),
            ) && truncated(s, max, pre, post).subrange(i, i + (qs + post.len() - ps))
                == s.subrange(ps, qs + post.len()),
{
    let he = qs + post.len();
    lemma_find_from(s, pre, 0);
    lemma_find_from(s, post, ps + pre.len());
    assert(highlight_span(s, pre, post) == Some((ps, he)));
    let r = lemma_truncated_shape(s, max, pre, post, ps, he);
    let a2 = r.0;
    let b2 = r.1;
    let head = ellipsis_if(r.2);
    let mid = s.subrange(a2, b2);
    let tail = ellipsis_if(r.3);
    let out = truncated(s, max, pre, post);
    let h = head.len() as int;
    let i = ps - a2 + h;
    assert forall|j: int| occurs_at(out, pre, j) implies j == i by {
        lemma_occurs_between_ellipses(head, mid, tail, pre, j);
        lemma_occurs_in_subrange(s, pre, a2, b2, j - h);
    }
    assert forall|j: int| occurs_at(out, post, j) implies j == i + (qs - ps) by {
        lemma_occurs_between_ellipses(head, mid, tail, post, j);
        lemma_occurs_in_subrange(s, post, a2, b2, j - h);
    }
    assert(out.subrange(i, i + (he - ps)) =~= s.subrange(ps, he));
    assert(out.subrange(i, i + pre.len()) =~= s.subrange(ps, ps + pre.len()));
    assert(out.subrange(i + (qs - ps), i + (qs - ps) + post.len()) =~= s.subrange(
        qs,
        qs + post.len(),
    ));
    assert(occurs_only_at(out, pre, i));
}

proof fn lemma_cut_within(s: Seq<char>, n: int, max: int, hs: int, he: int)
    requires
        0 <= hs <= he <= n,
        n == s.len(),
        max >= 0,
    ensures
        ({
            let cut = context_cut(n, max, hs, he);
            let a = snapped_start(s, cut.0, hs);
            let b = snapped_end(s, cut.1);
            &&& 0 <= a <= hs
            &&& he <= b <= n
            &&& b - a <= (he - hs) + max_int(max - (he - hs), 0) + 100
        }),
{
    let cut = context_cut(n, max, hs, he);
    lemma_context_cut_range(n, max, hs, he);
    lemma_snapped_range(s, cut.0, hs, cut.1);
    if cut.0 > 0 {
        let hi = min_int(cut.0 + 1, hs);
        lemma_last_break_cut_range(s, max_int(1, cut.0 - 29), hi, true);
        lemma_last_break_cut_range(s, max_int(1, cut.0 - 19), hi, false);
    }
    if cut.1 < n {
        lemma_first_break_range(s, cut.1, min_int(cut.1 + 30, n - 1), true);
        lemma_first_break_range(s, cut.1, min_int(cut.1 + 20, n - 1), false);
    }
}

/// Over budget, a text with a highlight truncates to no more than the span,
/// what the span leaves of the budget, 20 characters of buffer on each
/// side, the snapping windows (30 before, 31 after) and two ellipses.
pub proof fn lemma_truncated_length(s: Seq<char>, max: int, pre: Seq<char>, post: Seq<char>)
    requires
        s.len() > max,
        max >= 0,
        highlight_span(s, pre, post) is Some,
    ensures
        ({
            let span = highlight_span(s, pre, post)->0;
            truncated(s, max, pre, post).len() <= (span.1 - span.0) + max_int(
                max - (span.1 - span.0),
                0,
            ) + 102
        }),
{
    let n = s.len() as int;
    lemma_find_from(s, pre, 0);
    let ps = find_from(s, pre, 0)->0;
    lemma_find_from(s, post, ps + pre.len());
    let span = highlight_span(s, pre, post)->0;
    let hs = span.0;
    let he = span.1;
    lemma_cut_within(s, n, max, hs, he);
    let cut = context_cut(n, max, hs, he);
    let a = snapped_start(s, cut.0, hs);
    let b = snapped_end(s, cut.1);
    let core = s.subrange(a, b);
    crate::text::lemma_leading_ws_bound(core);
    let t1 = if a > 0 {
        trim_start(core)
    } else {
        core
    };
    crate::text::lemma_trailing_ws_bound(t1);
    assert(trim_ends(core, a > 0, b < n).len() <= core.len());
    reveal(truncated);
}

proof fn lemma_cleaned_empty()
    ensures
        cleaned(Seq::empty()) == Seq::<char>::empty(),
{
    let e = Seq::<char>::empty();
    assert(crate::text::leading_ws(e) == 0);
    assert(trim_start(e) =~= e);
    assert(trim_end(e) =~= e);
}

} // verus!
