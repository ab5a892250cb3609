//! Character-level text operations: conversion between strings and their
//! characters, whitespace trimming, and pattern replacement.
use vstd::prelude::*;

verus! {

/// The Unicode `White_Space` property, which `char::is_whitespace` tests.
pub open spec fn is_white_space(c: char) -> bool {
    ('\u{9}' <= c && c <= '\u{d}') || c == ' ' || c == '\u{85}' || c == '\u{a0}' || c
        == '\u{1680}' || ('\u{2000}' <= c && c <= '\u{200a}') || c == '\u{2028}' || c == '\u{2029}'
        || c == '\u{202f}' || c == '\u{205f}' || c == '\u{3000}'
}

/// Whether `c` is white space.
pub fn white_space(c: char) -> (r: bool)
    ensures
        r == is_white_space(c),
{
    ('\u{9}' <= c && c <= '\u{d}') || c == ' ' || c == '\u{85}' || c == '\u{a0}' || c == '\u{1680}'
        || ('\u{2000}' <= c && c <= '\u{200a}') || c == '\u{2028}' || c == '\u{2029}' || c
        == '\u{202f}' || c == '\u{205f}' || c == '\u{3000}'
}

/// The number of white-space characters that `s` starts with.
pub open spec fn leading_ws(s: Seq<char>) -> nat
    decreases s.len(),
{
    if s.len() > 0 && is_white_space(s[0]) {
        1 + leading_ws(s.drop_first())
    } else {
        0
    }
}

/// The number of white-space characters that `s` ends with.
pub open spec fn trailing_ws(s: Seq<char>) -> nat
    decreases s.len(),
{
    if s.len() > 0 && is_white_space(s.last()) {
        1 + trailing_ws(s.drop_last())
    } else {
        0
    }
}

/// `s` without its leading white space.
pub open spec fn trim_start(s: Seq<char>) -> Seq<char> {
    s.skip(leading_ws(s) as int)
}

/// `s` without its trailing white space.
pub open spec fn trim_end(s: Seq<char>) -> Seq<char> {
    s.take(s.len() - trailing_ws(s))
}

/// `s` without white space at either end.
pub open spec fn trim(s: Seq<char>) -> Seq<char> {
    trim_end(trim_start(s))
}

/// Whether `t` occurs in `s` at `i`.
pub open spec fn occurs_at(s: Seq<char>, t: Seq<char>, i: int) -> bool {
    0 <= i && i + t.len() <= s.len() && s.subrange(i, i + t.len()) == t
}

/// `s` with each occurrence of `pat`, from left to right and not
/// overlapping, replaced by `rep` (`str::replace`).
pub open spec fn replace_all(s: Seq<char>, pat: Seq<char>, rep: Seq<char>) -> Seq<char>
    recommends
        pat.len() > 0,
    decreases s.len(),
{
    if s.len() == 0 || pat.len() == 0 {
        s
    } else if occurs_at(s, pat, 0) {
        rep + replace_all(s.skip(pat.len() as int), pat, rep)
    } else {
        seq![s[0]] + replace_all(s.drop_first(), pat, rep)
    }
}

pub proof fn lemma_leading_ws_bound(s: Seq<char>)
    ensures
        leading_ws(s) <= s.len(),
        forall|i: int| 0 <= i < leading_ws(s) ==> is_white_space(#[trigger] s[i]),
        leading_ws(s) < s.len() ==> !is_white_space(s[leading_ws(s) as int]),
    decreases s.len(),
{
    if s.len() > 0 && is_white_space(s[0]) {
        lemma_leading_ws_bound(s.drop_first());
        assert forall|i: int| 0 <= i < leading_ws(s) implies is_white_space(#[trigger] s[i]) by {
            if i > 0 {
                assert(s[i] == s.drop_first()[i - 1]);
            }
        }
    }
}

pub proof fn lemma_trailing_ws_bound(s: Seq<char>)
    ensures
        trailing_ws(s) <= s.len(),
        forall|i: int| s.len() - trailing_ws(s) <= i < s.len() ==> is_white_space(#[trigger] s[i]),
        trailing_ws(s) < s.len() ==> !is_white_space(s[s.len() - trailing_ws(s) - 1]),
    decreases s.len(),
{
    if s.len() > 0 && is_white_space(s.last()) {
        lemma_trailing_ws_bound(s.drop_last());
        assert forall|i: int| s.len() - trailing_ws(s) <= i < s.len() implies is_white_space(
            #[trigger] s[i],
        ) by {
            if i < s.len() - 1 {
                assert(s[i] == s.drop_last()[i]);
            }
        }
    }
}

/// The number of white-space characters at the start of `s[from..]`.
pub(crate) fn count_leading_ws(s: &Vec<char>, from: usize) -> (r: usize)
    requires
        from <= s.len(),
    ensures
        r == leading_ws(s@.skip(from as int)),
{
    let mut i: usize = from;
    while i < s.len() && white_space(s[i])
        invariant
            from <= i <= s.len(),
            leading_ws(s@.skip(from as int)) == (i - from) + leading_ws(s@.skip(i as int)),
        decreases s.len() - i,
    {
        assert(s@.skip(i as int).drop_first() =~= s@.skip(i + 1));
        i = i + 1;
    }
    i - from
}

/// The number of white-space characters at the end of `s[..to]`.
pub(crate) fn count_trailing_ws(s: &Vec<char>, to: usize) -> (r: usize)
    requires
        to <= s.len(),
    ensures
        r == trailing_ws(s@.take(to as int)),
{
    let mut j: usize = to;
    while j > 0 && white_space(s[j - 1])
        invariant
            j <= to <= s.len(),
            trailing_ws(s@.take(to as int)) == (to - j) + trailing_ws(s@.take(j as int)),
        decreases j,
    {
        assert(s@.take(j as int).drop_last() =~= s@.take(j - 1));
        j = j - 1;
    }
    to - j
}

/// The characters of `s`, in order.
pub fn chars_of(s: &str) -> (r: Vec<char>)
    ensures
        r@ == s@,
{
    let mut out: Vec<char> = Vec::new();
    for c in it: s.chars()
        invariant
            out@ == it.seq().take(it.index() as int),
    {
        out.push(c);
    }
    out
}

/// Relies on `String`'s `FromIterator<&char>`: the string of exactly these
/// characters, in order.
#[verifier::external_body]
pub(crate) fn string_of(cs: &Vec<char>) -> (r: String)
    ensures
        r@ == cs@,
{
    String::from_iter(cs.iter())
}

/// Appends `s[from..to]` to `out`.
pub fn extend_range(out: &mut Vec<char>, s: &Vec<char>, from: usize, to: usize)
    requires
        from <= to <= s.len(),
    ensures
        final(out)@ == old(out)@ + s@.subrange(from as int, to as int),
{
    let ghost start = out@;
    for i in from..to
        invariant
            out@ == start + s@.subrange(from as int, i as int),
            to <= s.len(),
    {
        out.push(s[i]);
        assert(out@ =~= start + s@.subrange(from as int, i + 1));
    }
}

/// `s` trimmed of leading white space where `left` holds and of trailing
/// white space where `right` holds.
pub open spec fn trim_ends(s: Seq<char>, left: bool, right: bool) -> Seq<char> {
    let t = if left {
        trim_start(s)
    } else {
        s
    };
    if right {
        trim_end(t)
    } else {
        t
    }
}

/// The bounds of `s[from..to]` trimmed as `trim_ends` says.
pub fn trim_bounds(s: &Vec<char>, from: usize, to: usize, left: bool, right: bool) -> (r: (
    usize,
    usize,
))
    requires
        from <= to <= s.len(),
    ensures
        from <= r.0 <= r.1 <= to,
        s@.subrange(r.0 as int, r.1 as int) == trim_ends(
            s@.subrange(from as int, to as int),
            left,
            right,
        ),
{
    let ghost sub = s@.subrange(from as int, to as int);
    let mut a = from;
    if left {
        let lead = count_leading_ws(s, from);
        proof {
            lemma_leading_ws_bound(s@.skip(from as int));
            lemma_leading_ws_prefix(s@.skip(from as int), (to - from) as int);
            assert(s@.skip(from as int).take((to - from) as int) =~= sub);
        }
        a = if from + lead <= to { from + lead } else { to };
        assert(trim_start(sub) =~= s@.subrange(a as int, to as int));
    }
    assert((if left { trim_start(sub) } else { sub }) =~= s@.subrange(a as int, to as int));
    let mut b = to;
    if right {
        let trail = count_trailing_ws(s, to);
        proof {
            lemma_trailing_ws_bound(s@.take(to as int));
            lemma_trailing_ws_suffix(s@.take(to as int), (to - a) as int);
            assert(s@.take(to as int).skip(a as int) =~= s@.subrange(a as int, to as int));
        }
        b = if to - trail >= a { to - trail } else { a };
        assert(trim_end(s@.subrange(a as int, to as int)) =~= s@.subrange(a as int, b as int));
    }
    (a, b)
}

/// `s[from..to]` without white space at either end.
pub fn trimmed_range(s: &Vec<char>, from: usize, to: usize) -> (r: Vec<char>)
    requires
        from <= to <= s.len(),
    ensures
        r@ == trim(s@.subrange(from as int, to as int)),
{
    let (a, b) = trim_bounds(s, from, to, true, true);
    let mut out: Vec<char> = Vec::new();
    extend_range(&mut out, s, a, b);
    assert(out@ =~= s@.subrange(a as int, b as int));
    out
}

/// Leading white space of a prefix that reaches past it is the same.
proof fn lemma_leading_ws_prefix(s: Seq<char>, k: int)
    requires
        0 <= k <= s.len(),
    ensures
        leading_ws(s.take(k)) == if leading_ws(s) <= k {
            leading_ws(s)
        } else {
            k as nat
        },
    decreases s.len(),
{
    if s.len() > 0 && k > 0 {
        assert(s.take(k).drop_first() =~= s.drop_first().take(k - 1));
        lemma_leading_ws_prefix(s.drop_first(), k - 1);
    }
}

/// Trailing white space of a suffix that reaches past it is the same.
proof fn lemma_trailing_ws_suffix(s: Seq<char>, k: int)
    requires
        0 <= k <= s.len(),
    ensures
        trailing_ws(s.skip(s.len() - k)) == if trailing_ws(s) <= k {
            trailing_ws(s)
        } else {
            k as nat
        },
    decreases s.len(),
{
    if s.len() > 0 && k > 0 {
        assert(s.skip(s.len() - k).drop_last() =~= s.drop_last().skip(s.drop_last().len() - (k
            - 1)));
        lemma_trailing_ws_suffix(s.drop_last(), k - 1);
    }
}

} // verus!
