//! Display formatting of counts and durations, and ordered comparison of
//! integers.
use vstd::prelude::*;
use core::cmp::Ordering;
use crate::options::SortOrder;
use crate::text::{chars_of, string_of};

verus! {

/// The decimal digit character of `d`.
pub open spec fn digit_char(d: int) -> char {
    if d == 0 {
        '0'
    } else if d == 1 {
        '1'
    } else if d == 2 {
        '2'
    } else if d == 3 {
        '3'
    } else if d == 4 {
        '4'
    } else if d == 5 {
        '5'
    } else if d == 6 {
        '6'
    } else if d == 7 {
        '7'
    } else if d == 8 {
        '8'
    } else {
        '9'
    }
}

/// The decimal digits of `n`, most significant first, without leading zeros.
pub open spec fn digits(n: nat) -> Seq<char>
    decreases n,
{
    if n < 10 {
        seq![digit_char(n as int)]
    } else {
        digits(n / 10).push(digit_char(n as int % 10))
    }
}

/// The characters of `s` up to `k`, with a comma before each character,
/// other than the first, that has a multiple of three characters from it
/// to the end.
pub open spec fn grouped(s: Seq<char>, k: int) -> Seq<char>
    decreases k,
{
    if k <= 0 {
        Seq::empty()
    } else {
        let i = k - 1;
        let sep = if i > 0 && (s.len() - i) % 3 == 0 {
            seq![',']
        } else {
            Seq::empty()
        };
        grouped(s, i) + sep + seq![s[i]]
    }
}

fn digit_of(d: u64) -> (c: char)
    requires
        d < 10,
    ensures
        c == digit_char(d as int),
{
    if d == 0 {
        '0'
    } else if d == 1 {
        '1'
    } else if d == 2 {
        '2'
    } else if d == 3 {
        '3'
    } else if d == 4 {
        '4'
    } else if d == 5 {
        '5'
    } else if d == 6 {
        '6'
    } else if d == 7 {
        '7'
    } else if d == 8 {
        '8'
    } else {
        '9'
    }
}

/// The decimal digits of `n`.
pub fn decimal_digits(n: u64) -> (r: Vec<char>)
    ensures
        r@ == digits(n as nat),
    decreases n,
{
    if n < 10 {
        let mut v: Vec<char> = Vec::new();
        v.push(digit_of(n));
        assert(v@ =~= digits(n as nat));
        v
    } else {
        let mut v = decimal_digits(n / 10);
        v.push(digit_of(n % 10));
        v
    }
}

/// `number` in decimal with its digits grouped by thousands with commas,
/// after a minus sign where it is negative.
pub fn format_number(number: i64) -> (r: String)
    ensures
        r@ == (if number < 0 {
            seq!['-']
        } else {
            Seq::empty()
        }) + grouped(
            digits((if number < 0 { -number } else { number as int }) as nat),
            digits((if number < 0 { -number } else { number as int }) as nat).len() as int,
        ),
{
    let magnitude: u64 = if number < 0 {
        (-(number as i128)) as u64
    } else {
        number as u64
    };
    let s = decimal_digits(magnitude);
    let len = s.len();
    let mut out: Vec<char> = Vec::new();
    if number < 0 {
        out.push('-');
    }
    let ghost sign = out@;
    for i in 0..len
        invariant
            len == s.len(),
            out@ == sign + grouped(s@, i as int),
    {
        if i > 0 && (len - i) % 3 == 0 {
            out.push(',');
        }
        out.push(s[i]);
        assert(out@ =~= sign + grouped(s@, i + 1));
    }
    assert(sign =~= (if number < 0 {
        seq!['-']
    } else {
        Seq::<char>::empty()
    }));
    string_of(&out)
}

/// `n` in decimal with at least two digits.
pub open spec fn two_digits(n: nat) -> Seq<char> {
    if n < 10 {
        seq!['0'] + digits(n)
    } else {
        digits(n)
    }
}

fn push_two_digits(out: &mut Vec<char>, n: u64)
    ensures
        final(out)@ == old(out)@ + two_digits(n as nat),
{
    if n < 10 {
        out.push('0');
    }
    let d = decimal_digits(n);
    crate::text::extend_range(out, &d, 0, d.len());
    assert(d@.subrange(0, d.len() as int) =~= d@);
}

/// `m:ss`-style minutes and seconds of a duration in seconds, each at least
/// two digits; the seconds count is taken as a `u32`, as a cast gives it.
pub fn format_duration(seconds: i64) -> (r: String)
    ensures
        r@ == two_digits(((seconds as u32) / 60) as nat) + seq![':'] + two_digits(
            ((seconds as u32) % 60) as nat,
        ),
{
    let total: u32 = seconds as u32;
    let mut out: Vec<char> = Vec::new();
    push_two_digits(&mut out, (total / 60) as u64);
    out.push(':');
    push_two_digits(&mut out, (total % 60) as u64);
    string_of(&out)
}

/// The value of a run of decimal digits.
pub open spec fn digits_value(s: Seq<char>) -> int
    decreases s.len(),
{
    if s.len() == 0 {
        0
    } else {
        digits_value(s.drop_last()) * 10 + (s.last() as int - '0' as int)
    }
}

pub open spec fn is_digit(c: char) -> bool {
    '0' <= c && c <= '9'
}

/// `s` without a leading `+`.
pub open spec fn unsigned_body(s: Seq<char>) -> Seq<char> {
    if s.len() > 0 && s[0] == '+' {
        s.drop_first()
    } else {
        s
    }
}

pub open spec fn all_digits(s: Seq<char>) -> bool {
    forall|i: int| 0 <= i < s.len() ==> is_digit(#[trigger] s[i])
}

/// What `u32`'s `from_str` gives: an optional `+` and one or more decimal
/// digits whose value fits in a `u32`.
pub open spec fn parse_u32(s: Seq<char>) -> Option<u32> {
    let body = unsigned_body(s);
    if body.len() > 0 && all_digits(body) && digits_value(body) <= u32::MAX {
        Some(digits_value(body) as u32)
    } else {
        None
    }
}

pub(crate) proof fn lemma_digits_value_nonneg(s: Seq<char>)
    requires
        forall|i: int| 0 <= i < s.len() ==> is_digit(#[trigger] s[i]),
    ensures
        digits_value(s) >= 0,
    decreases s.len(),
{
    if s.len() > 0 {
        lemma_digits_value_nonneg(s.drop_last());
        assert(is_digit(s[s.len() - 1]));
    }
}

/// Parses `s[from..to]` as `u32`'s `from_str` does.
pub fn parse_u32_range(s: &Vec<char>, from: usize, to: usize) -> (r: Option<u32>)
    requires
        from <= to <= s.len(),
    ensures
        r == parse_u32(s@.subrange(from as int, to as int)),
{
    let ghost sub = s@.subrange(from as int, to as int);
    let start = if from < to && s[from] == '+' {
        from + 1
    } else {
        from
    };
    let ghost body = s@.subrange(start as int, to as int);
    assert(body =~= unsigned_body(sub));
    if start == to {
        return None;
    }
    let mut value: u64 = 0;
    let mut i = start;
    while i < to
        invariant
            start <= i <= to <= s.len(),
            body == s@.subrange(start as int, to as int),
            body == unsigned_body(s@.subrange(from as int, to as int)),
            forall|j: int| start <= j < i ==> is_digit(#[trigger] s@[j]),
            value as int == digits_value(s@.subrange(start as int, i as int)),
            value <= u32::MAX,
        decreases to - i,
    {
        let c = s[i];
        if !('0' <= c && c <= '9') {
            assert(body[i - start] == s@[i as int]);
            assert(!is_digit(body[i - start]));
            return None;
        }
        assert(s@.subrange(start as int, i + 1).drop_last() =~= s@.subrange(start as int, i as int));
        let d: u64 = (c as u32 - '0' as u32) as u64;
        value = value * 10 + d;
        if value > u32::MAX as u64 {
            proof {
                let rest = s@.subrange(start as int, i + 1);
                assert forall|j: int| 0 <= j < rest.len() implies is_digit(#[trigger] rest[j]) by {
                    assert(rest[j] == s@[start + j]);
                }
                assert(body.subrange(0, i + 1 - start) =~= rest);
                if all_digits(body) {
                    lemma_digits_value_prefix_grows(body, i + 1 - start);
                }
            }
            return None;
        }
        i = i + 1;
    }
    assert(s@.subrange(start as int, to as int) =~= body);
    assert forall|j: int| 0 <= j < body.len() implies is_digit(#[trigger] body[j]) by {
        assert(body[j] == s@[start + j]);
    }
    Some(value as u32)
}

/// Among all-digit strings, a longer prefix has at least the value of a
/// shorter one.
proof fn lemma_digits_value_prefix_grows(s: Seq<char>, k: int)
    requires
        0 <= k <= s.len(),
        forall|i: int| 0 <= i < s.len() ==> is_digit(#[trigger] s[i]),
    ensures
        digits_value(s) >= digits_value(s.subrange(0, k)),
    decreases s.len(),
{
    if k < s.len() {
        lemma_digits_value_prefix_grows(s.drop_last(), k);
        assert(s.drop_last().subrange(0, k) =~= s.subrange(0, k));
        lemma_digits_value_nonneg(s.drop_last());
        assert(is_digit(s[s.len() - 1]));
        assert(digits_value(s) >= digits_value(s.drop_last()));
    } else {
        assert(s.subrange(0, k) =~= s);
    }
}

/// The first position of `c` in `s`, if any.
pub open spec fn position_of(s: Seq<char>, c: char) -> Option<int> {
    if exists|i: int| 0 <= i < s.len() && s[i] == c {
        Some(choose|i: int| 0 <= i < s.len() && s[i] == c && forall|j: int| 0 <= j < i ==> s[j] != c)
    } else {
        None
    }
}

fn find_char(s: &Vec<char>, c: char) -> (r: Option<usize>)
    ensures
        match r {
            Some(i) => position_of(s@, c) == Some(i as int) && i < s.len(),
            None => position_of(s@, c) is None,
        },
{
    let mut i: usize = 0;
    while i < s.len()
        invariant
            i <= s.len(),
            forall|j: int| 0 <= j < i ==> s@[j] != c,
        decreases s.len() - i,
    {
        if s[i] == c {
            proof {
                let p = choose|p: int|
                    0 <= p < s.len() && s@[p] == c && forall|j: int| 0 <= j < p ==> s@[j] != c;
                assert(p == i) by {
                    if p < i {
                    } else if p > i {
                        assert(s@[i as int] == c);
                    }
                }
            }
            return Some(i);
        }
        i = i + 1;
    }
    None
}

/// The number of a duration component: the digits of `s[from..to]`, and 0
/// where they do not parse or the range is empty or reversed.
pub open spec fn component(s: Seq<char>, from: int, to: Option<int>) -> nat {
    match to {
        Some(t) => if from <= t {
            match parse_u32(s.subrange(from, t)) {
                Some(v) => v as nat,
                None => 0,
            }
        } else {
            0
        },
        None => 0,
    }
}

/// Hours, minutes and seconds of an ISO 8601 duration such as `PT1H2M3S`:
/// each the number between its letter and the letter before it (after the
/// `PT` prefix for the first).
pub open spec fn iso_duration_parts(s: Seq<char>) -> (nat, nat, nat) {
    let h = position_of(s, 'H');
    let m = position_of(s, 'M');
    let m_start = match h {
        Some(hp) => hp + 1,
        None => 2,
    };
    let s_start = match m {
        Some(mp) => mp + 1,
        None => m_start,
    };
    (
        component(s, 2, h),
        component(s, m_start, m),
        component(s, s_start, position_of(s, 'S')),
    )
}

/// The parts as `hh:mm:ss`, or `mm:ss` without hours.
pub open spec fn iso_duration_text(s: Seq<char>) -> Seq<char> {
    let p = iso_duration_parts(s);
    if p.0 != 0 {
        two_digits(p.0) + seq![':'] + two_digits(p.1) + seq![':'] + two_digits(p.2)
    } else {
        two_digits(p.1) + seq![':'] + two_digits(p.2)
    }
}

fn component_exec(s: &Vec<char>, from: usize, to: Option<usize>) -> (r: u32)
    requires
        to matches Some(t) ==> t <= s.len(),
    ensures
        r as nat == component(s@, from as int, match to {
            Some(t) => Some(t as int),
            None => None,
        }),
{
    match to {
        Some(t) => if from <= t {
            match parse_u32_range(s, from, t) {
                Some(v) => v,
                None => 0,
            }
        } else {
            0
        },
        None => 0,
    }
}

fn iso_parts(s: &Vec<char>) -> (r: (u32, u32, u32))
    ensures
        (r.0 as nat, r.1 as nat, r.2 as nat) == iso_duration_parts(s@),
{
    let h = find_char(s, 'H');
    let m = find_char(s, 'M');
    let sp = find_char(s, 'S');
    let m_start: usize = match h {
        Some(hp) => hp + 1,
        None => 2,
    };
    let s_start: usize = match m {
        Some(mp) => mp + 1,
        None => m_start,
    };
    let hours = component_exec(s, 2, h);
    let minutes = component_exec(s, m_start, m);
    let secs = component_exec(s, s_start, sp);
    (hours, minutes, secs)
}

/// An ISO 8601 duration such as `PT1H2M3S` as `01:02:03`, or as `02:03`
/// when it has no hours. A component that does not parse counts as 0.
pub fn format_iso8601_duration(duration: &str) -> (r: String)
    ensures
        r@ == iso_duration_text(duration@),
{
    let s = chars_of(duration);
    let (hours, minutes, secs) = iso_parts(&s);
    let mut out: Vec<char> = Vec::new();
    if hours != 0 {
        push_two_digits(&mut out, hours as u64);
        out.push(':');
    }
    push_two_digits(&mut out, minutes as u64);
    out.push(':');
    push_two_digits(&mut out, secs as u64);
    assert(out@ =~= iso_duration_text(duration@));
    string_of(&out)
}

/// How `a` compares with `b` in ascending order.
pub open spec fn int_cmp(a: int, b: int) -> Ordering {
    if a < b {
        Ordering::Less
    } else if a == b {
        Ordering::Equal
    } else {
        Ordering::Greater
    }
}

/// How `a` compares with `b` in the direction `order`.
pub fn compare_with_order_int(a: i64, b: i64, order: &SortOrder) -> (r: Ordering)
    ensures
        r == match order {
            SortOrder::Asc => int_cmp(a as int, b as int),
            SortOrder::Desc => int_cmp(b as int, a as int),
        },
{
    let (x, y) = match order {
        SortOrder::Asc => (a, b),
        SortOrder::Desc => (b, a),
    };
    if x < y {
        Ordering::Less
    } else if x == y {
        Ordering::Equal
    } else {
        Ordering::Greater
    }
}

} // verus!
