//! Reading ISO 8601 durations (`PT1H2M3.5S`) as whole seconds, for sorting.
use vstd::prelude::*;
use crate::format::{all_digits, digits_value, is_digit, lemma_digits_value_nonneg};
use crate::text::chars_of;

verus! {

/// Nanoseconds in a second.
pub const NANOS: u128 = 1_000_000_000;

/// A total from which on the whole seconds no longer fit in an `i64`.
pub const TOTAL_CAP: u128 = 9_223_372_036_854_775_808_000_000_000;

/// A bound on the nanoseconds of one number, at least `TOTAL_CAP`.
pub const VALUE_CAP: u128 = 10_000_000_000_000_000_000_000_000_000;

/// A bound on the whole part of one number: from there on it alone reaches
/// `VALUE_CAP`.
pub const WHOLE_CAP: u128 = 10_000_000_000_000_000_000;

pub open spec fn min_of(a: int, b: int) -> int {
    if a <= b {
        a
    } else {
        b
    }
}

pub open spec fn pow10(k: nat) -> int
    decreases k,
{
    if k == 0 {
        1
    } else {
        10 * pow10((k - 1) as nat)
    }
}

/// A character that can stand in a number: a digit or a decimal point.
pub open spec fn is_number_char(c: char) -> bool {
    is_digit(c) || c == '.'
}

/// Seconds in the unit that `c` names; 0 for a character that names none.
pub open spec fn unit_seconds(c: char) -> int {
    if c == 'H' {
        3600
    } else if c == 'M' {
        60
    } else if c == 'S' {
        1
    } else {
        0
    }
}

/// The position of the first decimal point of `r`, or its length.
pub open spec fn point_at(r: Seq<char>) -> int
    decreases r.len(),
{
    if r.len() == 0 || r[0] == '.' {
        0
    } else {
        1 + point_at(r.drop_first())
    }
}

/// The digits before the decimal point.
pub open spec fn whole_part(r: Seq<char>) -> Seq<char> {
    r.take(point_at(r))
}

/// The digits after the decimal point.
pub open spec fn fraction_part(r: Seq<char>) -> Seq<char> {
    if point_at(r) < r.len() {
        r.skip(point_at(r) + 1)
    } else {
        Seq::empty()
    }
}

/// Whether `r` is a decimal number: digits with at most one decimal point,
/// and at least one digit.
pub open spec fn is_number(r: Seq<char>) -> bool {
    all_digits(whole_part(r)) && all_digits(fraction_part(r)) && whole_part(r).len()
        + fraction_part(r).len() > 0
}

/// The first nine digits of a fraction, as nanoseconds of a unit.
pub open spec fn fraction_nanos(f: Seq<char>) -> int {
    let k = min_of(9, f.len() as int);
    digits_value(f.take(k)) * pow10((9 - k) as nat)
}

/// The value of the number `r` in billionths; digits of the fraction past
/// the ninth are not counted.
pub open spec fn value_nanos(r: Seq<char>) -> int {
    digits_value(whole_part(r)) * NANOS + fraction_nanos(fraction_part(r))
}

/// Where the run of number characters that ends `b` starts.
pub open spec fn run_start(b: Seq<char>) -> int
    decreases b.len(),
{
    if b.len() == 0 {
        0
    } else if is_number_char(b.last()) {
        run_start(b.drop_last())
    } else {
        b.len() as int
    }
}

/// The nanoseconds of the duration text `b` (what follows `PT`): each
/// number followed by `H`, `M` or `S` counts in that unit; a number that
/// does not parse, or that another character follows, counts nothing.
pub open spec fn duration_nanos(b: Seq<char>) -> int
    decreases b.len(),
{
    if b.len() == 0 {
        0
    } else {
        let p = b.drop_last();
        let c = b.last();
        let run = p.subrange(run_start(p), p.len() as int);
        if is_number_char(c) || !is_number(run) {
            duration_nanos(p)
        } else {
            duration_nanos(p) + unit_seconds(c) * value_nanos(run)
        }
    }
}

/// The whole seconds of an ISO 8601 duration `PT…`, at most `i64::MAX`;
/// 0 for text that does not start with `PT`.
pub open spec fn duration_seconds(s: Seq<char>) -> int {
    if s.len() >= 2 && s[0] == 'P' && s[1] == 'T' {
        min_of(duration_nanos(s.skip(2)) / (NANOS as int), i64::MAX as int)
    } else {
        0
    }
}

proof fn lemma_run_start_bounds(b: Seq<char>)
    ensures
        0 <= run_start(b) <= b.len(),
        forall|i: int| run_start(b) <= i < b.len() ==> is_number_char(#[trigger] b[i]),
    decreases b.len(),
{
    if b.len() > 0 {
        lemma_run_start_bounds(b.drop_last());
        if is_number_char(b.last()) {
            assert forall|i: int| run_start(b) <= i < b.len() implies is_number_char(
                #[trigger] b[i],
            ) by {
                if i < b.len() - 1 {
                    assert(b[i] == b.drop_last()[i]);
                }
            }
        }
    }
}

proof fn lemma_point_at(r: Seq<char>)
    ensures
        0 <= point_at(r) <= r.len(),
        forall|i: int| 0 <= i < point_at(r) ==> #[trigger] r[i] != '.',
        point_at(r) < r.len() ==> r[point_at(r)] == '.',
    decreases r.len(),
{
    if r.len() > 0 && r[0] != '.' {
        lemma_point_at(r.drop_first());
        assert forall|i: int| 0 <= i < point_at(r) implies #[trigger] r[i] != '.' by {
            if i > 0 {
                assert(r[i] == r.drop_first()[i - 1]);
            }
        }
    }
}

/// The position of the first decimal point of `s[from..to]`, or `to`.
fn find_point(s: &Vec<char>, from: usize, to: usize) -> (r: usize)
    requires
        from <= to <= s.len(),
    ensures
        r == from + point_at(s@.subrange(from as int, to as int)),
{
    let ghost run = s@.subrange(from as int, to as int);
    let mut i = from;
    while i < to && s[i] != '.'
        invariant
            from <= i <= to <= s.len(),
            forall|j: int| from <= j < i ==> s@[j] != '.',
        decreases to - i,
    {
        i = i + 1;
    }
    proof {
        lemma_point_at(run);
        let p = point_at(run);
        if p < i - from {
            assert(run[p] == s@[from + p]);
        }
        if p > i - from {
            assert(run[i - from] == s@[i as int]);
        }
    }
    i
}

fn digit_value(c: char) -> (d: u128)
    requires
        is_digit(c),
    ensures
        d as int == c as int - '0' as int,
        d < 10,
{
    (c as u32 - '0' as u32) as u128
}

/// `min(digits_value(s[from..to]), WHOLE_CAP)` when those are all digits.
fn whole_value(s: &Vec<char>, from: usize, to: usize) -> (r: Option<u128>)
    requires
        from <= to <= s.len(),
    ensures
        match r {
            Some(w) => all_digits(s@.subrange(from as int, to as int)) && w as int == min_of(
                digits_value(s@.subrange(from as int, to as int)),
                WHOLE_CAP as int,
            ),
            None => !all_digits(s@.subrange(from as int, to as int)),
        },
{
    let ghost whole = s@.subrange(from as int, to as int);
    let mut w: u128 = 0;
    let mut i = from;
    assert(s@.subrange(from as int, from as int) =~= Seq::<char>::empty());
    while i < to
        invariant
            from <= i <= to <= s.len(),
            whole == s@.subrange(from as int, to as int),
            forall|j: int| from <= j < i ==> is_digit(#[trigger] s@[j]),
            w as int == min_of(digits_value(s@.subrange(from as int, i as int)), WHOLE_CAP as int),
            w <= WHOLE_CAP,
        decreases to - i,
    {
        if !is_digit_char(s[i]) {
            assert(whole[i - from] == s@[i as int]);
            return None;
        }
        let d = digit_value(s[i]);
        proof {
            let prev = s@.subrange(from as int, i as int);
            assert(s@.subrange(from as int, i + 1).drop_last() =~= prev);
            assert forall|j: int| 0 <= j < prev.len() implies is_digit(#[trigger] prev[j]) by {
                assert(prev[j] == s@[from + j]);
            }
            lemma_digits_value_nonneg(prev);
            let x = digits_value(prev);
            assert(min_of(10 * min_of(x, WHOLE_CAP as int) + d, WHOLE_CAP as int) == min_of(
                10 * x + d,
                WHOLE_CAP as int,
            )) by (nonlinear_arith)
                requires
                    x >= 0,
                    d >= 0,
            ;
        }
        w = if w * 10 + d >= WHOLE_CAP {
            WHOLE_CAP
        } else {
            w * 10 + d
        };
        i = i + 1;
    }
    assert forall|j: int| 0 <= j < whole.len() implies is_digit(#[trigger] whole[j]) by {
        assert(whole[j] == s@[from + j]);
    }
    Some(w)
}

/// `fraction_nanos(s[from..to])` when those are all digits.
fn fraction_value(s: &Vec<char>, from: usize, to: usize) -> (r: Option<u128>)
    requires
        from <= to <= s.len(),
    ensures
        match r {
            Some(v) => all_digits(s@.subrange(from as int, to as int)) && v as int
                == fraction_nanos(s@.subrange(from as int, to as int)) && v < NANOS,
            None => !all_digits(s@.subrange(from as int, to as int)),
        },
{
    let ghost frac = s@.subrange(from as int, to as int);
    let mut f: u128 = 0;
    let mut k: usize = 0;
    let mut j = from;
    proof {
        lemma_pow10_small(0);
    }
    assert(s@.subrange(from as int, from as int) =~= Seq::<char>::empty());
    while j < to
        invariant
            from <= j <= to <= s.len(),
            frac == s@.subrange(from as int, to as int),
            forall|m: int| from <= m < j ==> is_digit(#[trigger] s@[m]),
            k as int == min_of(9, j - from),
            f as int == digits_value(s@.subrange(from as int, from + k)),
            f < pow10(k as nat),
            pow10(k as nat) <= 1_000_000_000,
        decreases to - j,
    {
        if !is_digit_char(s[j]) {
            assert(frac[j - from] == s@[j as int]);
            return None;
        }
        if k < 9 {
            let d = digit_value(s[j]);
            assert(s@.subrange(from as int, from + k + 1).drop_last() =~= s@.subrange(
                from as int,
                from + k,
            ));
            proof {
                lemma_pow10_small((k + 1) as nat);
            }
            f = f * 10 + d;
            k = k + 1;
        }
        j = j + 1;
    }
    assert forall|m: int| 0 <= m < frac.len() implies is_digit(#[trigger] frac[m]) by {
        assert(frac[m] == s@[from + m]);
    }
    assert(frac.take(k as int) =~= s@.subrange(from as int, from + k));
    let mut scaled = f;
    let mut e = k;
    proof {
        lemma_pow10_small(0);
        assert((f as int) * pow10(0) == f as int);
    }
    while e < 9
        invariant
            k <= e <= 9,
            scaled as int == f * pow10((e - k) as nat),
            scaled < pow10(e as nat),
            pow10(e as nat) <= 1_000_000_000,
        decreases 9 - e,
    {
        proof {
            lemma_pow10_small((e + 1) as nat);
            lemma_pow10_small((e + 1 - k) as nat);
            let q = pow10((e - k) as nat);
            assert(f * q * 10 == f * (10 * q)) by (nonlinear_arith);
        }
        scaled = scaled * 10;
        e = e + 1;
    }
    proof {
        lemma_pow10_small(9);
    }
    Some(scaled)
}

/// `min(value_nanos(s[from..to]), VALUE_CAP)` when that run is a number.
fn run_nanos(s: &Vec<char>, from: usize, to: usize) -> (r: Option<u128>)
    requires
        from <= to <= s.len(),
    ensures
        match r {
            Some(v) => is_number(s@.subrange(from as int, to as int)) && v as int == min_of(
                value_nanos(s@.subrange(from as int, to as int)),
                VALUE_CAP as int,
            ),
            None => !is_number(s@.subrange(from as int, to as int)),
        },
{
    let ghost run = s@.subrange(from as int, to as int);
    let point = find_point(s, from, to);
    proof {
        lemma_point_at(run);
    }
    assert(whole_part(run) =~= s@.subrange(from as int, point as int));
    let frac_from: usize = if point < to {
        point + 1
    } else {
        to
    };
    assert(fraction_part(run) =~= s@.subrange(frac_from as int, to as int));
    let w = match whole_value(s, from, point) {
        Some(w) => w,
        None => return None,
    };
    let f = match fraction_value(s, frac_from, to) {
        Some(f) => f,
        None => return None,
    };
    if point - from + (to - frac_from) == 0 {
        return None;
    }
    proof {
        lemma_digits_value_nonneg(whole_part(run));
    }
    if w >= WHOLE_CAP {
        Some(VALUE_CAP)
    } else {
        Some(w * NANOS + f)
    }
}

fn is_digit_char(c: char) -> (r: bool)
    ensures
        r == is_digit(c),
{
    '0' <= c && c <= '9'
}

fn unit_of(c: char) -> (r: u128)
    ensures
        r as int == unit_seconds(c),
{
    if c == 'H' {
        3600
    } else if c == 'M' {
        60
    } else if c == 'S' {
        1
    } else {
        0
    }
}

/// The whole seconds of an ISO 8601 duration such as `PT1H2M3S` (3723):
/// each number followed by `H`, `M` or `S` counts in that unit, fractions
/// to the ninth decimal, and the total saturates at `i64::MAX`. Text that
/// does not start with `PT` gives 0.
pub fn parse_iso8601_duration_to_seconds(duration_str: &str) -> (r: i64)
    ensures
        r as int == duration_seconds(duration_str@),
{
    let s = chars_of(duration_str);
    if !(s.len() >= 2 && s[0] == 'P' && s[1] == 'T') {
        return 0;
    }
    let ghost body = s@.skip(2);
    let mut total: u128 = 0;
    let mut start: usize = 2;
    let mut i: usize = 2;
    assert(body.take(0) =~= Seq::<char>::empty());
    while i < s.len()
        invariant
            2 <= start <= i <= s.len(),
            body == s@.skip(2),
            start - 2 == run_start(body.take(i - 2)),
            total as int == min_of(duration_nanos(body.take(i - 2)), TOTAL_CAP as int),
            total <= TOTAL_CAP,
        decreases s.len() - i,
    {
        let ghost p = body.take(i - 2);
        let c = s[i];
        assert(body.take(i - 1).drop_last() =~= p);
        assert(body.take(i - 1).last() == c);
        proof {
            lemma_duration_nanos_nonneg(p);
        }
        if is_digit_char(c) || c == '.' {
            i = i + 1;
        } else {
            assert(p.subrange(run_start(p), p.len() as int) =~= s@.subrange(
                start as int,
                i as int,
            ));
            match run_nanos(&s, start, i) {
                Some(v) => {
                    let u = unit_of(c);
                    proof {
                        let t = duration_nanos(p);
                        let x = value_nanos(s@.subrange(start as int, i as int));
                        lemma_value_nanos_nonneg(s@.subrange(start as int, i as int));
                        assert(min_of(min_of(t, TOTAL_CAP as int) + u * min_of(x, VALUE_CAP as int),
                            TOTAL_CAP as int) == min_of(t + u * x, TOTAL_CAP as int))
                            by (nonlinear_arith)
                            requires
                                t >= 0,
                                x >= 0,
                                u >= 0,
                                TOTAL_CAP <= VALUE_CAP,
                        ;
                    }
                    assert(u * v <= 3600 * VALUE_CAP) by (nonlinear_arith)
                        requires
                            u <= 3600,
                            v <= VALUE_CAP,
                    ;
                    let add = u * v;
                    total = if add >= TOTAL_CAP - total {
                        TOTAL_CAP
                    } else {
                        total + add
                    };
                },
                None => {},
            }
            i = i + 1;
            start = i;
        }
    }
    assert(body.take(i - 2) =~= body);
    let secs = total / NANOS;
    proof {
        lemma_duration_nanos_nonneg(body);
        let t = duration_nanos(body);
        assert(min_of(min_of(t, TOTAL_CAP as int) / (NANOS as int), i64::MAX as int) == min_of(
            t / (NANOS as int),
            i64::MAX as int,
        )) by (nonlinear_arith)
            requires
                t >= 0,
        ;
    }
    if secs > i64::MAX as u128 {
        i64::MAX
    } else {
        secs as i64
    }
}

proof fn lemma_pow10_small(k: nat)
    requires
        k <= 9,
    ensures
        1 <= pow10(k) <= 1_000_000_000,
        k == 9 ==> pow10(k) == 1_000_000_000,
        k > 0 ==> pow10(k) == 10 * pow10((k - 1) as nat),
{
    assert(pow10(0) == 1);
    assert(pow10(1) == 10);
    assert(pow10(2) == 100);
    assert(pow10(3) == 1000);
    assert(pow10(4) == 10000);
    assert(pow10(5) == 100000);
    assert(pow10(6) == 1000000);
    assert(pow10(7) == 10000000);
    assert(pow10(8) == 100000000);
    assert(pow10(9) == 1000000000);
}

proof fn lemma_value_nanos_nonneg(r: Seq<char>)
    requires
        is_number(r),
    ensures
        value_nanos(r) >= 0,
{
    let f = fraction_part(r);
    let k = min_of(9, f.len() as int);
    lemma_digits_value_nonneg(whole_part(r));
    assert forall|i: int| 0 <= i < f.take(k).len() implies is_digit(#[trigger] f.take(k)[i]) by {
        assert(f.take(k)[i] == f[i]);
    }
    lemma_digits_value_nonneg(f.take(k));
    lemma_pow10_positive((9 - k) as nat);
    assert(digits_value(f.take(k)) * pow10((9 - k) as nat) >= 0) by (nonlinear_arith)
        requires
            digits_value(f.take(k)) >= 0,
            pow10((9 - k) as nat) > 0,
    ;
}

proof fn lemma_pow10_positive(k: nat)
    ensures
        pow10(k) > 0,
    decreases k,
{
    if k > 0 {
        lemma_pow10_positive((k - 1) as nat);
    }
}

proof fn lemma_duration_nanos_nonneg(b: Seq<char>)
    ensures
        duration_nanos(b) >= 0,
    decreases b.len(),
{
    if b.len() > 0 {
        let p = b.drop_last();
        lemma_duration_nanos_nonneg(p);
        let run = p.subrange(run_start(p), p.len() as int);
        if !is_number_char(b.last()) && is_number(run) {
            lemma_value_nanos_nonneg(run);
            let u = unit_seconds(b.last());
            let x = value_nanos(run);
            assert(u * x >= 0) by (nonlinear_arith)
                requires
                    u >= 0,
                    x >= 0,
            ;
        }
    }
}

} // verus!
