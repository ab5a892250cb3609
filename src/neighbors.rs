//! Neighbour context: the captions just before and just after a matched
//! caption of the same video.
use vstd::prelude::*;
use crate::models::Caption;

verus! {

/// The assumed length of one caption, in milliseconds.
pub const CAPTION_PACE_MS: i128 = 6000;

/// The least half-width of the neighbour window, in milliseconds.
pub const MIN_WINDOW_MS: i128 = 30000;

/// How close, in milliseconds, a caption's start must be to the anchor's
/// start to be taken for the anchor.
pub const ANCHOR_TOLERANCE_MS: i64 = 100;

/// The time range and hit count of the request for an anchor's neighbours.
#[derive(Clone, Copy, Debug, PartialEq, Eq, Structural)]
pub struct NeighborWindow {
    pub from_ms: i128,
    pub to_ms: i128,
    pub max_hits: u128,
}

/// Half the width of the window: room for `before + after` captions at the
/// assumed pace, and never under the least width.
pub open spec fn window_half_ms(before: int, after: int) -> int {
    if (before + after) * CAPTION_PACE_MS >= MIN_WINDOW_MS {
        (before + after) * CAPTION_PACE_MS
    } else {
        MIN_WINDOW_MS as int
    }
}

/// The window around an anchor from which its neighbours are chosen.
pub fn neighbor_window(anchor_start_ms: i64, anchor_end_ms: i64, before: usize, after: usize) -> (r:
    NeighborWindow)
    ensures
        r.from_ms == anchor_start_ms - window_half_ms(before as int, after as int),
        r.to_ms == anchor_end_ms + window_half_ms(before as int, after as int),
        r.max_hits == if (before + after + 1) * 3 >= 50 {
            (before + after + 1) * 3
        } else {
            50
        },
{
    let count: u128 = before as u128 + after as u128;
    let paced: i128 = (count as i128) * CAPTION_PACE_MS;
    let half: i128 = if paced >= MIN_WINDOW_MS {
        paced
    } else {
        MIN_WINDOW_MS
    };
    let hits: u128 = (count + 1) * 3;
    NeighborWindow {
        from_ms: anchor_start_ms as i128 - half,
        to_ms: anchor_end_ms as i128 + half,
        max_hits: if hits >= 50 {
            hits
        } else {
            50
        },
    }
}

/// Whether `c` starts where the anchor starts, within the tolerance.
pub open spec fn is_anchor(c: Caption, anchor_start_ms: i64) -> bool {
    -ANCHOR_TOLERANCE_MS < c.start_ms - anchor_start_ms < ANCHOR_TOLERANCE_MS
}

/// The first caption of `cs` at or after `i` that is taken for the anchor.
pub open spec fn anchor_index(cs: Seq<Caption>, anchor_start_ms: i64, i: int) -> Option<int>
    decreases cs.len() - i,
{
    if i < 0 || i >= cs.len() {
        None
    } else if is_anchor(cs[i], anchor_start_ms) {
        Some(i)
    } else {
        anchor_index(cs, anchor_start_ms, i + 1)
    }
}

/// The captions of `cs` that start before `t`, in order.
pub open spec fn starting_before(cs: Seq<Caption>, t: i64) -> Seq<Caption>
    decreases cs.len(),
{
    if cs.len() == 0 {
        Seq::empty()
    } else if cs.last().start_ms < t {
        starting_before(cs.drop_last(), t).push(cs.last())
    } else {
        starting_before(cs.drop_last(), t)
    }
}

/// The captions of `cs` that start after `t`, in order.
pub open spec fn starting_after(cs: Seq<Caption>, t: i64) -> Seq<Caption>
    decreases cs.len(),
{
    if cs.len() == 0 {
        Seq::empty()
    } else if cs.last().start_ms > t {
        starting_after(cs.drop_last(), t).push(cs.last())
    } else {
        starting_after(cs.drop_last(), t)
    }
}

/// The last `k` items of `s`, or all of them.
pub open spec fn last_k<A>(s: Seq<A>, k: int) -> Seq<A> {
    if s.len() > k {
        s.skip(s.len() - k)
    } else {
        s
    }
}

/// The first `k` items of `s`, or all of them.
pub open spec fn first_k<A>(s: Seq<A>, k: int) -> Seq<A> {
    if s.len() > k {
        s.take(k)
    } else {
        s
    }
}

/// The neighbours of an anchor among the captions of a window, sorted by
/// start. Where a caption is taken for the anchor, the `before` captions
/// just before it and the `after` just after it; else the last `before`
/// captions that start before the anchor and the first `after` that start
/// after its end.
pub open spec fn neighbors(
    cs: Seq<Caption>,
    anchor_start_ms: i64,
    anchor_end_ms: i64,
    before: int,
    after: int,
) -> (Seq<Caption>, Seq<Caption>) {
    match anchor_index(cs, anchor_start_ms, 0) {
        Some(k) => (last_k(cs.take(k), before), first_k(cs.skip(k + 1), after)),
        None => (
            last_k(starting_before(cs, anchor_start_ms), before),
            first_k(starting_after(cs, anchor_end_ms), after),
        ),
    }
}

fn copy_caption(c: &Caption) -> (r: Caption)
    ensures
        r == *c,
{
    Caption {
        video_id: c.video_id.clone(),
        text: c.text.clone(),
        start_ms: c.start_ms,
        end_ms: c.end_ms,
    }
}

/// The captions `cs[from..to]`.
fn copy_range(cs: &Vec<Caption>, from: usize, to: usize) -> (r: Vec<Caption>)
    requires
        from <= to <= cs.len(),
    ensures
        r@ == cs@.subrange(from as int, to as int),
{
    let mut out: Vec<Caption> = Vec::new();
    for i in from..to
        invariant
            to <= cs.len(),
            out@ == cs@.subrange(from as int, i as int),
    {
        out.push(copy_caption(&cs[i]));
        assert(out@ =~= cs@.subrange(from as int, i + 1));
    }
    out
}

fn find_anchor(cs: &Vec<Caption>, anchor_start_ms: i64) -> (r: Option<usize>)
    ensures
        match r {
            Some(k) => anchor_index(cs@, anchor_start_ms, 0) == Some(k as int) && k < cs.len(),
            None => anchor_index(cs@, anchor_start_ms, 0) is None,
        },
{
    let mut i: usize = 0;
    while i < cs.len()
        invariant
            i <= cs.len(),
            anchor_index(cs@, anchor_start_ms, 0) == anchor_index(cs@, anchor_start_ms, i as int),
        decreases cs.len() - i,
    {
        let d: i128 = cs[i].start_ms as i128 - anchor_start_ms as i128;
        if -(ANCHOR_TOLERANCE_MS as i128) < d && d < ANCHOR_TOLERANCE_MS as i128 {
            return Some(i);
        }
        i = i + 1;
    }
    None
}

/// Chooses the neighbours of an anchor among `window`, the captions of its
/// video near it, sorted by start.
pub fn select_neighbors(
    window: &Vec<Caption>,
    anchor_start_ms: i64,
    anchor_end_ms: i64,
    before: usize,
    after: usize,
) -> (r: (Vec<Caption>, Vec<Caption>))
    ensures
        (r.0@, r.1@) == neighbors(
            window@,
            anchor_start_ms,
            anchor_end_ms,
            before as int,
            after as int,
        ),
{
    match find_anchor(window, anchor_start_ms) {
        Some(k) => {
            let from = if k >= before {
                k - before
            } else {
                0
            };
            let prev = copy_range(window, from, k);
            let rest = window.len() - (k + 1);
            let to = if rest > after {
                k + 1 + after
            } else {
                window.len()
            };
            let next = copy_range(window, k + 1, to);
            assert(prev@ =~= last_k(window@.take(k as int), before as int));
            assert(next@ =~= first_k(window@.skip(k + 1), after as int));
            (prev, next)
        },
        None => {
            let mut prev: Vec<Caption> = Vec::new();
            let mut next: Vec<Caption> = Vec::new();
            for i in 0..window.len()
                invariant
                    prev@ == starting_before(window@.take(i as int), anchor_start_ms),
                    next@ == starting_after(window@.take(i as int), anchor_end_ms),
            {
                assert(window@.take(i + 1).drop_last() =~= window@.take(i as int));
                if window[i].start_ms < anchor_start_ms {
                    prev.push(copy_caption(&window[i]));
                }
                if window[i].start_ms > anchor_end_ms {
                    next.push(copy_caption(&window[i]));
                }
            }
            assert(window@.take(window.len() as int) =~= window@);
            let p = if prev.len() > before {
                copy_range(&prev, prev.len() - before, prev.len())
            } else {
                prev
            };
            let q = if next.len() > after {
                copy_range(&next, 0, after)
            } else {
                next
            };
            (p, q)
        },
    }
}

} // verus!
