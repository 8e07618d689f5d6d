//! Intervals of time: what they cover together, and what they leave idle. Times
//! are integers of nanoseconds.

use vstd::prelude::*;

use crate::groups;
use crate::order;
use crate::order::order;

verus! {

/// From `start` up to `end`.
#[derive(Debug, Clone, Copy, PartialEq, Eq, Structural)]
pub struct Interval {
    pub start: i64,
    pub end: i64,
}

/// A launch, by when it started and how long it took.
#[derive(Debug, Clone, Copy, PartialEq, Eq, Structural)]
pub struct Span {
    pub start: i64,
    pub duration: i64,
}

/// More intervals than this do not fit in memory.
pub const MOST_INTERVALS: u64 = 0x0fff_ffff_ffff_ffff;

/// No interval ends before it starts.
pub open spec fn forward(v: Seq<Interval>) -> bool {
    forall|i: int| 0 <= i < v.len() ==> (#[trigger] v[i]).start <= v[i].end
}

/// The intervals are in the order of their starts.
pub open spec fn by_start_order(v: Seq<Interval>) -> bool {
    forall|i: int, j: int|
        0 <= i <= j < v.len() ==> (#[trigger] v[i]).start <= (#[trigger] v[j]).start
}

pub open spec fn starts(v: Seq<Interval>) -> Seq<int> {
    Seq::new(v.len(), |i: int| v[i].start as int)
}

/// The intervals in the order of their starts; those that start together keep
/// their order.
pub open spec fn sorted(v: Seq<Interval>) -> Seq<Interval> {
    groups::picked(v, order::order_of(starts(v)))
}

proof fn sorted_is_sorted(v: Seq<Interval>)
    ensures
        by_start_order(sorted(v)),
        sorted(v).len() == v.len(),
        forward(v) ==> forward(sorted(v)),
        forall|i: int| 0 <= i < v.len() ==> sorted(v).contains(#[trigger] v[i]),
{
    order::there_is_an_order(starts(v));
    let p = order::order_of(starts(v));
    let s = sorted(v);
    assert forall|i: int, j: int| 0 <= i <= j < s.len() implies (#[trigger] s[i]).start <= (
    #[trigger] s[j]).start by {
        if i < j {
            assert(order::before(starts(v), p[i], p[j]));
        }
    }
    assert forall|i: int| 0 <= i < v.len() implies s.contains(#[trigger] v[i]) by {
        assert(p.contains(i));
        let k = choose|k: int| 0 <= k < p.len() && p[k] == i;
        assert(s[k] == v[i]);
    }
}

fn sort_by_start(v: &[Interval]) -> (r: Vec<Interval>)
    ensures
        r@ == sorted(v@),
        r@.len() == v@.len(),
        by_start_order(r@),
        forward(v@) ==> forward(r@),
        forall|i: int| 0 <= i < v@.len() ==> r@.contains(#[trigger] v@[i]),
{
    let mut keys: Vec<i128> = Vec::new();
    let mut i: usize = 0;
    while i < v.len()
        invariant
            i <= v@.len(),
            order::ints(keys@) =~= starts(v@).take(i as int),
        decreases v@.len() - i,
    {
        let ghost before = keys@;
        keys.push(v[i].start as i128);
        assert(order::ints(keys@) =~= order::ints(before).push(v@[i as int].start as int));
        i = i + 1;
    }
    assert(order::ints(keys@) =~= starts(v@));
    let p = order(&keys);
    let mut out: Vec<Interval> = Vec::new();
    let mut i: usize = 0;
    while i < p.len()
        invariant
            i <= p@.len(),
            keys@.len() == v@.len(),
            forall|k: int| 0 <= k < p@.len() ==> (#[trigger] p@[k]) < keys@.len(),
            order::positions(p@) == order::order_of(starts(v@)),
            out@ =~= sorted(v@).take(i as int),
        decreases p@.len() - i,
    {
        assert(order::positions(p@)[i as int] == p@[i as int]);
        out.push(v[p[i]]);
        i = i + 1;
    }
    assert(out@ =~= sorted(v@));
    proof {
        sorted_is_sorted(v@);
    }
    out
}

// ---------------------------------------------------------------------------
// Merging
// ---------------------------------------------------------------------------

pub open spec fn later(a: i64, b: i64) -> i64 {
    if b > a {
        b
    } else {
        a
    }
}

/// The intervals from `i` on, merged with one that is open from `s` to `e`.
pub open spec fn merged_from(v: Seq<Interval>, i: int, s: i64, e: i64) -> Seq<Interval>
    decreases v.len() - i,
{
    if i < 0 || i >= v.len() {
        seq![Interval { start: s, end: e }]
    } else if v[i].start <= e {
        merged_from(v, i + 1, s, later(e, v[i].end))
    } else {
        seq![Interval { start: s, end: e }] + merged_from(v, i + 1, v[i].start, v[i].end)
    }
}

/// Each interval joined with those that overlap it or adjoin it.
pub open spec fn merged(v: Seq<Interval>) -> Seq<Interval> {
    if v.len() == 0 {
        v
    } else {
        merged_from(v, 1, v[0].start, v[0].end)
    }
}

/// Joins intervals that overlap or adjoin each other. They are given in the
/// order of their starts.
pub fn merge_intervals(v: &[Interval]) -> (r: Vec<Interval>)
    ensures
        r@ == merged(v@),
        r@.len() <= v@.len(),
{
    let mut out: Vec<Interval> = Vec::new();
    if v.len() == 0 {
        assert(out@ =~= merged(v@));
        return out;
    }
    let mut s: i64 = v[0].start;
    let mut e: i64 = v[0].end;
    let mut i: usize = 1;
    assert(out@ + merged_from(v@, 1, s, e) =~= merged(v@));
    while i < v.len()
        invariant
            1 <= i <= v@.len(),
            out@.len() < i,
            out@ + merged_from(v@, i as int, s, e) == merged(v@),
        decreases v@.len() - i,
    {
        if v[i].start <= e {
            if v[i].end > e {
                e = v[i].end;
            }
        } else {
            let ghost before = out@;
            let ghost rest = merged_from(v@, i + 1, v@[i as int].start, v@[i as int].end);
            out.push(Interval { start: s, end: e });
            assert(before + (seq![Interval { start: s, end: e }] + rest) =~= out@ + rest);
            s = v[i].start;
            e = v[i].end;
        }
        i = i + 1;
    }
    out.push(Interval { start: s, end: e });
    assert(out@ =~= merged(v@));
    out
}

/// A moment lies in one of the intervals.
pub open spec fn covered(v: Seq<Interval>, t: int) -> bool {
    exists|i: int| 0 <= i < v.len() && (#[trigger] v[i]).start <= t <= v[i].end
}

/// Each interval ends before the next one starts.
pub open spec fn apart(v: Seq<Interval>) -> bool {
    forall|i: int, j: int|
        0 <= i < j < v.len() ==> (#[trigger] v[i]).end < (#[trigger] v[j]).start
}

proof fn merged_from_covers(v: Seq<Interval>, i: int, s: i64, e: i64, t: int)
    requires
        0 <= i <= v.len(),
        by_start_order(v),
        forall|k: int| i <= k < v.len() ==> s <= (#[trigger] v[k]).start,
    ensures
        covered(merged_from(v, i, s, e), t) <==> (s <= t <= e || exists|k: int|
            i <= k < v.len() && (#[trigger] v[k]).start <= t <= v[k].end),
    decreases v.len() - i,
{
    let m = merged_from(v, i, s, e);
    if i >= v.len() {
        assert(m[0] == Interval { start: s, end: e });
    } else if v[i].start <= e {
        merged_from_covers(v, i + 1, s, later(e, v[i].end), t);
    } else {
        merged_from_covers(v, i + 1, v[i].start, v[i].end, t);
        let rest = merged_from(v, i + 1, v[i].start, v[i].end);
        assert(m[0] == Interval { start: s, end: e });
        assert forall|k: int| 0 <= k < rest.len() implies #[trigger] m[k + 1] == rest[k] by {}
        if covered(rest, t) {
            let k = choose|k: int| 0 <= k < rest.len() && (#[trigger] rest[k]).start <= t
                <= rest[k].end;
            assert(m[k + 1] == rest[k]);
        }
        if covered(m, t) && !(s <= t <= e) {
            let k = choose|k: int| 0 <= k < m.len() && (#[trigger] m[k]).start <= t <= m[k].end;
            assert(m[k] == rest[k - 1]);
        }
    }
}

/// Merging covers the moments that were covered before, and no others.
pub proof fn merging_covers_the_same(v: Seq<Interval>, t: int)
    requires
        by_start_order(v),
    ensures
        covered(merged(v), t) <==> covered(v, t),
{
    if v.len() > 0 {
        assert forall|k: int| 1 <= k < v.len() implies v[0].start <= (#[trigger] v[k]).start by {}
        merged_from_covers(v, 1, v[0].start, v[0].end, t);
        if covered(v, t) {
            let k = choose|k: int| 0 <= k < v.len() && (#[trigger] v[k]).start <= t <= v[k].end;
            assert(k == 0 || 1 <= k);
        }
        if v[0].start <= t <= v[0].end {
            assert(v[0].start <= t);
        }
    }
}

proof fn merged_from_is_apart(v: Seq<Interval>, i: int, s: i64, e: i64)
    requires
        0 <= i <= v.len(),
        by_start_order(v),
        forall|k: int| i <= k < v.len() ==> s <= (#[trigger] v[k]).start,
    ensures
        apart(merged_from(v, i, s, e)),
        by_start_order(merged_from(v, i, s, e)),
        forward(v) && s <= e ==> forward(merged_from(v, i, s, e)),
        merged_from(v, i, s, e).len() > 0,
        forall|k: int|
            0 <= k < merged_from(v, i, s, e).len() ==> s <= (#[trigger] merged_from(
                v,
                i,
                s,
                e,
            )[k]).start,
    decreases v.len() - i,
{
    if i < v.len() {
        if v[i].start <= e {
            merged_from_is_apart(v, i + 1, s, later(e, v[i].end));
        } else {
            merged_from_is_apart(v, i + 1, v[i].start, v[i].end);
            let m = merged_from(v, i, s, e);
            let rest = merged_from(v, i + 1, v[i].start, v[i].end);
            assert(m[0] == Interval { start: s, end: e });
            assert forall|k: int| 1 <= k < m.len() implies #[trigger] m[k] == rest[k - 1] by {}
        }
    }
}

/// Merged intervals neither overlap nor adjoin each other, and stay in the order
/// of their starts.
pub proof fn merged_is_apart(v: Seq<Interval>)
    requires
        by_start_order(v),
    ensures
        apart(merged(v)),
        by_start_order(merged(v)),
        forward(v) ==> forward(merged(v)),
{
    if v.len() > 0 {
        assert forall|k: int| 1 <= k < v.len() implies v[0].start <= (#[trigger] v[k]).start by {}
        merged_from_is_apart(v, 1, v[0].start, v[0].end);
    }
}

// ---------------------------------------------------------------------------
// Lengths
// ---------------------------------------------------------------------------

/// The lengths of the first `n` intervals together.
pub open spec fn length(v: Seq<Interval>, n: int) -> int
    decreases n,
{
    if n <= 0 {
        0
    } else {
        length(v, n - 1) + v[n - 1].end - v[n - 1].start
    }
}

pub fn total_length(v: &[Interval]) -> (r: i128)
    requires
        v@.len() <= MOST_INTERVALS,
    ensures
        r == length(v@, v@.len() as int),
{
    let mut total: i128 = 0;
    let mut i: usize = 0;
    while i < v.len()
        invariant
            i <= v@.len() <= MOST_INTERVALS,
            total == length(v@, i as int),
            -0x1_0000_0000_0000_0000 * i <= total <= 0x1_0000_0000_0000_0000 * i,
        decreases v@.len() - i,
    {
        total = total + (v[i].end as i128 - v[i].start as i128);
        i = i + 1;
    }
    total
}

/// How long the device was busy, with work that ran together counted once.
pub fn gpu_busy(v: &[Interval]) -> (r: i128)
    requires
        v@.len() <= MOST_INTERVALS,
    ensures
        r == length(merged(sorted(v@)), merged(sorted(v@)).len() as int),
{
    let s = sort_by_start(v);
    let m = merge_intervals(&s);
    total_length(&m)
}

// ---------------------------------------------------------------------------
// Idle gaps
// ---------------------------------------------------------------------------

/// A time in which nothing ran.
#[derive(Debug, Clone, Copy, PartialEq, Eq, Structural)]
pub struct Gap {
    pub start: i64,
    pub duration: i128,
}

/// Gaps up to this long are not reported.
pub const SHORTEST_GAP: i128 = 1000;

/// The gaps between the intervals from `i` on, where those before end at `e`.
pub open spec fn gaps_from(v: Seq<Interval>, i: int, e: i64) -> Seq<Gap>
    decreases v.len() - i,
{
    if i < 0 || i >= v.len() {
        Seq::empty()
    } else if v[i].start <= e {
        gaps_from(v, i + 1, later(e, v[i].end))
    } else {
        let rest = gaps_from(v, i + 1, v[i].end);
        if v[i].start - e > SHORTEST_GAP {
            seq![Gap { start: e, duration: (v[i].start - e) as i128 }] + rest
        } else {
            rest
        }
    }
}

/// The gaps between intervals in the order of their starts.
pub open spec fn gaps(v: Seq<Interval>) -> Seq<Gap> {
    if v.len() == 0 {
        Seq::empty()
    } else {
        gaps_from(v, 1, v[0].end)
    }
}

/// The times in which nothing ran, neither a kernel nor a transfer, in order.
pub fn compute_gpu_gaps(work: &[Interval]) -> (r: Vec<Gap>)
    ensures
        r@ == gaps(sorted(work@)),
        r@.len() <= work@.len(),
{
    let v = sort_by_start(work);
    let mut out: Vec<Gap> = Vec::new();
    if v.len() == 0 {
        assert(out@ =~= gaps(v@));
        return out;
    }
    let mut e: i64 = v[0].end;
    let mut i: usize = 1;
    assert(out@ + gaps_from(v@, 1, e) =~= gaps(v@));
    while i < v.len()
        invariant
            1 <= i <= v@.len(),
            out@.len() < i,
            out@ + gaps_from(v@, i as int, e) == gaps(v@),
        decreases v@.len() - i,
    {
        if v[i].start <= e {
            if v[i].end > e {
                e = v[i].end;
            }
        } else {
            let gap: i128 = v[i].start as i128 - e as i128;
            let ghost before = out@;
            let ghost rest = gaps_from(v@, i + 1, v@[i as int].end);
            if gap > SHORTEST_GAP {
                out.push(Gap { start: e, duration: gap });
                assert(before + (seq![Gap { start: e, duration: gap }] + rest) =~= out@ + rest);
            }
            e = v[i].end;
        }
        i = i + 1;
    }
    assert(out@ =~= gaps(v@));
    out
}

/// An interval is over when the gap begins, or starts when the gap is over or
/// later.
pub open spec fn clear_of(g: Gap, w: Interval) -> bool {
    w.end <= g.start || g.start + g.duration <= w.start
}

proof fn gaps_from_are_idle(v: Seq<Interval>, i: int, e: i64)
    requires
        0 <= i <= v.len(),
        by_start_order(v),
        forward(v),
        forall|k: int| 0 <= k < i ==> (#[trigger] v[k]).end <= e,
    ensures
        forall|n: int, k: int|
            0 <= n < gaps_from(v, i, e).len() && 0 <= k < v.len() ==> clear_of(
                #[trigger] gaps_from(v, i, e)[n],
                #[trigger] v[k],
            ),
        forall|n: int|
            0 <= n < gaps_from(v, i, e).len() ==> (#[trigger] gaps_from(v, i, e)[n]).duration
                > SHORTEST_GAP && gaps_from(v, i, e)[n].start >= e,
        forall|n: int, m: int|
            0 <= n < m < gaps_from(v, i, e).len() ==> (#[trigger] gaps_from(v, i, e)[n]).start
                + gaps_from(v, i, e)[n].duration <= (#[trigger] gaps_from(v, i, e)[m]).start,
    decreases v.len() - i,
{
    if i < v.len() {
        let next = if v[i].start <= e {
            later(e, v[i].end)
        } else {
            v[i].end
        };
        gaps_from_are_idle(v, i + 1, next);
        let g = gaps_from(v, i, e);
        let rest = gaps_from(v, i + 1, next);
        if v[i].start > e && v[i].start - e > SHORTEST_GAP {
            let first = Gap { start: e, duration: (v[i].start - e) as i128 };
            assert(g == seq![first] + rest);
            assert(g[0] == first);
            assert forall|n: int| 1 <= n < g.len() implies #[trigger] g[n] == rest[n - 1] by {}
            assert forall|k: int| 0 <= k < v.len() implies clear_of(first, #[trigger] v[k]) by {
                if k >= i {
                    assert(v[i].start <= v[k].start);
                }
            }
            assert forall|n: int, k: int|
                0 <= n < g.len() && 0 <= k < v.len() implies clear_of(
                #[trigger] g[n],
                #[trigger] v[k],
            ) by {
                if n > 0 {
                    assert(clear_of(rest[n - 1], v[k]));
                }
            }
        }
    }
}

/// Nothing runs in a gap, a gap is longer than the limit, and gaps come one
/// after the other.
pub proof fn gaps_are_idle(work: Seq<Interval>)
    requires
        forward(work),
    ensures
        forall|n: int, k: int|
            0 <= n < gaps(sorted(work)).len() && 0 <= k < work.len() ==> clear_of(
                #[trigger] gaps(sorted(work))[n],
                #[trigger] work[k],
            ),
        forall|n: int|
            0 <= n < gaps(sorted(work)).len() ==> (#[trigger] gaps(sorted(work))[n]).duration
                > SHORTEST_GAP,
        forall|n: int, m: int|
            0 <= n < m < gaps(sorted(work)).len() ==> (#[trigger] gaps(sorted(work))[n]).start
                + gaps(sorted(work))[n].duration <= (#[trigger] gaps(sorted(work))[m]).start,
{
    let v = sorted(work);
    sorted_is_sorted(work);
    if v.len() > 0 {
        gaps_from_are_idle(v, 1, v[0].end);
        assert forall|n: int, k: int|
            0 <= n < gaps(v).len() && 0 <= k < work.len() implies clear_of(
            #[trigger] gaps(v)[n],
            #[trigger] work[k],
        ) by {
            assert(v.contains(work[k]));
            let j = choose|j: int| 0 <= j < v.len() && v[j] == work[k];
            assert(clear_of(gaps_from(v, 1, v[0].end)[n], v[j]));
        }
    }
}

/// The first `n` gaps together.
pub open spec fn idle(g: Seq<Gap>, n: int) -> int
    decreases n,
{
    if n <= 0 {
        0
    } else {
        idle(g, n - 1) + g[n - 1].duration
    }
}

/// The gaps from the longest down; equally long ones keep their order.
pub open spec fn longest_first(g: Seq<Gap>) -> Seq<Gap> {
    groups::picked(g, order::order_of(Seq::new(g.len(), |i: int| -g[i].duration)))
}

/// What is shown of the idle times.
#[derive(Debug)]
pub struct IdleReport {
    pub count: usize,
    pub total: i128,
    pub longest: Vec<Gap>,
}

/// All idle times together, and the `n` longest of them.
pub fn idle_report(work: &[Interval], n: usize) -> (r: IdleReport)
    requires
        work@.len() <= MOST_INTERVALS,
    ensures
        ({
            let g = gaps(sorted(work@));
            let shown = if n < g.len() {
                n as int
            } else {
                g.len() as int
            };
            &&& r.count == g.len()
            &&& r.total == idle(g, g.len() as int)
            &&& r.longest@ == longest_first(g).take(shown)
        }),
{
    let g = compute_gpu_gaps(work);
    let mut total: i128 = 0;
    let mut keys: Vec<i128> = Vec::new();
    let mut i: usize = 0;
    proof {
        gaps_are_short(sorted(work@));
    }
    while i < g.len()
        invariant
            i <= g@.len() <= MOST_INTERVALS,
            forall|k: int|
                0 <= k < g@.len() ==> 0 <= (#[trigger] g@[k]).duration <= 0x1_0000_0000_0000_0000,
            total == idle(g@, i as int),
            0 <= total <= 0x1_0000_0000_0000_0000 * i,
            order::ints(keys@) =~= Seq::new(i as nat, |k: int| -g@[k].duration),
        decreases g@.len() - i,
    {
        let ghost before = keys@;
        total = total + g[i].duration;
        keys.push(-g[i].duration);
        assert(order::ints(keys@) =~= order::ints(before).push(-g@[i as int].duration));
        i = i + 1;
    }
    assert(order::ints(keys@) =~= Seq::new(g@.len(), |k: int| -g@[k].duration));
    let p = order(&keys);
    let shown: usize = if n < g.len() {
        n
    } else {
        g.len()
    };
    let mut longest: Vec<Gap> = Vec::new();
    let mut i: usize = 0;
    while i < shown
        invariant
            i <= shown <= p@.len(),
            p@.len() == g@.len(),
            keys@.len() == g@.len(),
            forall|k: int| 0 <= k < p@.len() ==> (#[trigger] p@[k]) < keys@.len(),
            groups::picked(g@, order::positions(p@)) == longest_first(g@),
            longest@ =~= longest_first(g@).take(i as int),
        decreases shown - i,
    {
        assert(order::positions(p@)[i as int] == p@[i as int]);
        longest.push(g[p[i]]);
        i = i + 1;
    }
    IdleReport { count: g.len(), total, longest }
}

proof fn gaps_from_are_short(v: Seq<Interval>, i: int, e: i64)
    ensures
        forall|n: int|
            0 <= n < gaps_from(v, i, e).len() ==> 0 <= (#[trigger] gaps_from(
                v,
                i,
                e,
            )[n]).duration <= 0x1_0000_0000_0000_0000,
    decreases v.len() - i,
{
    if i < 0 || i >= v.len() {
        assert(gaps_from(v, i, e).len() == 0);
    } else {
        if v[i].start <= e {
            gaps_from_are_short(v, i + 1, later(e, v[i].end));
            assert(gaps_from(v, i, e) == gaps_from(v, i + 1, later(e, v[i].end)));
        } else {
            gaps_from_are_short(v, i + 1, v[i].end);
            let g = gaps_from(v, i, e);
            let rest = gaps_from(v, i + 1, v[i].end);
            assert forall|n: int| 0 <= n < g.len() implies 0 <= (#[trigger] g[n]).duration
                <= 0x1_0000_0000_0000_0000 by {
                if v[i].start - e > SHORTEST_GAP {
                    let first = Gap { start: e, duration: (v[i].start - e) as i128 };
                    assert(g == seq![first] + rest);
                    if n > 0 {
                        assert(g[n] == rest[n - 1]);
                    }
                } else {
                    assert(g[n] == rest[n]);
                }
            }
        }
    }
}

proof fn gaps_are_short(v: Seq<Interval>)
    ensures
        forall|n: int|
            0 <= n < gaps(v).len() ==> 0 <= (#[trigger] gaps(v)[n]).duration
                <= 0x1_0000_0000_0000_0000,
{
    if v.len() > 0 {
        gaps_from_are_short(v, 1, v[0].end);
    }
}

// ---------------------------------------------------------------------------
// Overlap
// ---------------------------------------------------------------------------

/// How long two intervals run together.
pub open spec fn common(a: Interval, b: Interval) -> int {
    let s = if a.start > b.start {
        a.start
    } else {
        b.start
    };
    let e = if a.end < b.end {
        a.end
    } else {
        b.end
    };
    if s < e {
        e - s
    } else {
        0
    }
}

pub open spec fn at_least_zero(n: int) -> int {
    if n < 0 {
        0
    } else {
        n
    }
}

/// How long an interval runs together with the first `n` of others.
pub open spec fn common_with(a: Interval, v: Seq<Interval>, n: int) -> int
    decreases n,
{
    if n <= 0 {
        0
    } else {
        common_with(a, v, n - 1) + common(a, v[n - 1])
    }
}

/// How long the first `n` transfers run together with the work.
pub open spec fn overlap(transfers: Seq<Interval>, work: Seq<Interval>, n: int) -> int
    decreases n,
{
    if n <= 0 {
        0
    } else {
        overlap(transfers, work, n - 1) + common_with(
            transfers[n - 1],
            work,
            work.len() as int,
        )
    }
}

/// What an interval has in common with the first `n` of others that are apart
/// lies before the start of the next one.
proof fn common_is_bounded(a: Interval, v: Seq<Interval>, n: int)
    requires
        apart(v),
        by_start_order(v),
        0 <= n <= v.len(),
    ensures
        0 <= common_with(a, v, n),
        common_with(a, v, n) <= at_least_zero(a.end - a.start),
        n < v.len() ==> common_with(a, v, n) <= at_least_zero(v[n].start - a.start),
    decreases n,
{
    if n > 0 {
        common_is_bounded(a, v, n - 1);
        if n < v.len() {
            assert(v[n - 1].end < v[n].start);
            assert(v[n - 1].start <= v[n].start);
        }
    }
}

/// Transfers run together with kernels for no longer than they take.
pub proof fn overlap_is_part_of_the_transfers(transfers: Seq<Interval>, kernels: Seq<Interval>, n: int)
    requires
        forward(transfers),
        by_start_order(kernels),
        0 <= n <= transfers.len(),
    ensures
        0 <= overlap(transfers, merged(kernels), n) <= length(transfers, n),
    decreases n,
{
    if n > 0 {
        overlap_is_part_of_the_transfers(transfers, kernels, n - 1);
        merged_is_apart(kernels);
        common_is_bounded(transfers[n - 1], merged(kernels), merged(kernels).len() as int);
    }
}

fn common_time(a: &Interval, b: &Interval) -> (r: i128)
    ensures
        r == common(*a, *b),
{
    let s: i64 = if a.start > b.start {
        a.start
    } else {
        b.start
    };
    let e: i64 = if a.end < b.end {
        a.end
    } else {
        b.end
    };
    if s < e {
        e as i128 - s as i128
    } else {
        0
    }
}

/// How long transfers took, and how long of that kernels ran too. The kernels
/// are given in the order of their starts.
pub fn xfer_kernel_overlap(kernels: &[Interval], transfers: &[Interval]) -> (r: (i128, i128))
    requires
        by_start_order(kernels@),
        transfers@.len() <= MOST_INTERVALS,
    ensures
        r.0 == length(transfers@, transfers@.len() as int),
        r.1 == overlap(transfers@, merged(kernels@), transfers@.len() as int),
{
    let m = merge_intervals(kernels);
    proof {
        merged_is_apart(kernels@);
    }
    let total: i128 = total_length(transfers);
    let mut sum: i128 = 0;
    let mut i: usize = 0;
    while i < transfers.len()
        invariant
            i <= transfers@.len() <= MOST_INTERVALS,
            m@ == merged(kernels@),
            apart(m@),
            by_start_order(m@),
            sum == overlap(transfers@, m@, i as int),
            0 <= sum <= 0x1_0000_0000_0000_0000 * i,
        decreases transfers@.len() - i,
    {
        let t = &transfers[i];
        let mut part: i128 = 0;
        let mut k: usize = 0;
        while k < m.len()
            invariant
                k <= m@.len(),
                apart(m@),
                by_start_order(m@),
                part == common_with(*t, m@, k as int),
                0 <= part <= 0x1_0000_0000_0000_0000,
            decreases m@.len() - k,
        {
            proof {
                common_is_bounded(*t, m@, k + 1);
            }
            part = part + common_time(t, &m[k]);
            k = k + 1;
        }
        sum = sum + part;
        i = i + 1;
    }
    (total, sum)
}

// ---------------------------------------------------------------------------
// Laws
// ---------------------------------------------------------------------------

/// Something runs at a moment: it has begun and is not over.
pub open spec fn runs_at(v: Seq<Interval>, n: int, t: int) -> bool {
    exists|i: int| 0 <= i < n && (#[trigger] v[i]).start <= t < v[i].end
}

/// The number of moments from `lo` up to `hi` at which one of the first `n`
/// intervals runs.
pub open spec fn moments(v: Seq<Interval>, n: int, lo: int, hi: int) -> int
    decreases hi - lo,
{
    if hi <= lo {
        0
    } else {
        moments(v, n, lo, hi - 1) + (if runs_at(v, n, hi - 1) {
            1int
        } else {
            0
        })
    }
}

proof fn merged_from_runs(v: Seq<Interval>, i: int, s: i64, e: i64, t: int)
    requires
        0 <= i <= v.len(),
        by_start_order(v),
        forall|k: int| i <= k < v.len() ==> s <= (#[trigger] v[k]).start,
    ensures
        ({
            let m = merged_from(v, i, s, e);
            runs_at(m, m.len() as int, t) <==> (s <= t < e || exists|k: int|
                i <= k < v.len() && (#[trigger] v[k]).start <= t < v[k].end)
        }),
    decreases v.len() - i,
{
    let m = merged_from(v, i, s, e);
    if i >= v.len() {
        assert(m[0] == Interval { start: s, end: e });
    } else if v[i].start <= e {
        merged_from_runs(v, i + 1, s, later(e, v[i].end), t);
    } else {
        merged_from_runs(v, i + 1, v[i].start, v[i].end, t);
        let rest = merged_from(v, i + 1, v[i].start, v[i].end);
        assert(m[0] == Interval { start: s, end: e });
        assert forall|k: int| 0 <= k < rest.len() implies #[trigger] m[k + 1] == rest[k] by {}
        if runs_at(rest, rest.len() as int, t) {
            let k = choose|k: int|
                0 <= k < rest.len() && (#[trigger] rest[k]).start <= t < rest[k].end;
            assert(m[k + 1] == rest[k]);
        }
        if runs_at(m, m.len() as int, t) && !(s <= t < e) {
            let k = choose|k: int| 0 <= k < m.len() && (#[trigger] m[k]).start <= t < m[k].end;
            assert(m[k] == rest[k - 1]);
        }
    }
}

/// Something runs in the merged intervals when something ran before they were
/// merged.
proof fn merging_runs_the_same(v: Seq<Interval>, t: int)
    requires
        by_start_order(v),
    ensures
        runs_at(merged(v), merged(v).len() as int, t) <==> runs_at(v, v.len() as int, t),
{
    if v.len() > 0 {
        assert forall|k: int| 1 <= k < v.len() implies v[0].start <= (#[trigger] v[k]).start by {}
        merged_from_runs(v, 1, v[0].start, v[0].end, t);
        if runs_at(v, v.len() as int, t) {
            let k = choose|k: int| 0 <= k < v.len() && (#[trigger] v[k]).start <= t < v[k].end;
            assert(k == 0 || 1 <= k);
        }
        if v[0].start <= t < v[0].end {
            assert(v[0].start <= t);
        }
    }
}

proof fn one_more(v: Seq<Interval>, n: int, lo: int, hi: int)
    requires
        apart(v),
        forward(v),
        0 <= n < v.len(),
        lo <= v[n].start,
    ensures
        moments(v, n + 1, lo, hi) == moments(v, n, lo, hi) + at_least_zero(
            (if hi < v[n].end {
                hi
            } else {
                v[n].end as int
            }) - v[n].start,
        ),
    decreases hi - lo,
{
    if lo < hi {
        one_more(v, n, lo, hi - 1);
        let t = hi - 1;
        if v[n].start <= t < v[n].end {
            assert(v[n].start <= t);
            assert(runs_at(v, n + 1, t));
            if runs_at(v, n, t) {
                let k = choose|k: int| 0 <= k < n && (#[trigger] v[k]).start <= t < v[k].end;
                assert(v[k].end < v[n].start);
            }
        } else {
            if runs_at(v, n + 1, t) {
                let k = choose|k: int| 0 <= k < n + 1 && (#[trigger] v[k]).start <= t < v[k].end;
                assert(runs_at(v, n, t));
            }
            if runs_at(v, n, t) {
                let k = choose|k: int| 0 <= k < n && (#[trigger] v[k]).start <= t < v[k].end;
                assert(runs_at(v, n + 1, t));
            }
        }
    }
}

proof fn lengths_are_moments(v: Seq<Interval>, n: int, lo: int, hi: int)
    requires
        apart(v),
        forward(v),
        0 <= n <= v.len(),
        forall|i: int| 0 <= i < v.len() ==> lo <= (#[trigger] v[i]).start && v[i].end <= hi,
    ensures
        moments(v, n, lo, hi) == length(v, n),
    decreases n,
{
    if n > 0 {
        lengths_are_moments(v, n - 1, lo, hi);
        one_more(v, n - 1, lo, hi);
        assert(v[n - 1].end <= hi);
    } else {
        nothing_runs(v, lo, hi);
    }
}

proof fn nothing_runs(v: Seq<Interval>, lo: int, hi: int)
    ensures
        moments(v, 0, lo, hi) == 0,
    decreases hi - lo,
{
    if lo < hi {
        nothing_runs(v, lo, hi - 1);
    }
}

proof fn moments_agree(v: Seq<Interval>, u: Seq<Interval>, lo: int, hi: int)
    requires
        forall|t: int| #[trigger]
            runs_at(v, v.len() as int, t) <==> runs_at(u, u.len() as int, t),
    ensures
        moments(v, v.len() as int, lo, hi) == moments(u, u.len() as int, lo, hi),
    decreases hi - lo,
{
    if lo < hi {
        moments_agree(v, u, lo, hi - 1);
        assert(runs_at(v, v.len() as int, hi - 1) <==> runs_at(u, u.len() as int, hi - 1));
    }
}

proof fn merged_from_is_within(v: Seq<Interval>, i: int, s: i64, e: i64, hi: int)
    requires
        0 <= i <= v.len(),
        e <= hi,
        forall|k: int| 0 <= k < v.len() ==> (#[trigger] v[k]).end <= hi,
    ensures
        forall|k: int|
            0 <= k < merged_from(v, i, s, e).len() ==> (#[trigger] merged_from(
                v,
                i,
                s,
                e,
            )[k]).end <= hi,
    decreases v.len() - i,
{
    let m = merged_from(v, i, s, e);
    if i >= v.len() {
        assert(m =~= seq![Interval { start: s, end: e }]);
    } else {
        assert(v[i].end <= hi);
        if v[i].start <= e {
            merged_from_is_within(v, i + 1, s, later(e, v[i].end), hi);
            assert(m == merged_from(v, i + 1, s, later(e, v[i].end)));
        } else {
            merged_from_is_within(v, i + 1, v[i].start, v[i].end, hi);
            let rest = merged_from(v, i + 1, v[i].start, v[i].end);
            assert forall|k: int| 0 <= k < m.len() implies (#[trigger] m[k]).end <= hi by {
                if k > 0 {
                    assert(m[k] == rest[k - 1]);
                }
            }
        }
    }
}

/// The device is busy for as many moments as something runs at: work that runs
/// together counts once, and idle time does not count.
pub proof fn busy_time_is_when_something_runs(work: Seq<Interval>, lo: int, hi: int)
    requires
        forward(work),
        forall|i: int| 0 <= i < work.len() ==> lo <= (#[trigger] work[i]).start && work[i].end <= hi,
    ensures
        length(merged(sorted(work)), merged(sorted(work)).len() as int) == moments(
            work,
            work.len() as int,
            lo,
            hi,
        ),
{
    let v = sorted(work);
    let m = merged(v);
    sorted_is_sorted(work);
    merged_is_apart(v);
    order::there_is_an_order(starts(work));
    let p = order::order_of(starts(work));
    assert forall|i: int| 0 <= i < v.len() implies lo <= (#[trigger] v[i]).start && v[i].end
        <= hi by {
        assert(v[i] == work[p[i]]);
    }
    if v.len() > 0 {
        assert forall|k: int| 1 <= k < v.len() implies v[0].start <= (#[trigger] v[k]).start by {}
        merged_from_is_apart(v, 1, v[0].start, v[0].end);
        merged_from_is_within(v, 1, v[0].start, v[0].end, hi);
        assert(lo <= v[0].start && v[0].end <= hi);
    }
    assert forall|i: int| 0 <= i < m.len() implies lo <= (#[trigger] m[i]).start && m[i].end
        <= hi by {}
    lengths_are_moments(m, m.len() as int, lo, hi);
    assert forall|t: int| #[trigger] runs_at(m, m.len() as int, t) <==> runs_at(
        work,
        work.len() as int,
        t,
    ) by {
        merging_runs_the_same(v, t);
        if runs_at(v, v.len() as int, t) {
            let k = choose|k: int| 0 <= k < v.len() && (#[trigger] v[k]).start <= t < v[k].end;
            assert(work[p[k]].start <= t < work[p[k]].end);
        }
        if runs_at(work, work.len() as int, t) {
            let k = choose|k: int|
                0 <= k < work.len() && (#[trigger] work[k]).start <= t < work[k].end;
            assert(v.contains(work[k]));
            let j = choose|j: int| 0 <= j < v.len() && v[j] == work[k];
            assert(v[j].start <= t < v[j].end);
        }
    }
    moments_agree(m, work, lo, hi);
}

/// Two intervals run together for as long as both run: a moment counts where it
/// lies in both, a transfer counts what its two parts count, and neither counts
/// for longer than it lasts.
pub proof fn common_time_is_when_both_run(a: Interval, b: Interval, t: i64)
    requires
        a.start <= t <= a.end,
        b.start <= b.end,
    ensures
        common(a, b) == common(b, a),
        common(a, b) == common(Interval { start: a.start, end: t }, b) + common(
            Interval { start: t, end: a.end },
            b,
        ),
        t < i64::MAX ==> common(Interval { start: t, end: (t + 1) as i64 }, b) == (if b.start <= t
            < b.end {
            1int
        } else {
            0
        }),
        0 <= common(a, b) <= a.end - a.start,
        b.start <= a.start && a.end <= b.end ==> common(a, b) == a.end - a.start,
{
}

proof fn moment_in_common(t: i64, v: Seq<Interval>, n: int)
    requires
        t < i64::MAX,
        apart(v),
        by_start_order(v),
        0 <= n <= v.len(),
    ensures
        common_with(Interval { start: t, end: (t + 1) as i64 }, v, n) == (if runs_at(v, n, t as int) {
            1int
        } else {
            0
        }),
    decreases n,
{
    if n > 0 {
        moment_in_common(t, v, n - 1);
        let b = v[n - 1];
        if runs_at(v, n - 1, t as int) {
            let k = choose|k: int| 0 <= k < n - 1 && (#[trigger] v[k]).start <= t < v[k].end;
            assert(v[k].end < v[n - 1].start);
            assert(v[k].start <= t < v[k].end);
            assert(runs_at(v, n, t as int));
        } else if b.start <= t < b.end {
            assert(v[n - 1].start <= t);
            assert(runs_at(v, n, t as int));
        } else {
            if runs_at(v, n, t as int) {
                let k = choose|k: int| 0 <= k < n && (#[trigger] v[k]).start <= t < v[k].end;
                assert(runs_at(v, n - 1, t as int));
            }
        }
    }
}

proof fn common_splits(a: Interval, t: i64, v: Seq<Interval>, n: int)
    requires
        a.start <= t <= a.end,
    ensures
        common_with(a, v, n) == common_with(Interval { start: a.start, end: t }, v, n)
            + common_with(Interval { start: t, end: a.end }, v, n),
    decreases n,
{
    if n > 0 {
        common_splits(a, t, v, n - 1);
    }
}

/// A transfer runs together with kernels for as many of its moments as some
/// kernel runs at, however many do.
pub proof fn overlap_is_when_some_kernel_runs(a: Interval, kernels: Seq<Interval>)
    requires
        by_start_order(kernels),
        a.start <= a.end,
    ensures
        common_with(a, merged(kernels), merged(kernels).len() as int) == moments(
            kernels,
            kernels.len() as int,
            a.start as int,
            a.end as int,
        ),
    decreases a.end - a.start,
{
    let m = merged(kernels);
    let n = m.len() as int;
    merged_is_apart(kernels);
    if a.start == a.end {
        common_is_bounded(a, m, n);
    } else {
        let t = (a.end - 1) as i64;
        let front = Interval { start: a.start, end: t };
        overlap_is_when_some_kernel_runs(front, kernels);
        common_splits(a, t, m, n);
        moment_in_common(t, m, n);
        merging_runs_the_same(kernels, t as int);
        assert(a.end == (t + 1) as i64);
    }
}

proof fn idle_stretch(v: Seq<Interval>, i: int, e: i64, a: int, b: int, k: int) -> (n: int)
    requires
        0 <= i <= k < v.len(),
        by_start_order(v),
        forward(v),
        e <= a,
        a + 1000 < b,
        b <= v[k].start,
        forall|j: int| i <= j < v.len() ==> (#[trigger] v[j]).end <= a || b <= v[j].start,
    ensures
        0 <= n < gaps_from(v, i, e).len(),
        gaps_from(v, i, e)[n].start <= a,
        b <= gaps_from(v, i, e)[n].start + gaps_from(v, i, e)[n].duration,
    decreases v.len() - i,
{
    let g = gaps_from(v, i, e);
    assert(v[i].end <= a || b <= v[i].start);
    assert(v[i].start <= v[k].start);
    if v[i].start <= e {
        idle_stretch(v, i + 1, later(e, v[i].end), a, b, k)
    } else if b <= v[i].start {
        assert(g[0] == Gap { start: e, duration: (v[i].start - e) as i128 });
        0
    } else {
        let rest = gaps_from(v, i + 1, v[i].end);
        let n = idle_stretch(v, i + 1, v[i].end, a, b, k);
        if v[i].start - e > SHORTEST_GAP {
            assert(g[n + 1] == rest[n]);
            n + 1
        } else {
            n
        }
    }
}

/// Idle time is not passed over: where nothing runs for more than a microsecond
/// between one piece of work and another, a gap reaches over all of it.
pub proof fn idle_time_is_reported(work: Seq<Interval>, a: int, b: int, first: int, last: int)
    requires
        forward(work),
        0 <= first < work.len(),
        0 <= last < work.len(),
        work[first].end <= a,
        a + 1000 < b,
        b <= work[last].start,
        forall|j: int| 0 <= j < work.len() ==> (#[trigger] work[j]).end <= a || b <= work[j].start,
    ensures
        exists|n: int|
            0 <= n < gaps(sorted(work)).len() && (#[trigger] gaps(sorted(work))[n]).start <= a && b
                <= gaps(sorted(work))[n].start + gaps(sorted(work))[n].duration,
{
    let v = sorted(work);
    sorted_is_sorted(work);
    order::there_is_an_order(starts(work));
    let p = order::order_of(starts(work));
    assert forall|j: int| 0 <= j < v.len() implies (#[trigger] v[j]).end <= a || b
        <= v[j].start by {
        assert(v[j] == work[p[j]]);
    }
    assert(v.contains(work[first]));
    assert(v.contains(work[last]));
    let f = choose|f: int| 0 <= f < v.len() && v[f] == work[first];
    let l = choose|l: int| 0 <= l < v.len() && v[l] == work[last];
    assert(v[0].start <= v[f].start);
    assert(v[0].end <= a || b <= v[0].start);
    assert(v[f].start <= v[f].end);
    assert(l != 0);
    let n = idle_stretch(v, 1, v[0].end, a, b, l);
    assert(gaps(v)[n].start <= a);
}

/// The longest gaps come first, and none is lost: together they are all the idle
/// time.
pub proof fn the_longest_gaps_come_first(g: Seq<Gap>)
    ensures
        longest_first(g).len() == g.len(),
        forall|i: int, j: int|
            0 <= i < j < g.len() ==> (#[trigger] longest_first(g)[i]).duration >= (
            #[trigger] longest_first(g)[j]).duration,
        forall|i: int| 0 <= i < g.len() ==> longest_first(g).contains(#[trigger] g[i]),
        idle(longest_first(g), g.len() as int) == idle(g, g.len() as int),
{
    let keys = Seq::new(g.len(), |i: int| -g[i].duration);
    order::there_is_an_order(keys);
    let p = order::order_of(keys);
    let f = longest_first(g);
    assert forall|i: int, j: int| 0 <= i < j < g.len() implies (#[trigger] f[i]).duration >= (
    #[trigger] f[j]).duration by {
        assert(order::before(keys, p[i], p[j]));
    }
    assert forall|i: int| 0 <= i < g.len() implies f.contains(#[trigger] g[i]) by {
        assert(p.contains(i));
        let k = choose|k: int| 0 <= k < p.len() && p[k] == i;
        assert(f[k] == g[i]);
    }
    let s = Seq::new(g.len(), |i: int| g[i].duration as int);
    order::an_order_keeps_the_sum(keys, p, s);
    idle_is_sum(g, s, g.len() as int);
    idle_is_sum(f, Seq::new(p.len(), |i: int| s[p[i]]), g.len() as int);
}

proof fn idle_is_sum(g: Seq<Gap>, s: Seq<int>, n: int)
    requires
        0 <= n <= g.len(),
        n <= s.len(),
        forall|i: int| 0 <= i < n ==> #[trigger] s[i] == g[i].duration,
    ensures
        idle(g, n) == order::sum_to(s, n),
    decreases n,
{
    if n > 0 {
        idle_is_sum(g, s, n - 1);
    }
}

} // verus!
