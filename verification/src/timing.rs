//! What the durations of a kernel's launches say: medians, warm-up, outliers and
//! the gaps between launches. Times are integers of nanoseconds.

use vstd::prelude::*;

use crate::groups;
use crate::intervals::Span;
use crate::order;
use crate::order::order;

verus! {

pub open spec fn values(v: Seq<i64>) -> Seq<int> {
    Seq::new(v.len(), |i: int| v[i] as int)
}

/// The values in rising order.
pub open spec fn rising(v: Seq<i64>) -> Seq<i64> {
    groups::picked(v, order::order_of(values(v)))
}

/// In rising order no value is followed by a smaller one.
pub proof fn rising_rises(v: Seq<i64>)
    ensures
        rising(v).len() == v.len(),
        forall|i: int, j: int|
            0 <= i <= j < v.len() ==> #[trigger] rising(v)[i] <= #[trigger] rising(v)[j],
        forall|i: int| 0 <= i < v.len() ==> v.contains(#[trigger] rising(v)[i]),
        forall|i: int| 0 <= i < v.len() ==> rising(v).contains(#[trigger] v[i]),
{
    order::there_is_an_order(values(v));
    let p = order::order_of(values(v));
    let s = rising(v);
    assert forall|i: int, j: int| 0 <= i <= j < v.len() implies #[trigger] s[i] <= #[trigger] s[j] by {
        if i < j {
            assert(order::before(values(v), p[i], p[j]));
        }
    }
    assert forall|i: int| 0 <= i < v.len() implies v.contains(#[trigger] s[i]) by {
        assert(v[p[i]] == s[i]);
    }
    assert forall|i: int| 0 <= i < v.len() implies s.contains(#[trigger] v[i]) by {
        assert(p.contains(i));
        let k = choose|k: int| 0 <= k < p.len() && p[k] == i;
        assert(s[k] == v[i]);
    }
}

fn sort_values(v: &[i64]) -> (r: Vec<i64>)
    ensures
        r@ == rising(v@),
        r@.len() == v@.len(),
{
    let mut keys: Vec<i128> = Vec::new();
    let mut i: usize = 0;
    while i < v.len()
        invariant
            i <= v@.len(),
            order::ints(keys@) =~= values(v@).take(i as int),
        decreases v@.len() - i,
    {
        let ghost before = keys@;
        keys.push(v[i] as i128);
        assert(order::ints(keys@) =~= order::ints(before).push(v@[i as int] as int));
        i = i + 1;
    }
    assert(order::ints(keys@) =~= values(v@));
    let p = order(&keys);
    let mut out: Vec<i64> = Vec::new();
    let mut i: usize = 0;
    while i < p.len()
        invariant
            i <= p@.len(),
            keys@.len() == v@.len(),
            forall|k: int| 0 <= k < p@.len() ==> (#[trigger] p@[k]) < keys@.len(),
            order::positions(p@) == order::order_of(values(v@)),
            out@ =~= rising(v@).take(i as int),
        decreases p@.len() - i,
    {
        assert(order::positions(p@)[i as int] == p@[i as int]);
        out.push(v[p[i]]);
        i = i + 1;
    }
    assert(out@ =~= rising(v@));
    proof {
        rising_rises(v@);
    }
    out
}

/// The value in the middle; the upper one of two.
pub open spec fn median(v: Seq<i64>) -> i64 {
    rising(v)[v.len() as int / 2]
}

/// How many of the first `n` values are above a limit.
pub open spec fn above(v: Seq<i64>, limit: int, n: int) -> int
    decreases n,
{
    if n <= 0 {
        0
    } else {
        above(v, limit, n - 1) + (if v[n - 1] > limit {
            1int
        } else {
            0
        })
    }
}

/// How many launches took more than twice the median. Fewer than four launches
/// say nothing, nor does a median of zero.
pub fn tail_over_2x_median(durations: &[i64]) -> (r: Option<usize>)
    ensures
        match r {
            Some(n) => {
                &&& durations@.len() >= 4
                &&& median(durations@) > 0
                &&& n == above(durations@, 2 * median(durations@), durations@.len() as int)
            },
            None => durations@.len() < 4 || median(durations@) <= 0,
        },
{
    let n: usize = durations.len();
    if n < 4 {
        return None;
    }
    let s = sort_values(durations);
    let m: i64 = s[n / 2];
    if m <= 0 {
        return None;
    }
    let limit: i128 = 2 * m as i128;
    let mut count: usize = 0;
    let mut i: usize = 0;
    while i < n
        invariant
            i <= n,
            n == durations@.len(),
            count <= i,
            count == above(durations@, limit as int, i as int),
        decreases n - i,
    {
        if durations[i] as i128 > limit {
            count = count + 1;
        }
        i = i + 1;
    }
    Some(count)
}

// ---------------------------------------------------------------------------
// Warm-up
// ---------------------------------------------------------------------------

/// The median of the second half.
pub open spec fn steady_median(v: Seq<i64>) -> i64 {
    median(v.skip(v.len() as int / 2))
}

/// A launch that takes at most a fifth more than the steady median.
pub open spec fn is_steady(d: i64, median: i64) -> bool {
    5 * d <= 6 * median
}

/// The first steady launch at or after `i`.
pub open spec fn first_steady(v: Seq<i64>, median: i64, i: int) -> Option<int>
    decreases v.len() - i,
{
    if i < 0 || i >= v.len() {
        None
    } else if is_steady(v[i], median) {
        Some(i)
    } else {
        first_steady(v, median, i + 1)
    }
}

/// How many launches come before the first steady one. Fewer than five launches
/// say nothing, nor does a steady median of zero.
pub open spec fn warmup_count(v: Seq<i64>) -> int {
    if v.len() < 5 || steady_median(v) <= 0 {
        0
    } else {
        match first_steady(v, steady_median(v), 0) {
            Some(i) => i,
            None => 0,
        }
    }
}

fn second_half_median(durations: &[i64]) -> (r: i64)
    requires
        durations@.len() > 0,
    ensures
        r == steady_median(durations@),
{
    let n: usize = durations.len();
    let half: usize = n / 2;
    let mut tail: Vec<i64> = Vec::new();
    let mut i: usize = half;
    while i < n
        invariant
            half <= i <= n,
            n == durations@.len(),
            tail@ =~= durations@.subrange(half as int, i as int),
        decreases n - i,
    {
        tail.push(durations[i]);
        i = i + 1;
    }
    assert(tail@ =~= durations@.skip(half as int));
    let s = sort_values(&tail);
    s[tail.len() / 2]
}

/// How many leading launches take over a fifth longer than the steady median,
/// which is that of the second half.
pub fn detect_warmup_count(durations: &[i64]) -> (r: usize)
    ensures
        r == warmup_count(durations@),
{
    if durations.len() < 5 {
        return 0;
    }
    let m: i64 = second_half_median(durations);
    if m <= 0 {
        return 0;
    }
    let mut i: usize = 0;
    while i < durations.len()
        invariant
            i <= durations@.len(),
            first_steady(durations@, m, 0) == first_steady(durations@, m, i as int),
            m == steady_median(durations@),
            m > 0,
            durations@.len() >= 5,
        decreases durations@.len() - i,
    {
        if 5 * durations[i] as i128 <= 6 * m as i128 {
            return i;
        }
        i = i + 1;
    }
    0
}

proof fn none_is_steady(v: Seq<i64>, m: i64, i: int, k: int)
    requires
        0 <= i <= k < v.len(),
        match first_steady(v, m, i) {
            Some(j) => k < j,
            None => true,
        },
    ensures
        !is_steady(v[k], m),
    decreases k - i,
{
    if i < k {
        none_is_steady(v, m, i + 1, k);
    }
}

/// Every launch of the warm-up is slow, and the launch after it is steady.
pub proof fn warmup_ends_with_a_steady_launch(v: Seq<i64>)
    requires
        v.len() >= 5,
        steady_median(v) > 0,
    ensures
        0 <= warmup_count(v) < v.len(),
        is_steady(v[warmup_count(v)], steady_median(v)),
        forall|k: int|
            0 <= k < warmup_count(v) ==> !is_steady(#[trigger] v[k], steady_median(v)),
{
    let m = steady_median(v);
    let half = v.len() as int / 2;
    let tail = v.skip(half);
    rising_rises(tail);
    assert(tail.contains(rising(tail)[tail.len() as int / 2]));
    let j = choose|j: int| 0 <= j < tail.len() && tail[j] == m;
    assert(v[half + j] == m);
    if first_steady(v, m, 0) is None {
        none_is_steady(v, m, 0, half + j);
    }
    first_steady_is_steady(v, m, 0);
    assert forall|k: int| 0 <= k < warmup_count(v) implies !is_steady(#[trigger] v[k], m) by {
        none_is_steady(v, m, 0, k);
    }
}

proof fn first_steady_is_steady(v: Seq<i64>, m: i64, i: int)
    requires
        0 <= i,
    ensures
        first_steady(v, m, i) matches Some(j) ==> i <= j < v.len() && is_steady(v[j], m),
    decreases v.len() - i,
{
    if i < v.len() {
        first_steady_is_steady(v, m, i + 1);
    }
}

/// What the warm-up of a kernel cost.
#[derive(Debug)]
pub struct Warmup {
    pub count: usize,
    pub steady_median: i64,
    pub warmup_total: i128,
    pub steady_total: i128,
}

/// The warm-up of a kernel, where it has one.
pub fn warmup_report(durations: &[i64]) -> (r: Option<Warmup>)
    ensures
        match r {
            Some(w) => {
                &&& w.count == warmup_count(durations@)
                &&& w.count > 0
                &&& w.steady_median == steady_median(durations@)
                &&& w.warmup_total == groups::sum(durations@, w.count as int)
                &&& w.warmup_total + w.steady_total == groups::sum(
                    durations@,
                    durations@.len() as int,
                )
            },
            None => warmup_count(durations@) == 0,
        },
{
    let count: usize = detect_warmup_count(durations);
    if count == 0 {
        return None;
    }
    proof {
        if durations@.len() >= 5 && steady_median(durations@) > 0 {
            warmup_ends_with_a_steady_launch(durations@);
        }
    }
    let mut warmup_total: i128 = 0;
    let mut steady_total: i128 = 0;
    let n: usize = durations.len();
    let mut i: usize = 0;
    while i < n
        invariant
            i <= n,
            n == durations@.len(),
            count < n,
            i <= count ==> steady_total == 0 && warmup_total == groups::sum(
                durations@,
                i as int,
            ),
            i > count ==> warmup_total == groups::sum(durations@, count as int),
            warmup_total + steady_total == groups::sum(durations@, i as int),
            -0x8000_0000_0000_0000 * i <= warmup_total <= 0x8000_0000_0000_0000 * i,
            -0x8000_0000_0000_0000 * i <= steady_total <= 0x8000_0000_0000_0000 * i,
        decreases n - i,
    {
        if i < count {
            warmup_total = warmup_total + durations[i] as i128;
        } else {
            steady_total = steady_total + durations[i] as i128;
        }
        i = i + 1;
    }
    Some(
        Warmup {
            count,
            steady_median: second_half_median(durations),
            warmup_total,
            steady_total,
        },
    )
}

// ---------------------------------------------------------------------------
// Outliers
// ---------------------------------------------------------------------------

/// The position of the `percent`-th percentile of `n` values: its nearest rank.
pub open spec fn rank(percent: int, n: int) -> int {
    let k = (percent * n + 99) / 100 - 1;
    if k < 0 {
        0
    } else if k > n - 1 {
        n - 1
    } else {
        k
    }
}

fn nearest_rank(percent: u64, n: usize) -> (r: usize)
    requires
        n > 0,
        percent <= 100,
    ensures
        r == rank(percent as int, n as int),
        r < n,
{
    assert(percent * n <= 100 * n) by (nonlinear_arith)
        requires
            percent <= 100,
    ;
    assert(percent * n >= 0) by (nonlinear_arith);
    let up: u128 = (percent as u128 * n as u128 + 99) / 100;
    if up == 0 {
        0
    } else if up > n as u128 {
        n - 1
    } else {
        (up - 1) as usize
    }
}

/// Where the slowest launches lie.
#[derive(Debug, Clone, Copy, PartialEq, Eq, Structural)]
pub enum Clustering {
    /// Too few launches to tell.
    TooFew,
    /// The slowest is hardly slower than the median.
    Uniform,
    Early,
    Late,
    Spread,
}

pub open spec fn durations(v: Seq<Span>) -> Seq<i64> {
    Seq::new(v.len(), |i: int| v[i].duration)
}

/// The launches from the slowest down; equally slow ones keep their order.
pub open spec fn slowest_first(v: Seq<Span>) -> Seq<int> {
    order::order_of(Seq::new(v.len(), |i: int| -(v[i].duration as int)))
}

/// How many launches are shown: a tenth of them, but three at least.
pub open spec fn shown(n: int) -> int {
    let tenth = n / 10;
    let some = if tenth > 3 {
        tenth
    } else {
        3
    };
    if some < n {
        some
    } else {
        n
    }
}

/// How many of the first `k` positions lie in the first third of `n`.
pub open spec fn in_first_third(p: Seq<int>, n: int, k: int) -> int
    decreases k,
{
    if k <= 0 {
        0
    } else {
        in_first_third(p, n, k - 1) + (if p[k - 1] < n / 3 {
            1int
        } else {
            0
        })
    }
}

/// How many of the first `k` positions lie in the last third of `n`.
pub open spec fn in_last_third(p: Seq<int>, n: int, k: int) -> int
    decreases k,
{
    if k <= 0 {
        0
    } else {
        in_last_third(p, n, k - 1) + (if p[k - 1] >= n / 3 && p[k - 1] >= n - n / 3 {
            1int
        } else {
            0
        })
    }
}

pub open spec fn clustering(
    n: int,
    median: i64,
    worst: i64,
    early: int,
    late: int,
    top: int,
) -> Clustering {
    if n < 20 {
        Clustering::TooFew
    } else if (if median > 0 {
        2 * worst < 3 * median
    } else {
        worst <= 0
    }) {
        Clustering::Uniform
    } else if early > 2 * late && early >= top / 2 {
        Clustering::Early
    } else if late > 2 * early && late >= top / 2 {
        Clustering::Late
    } else {
        Clustering::Spread
    }
}

/// The slowest launches of a kernel.
#[derive(Debug)]
pub struct Outliers {
    pub median: i64,
    pub p90: i64,
    pub p99: i64,
    pub worst: i64,
    /// The launches, by their number, the slowest first.
    pub slowest: Vec<usize>,
    pub early: usize,
    pub late: usize,
    pub clustering: Clustering,
}

/// The slowest launches of a kernel, which are given in the order of their
/// starts. Fewer than four say nothing.
pub fn outliers(v: &[Span]) -> (r: Option<Outliers>)
    ensures
        match r {
            Some(o) => {
                let n = v@.len() as int;
                let s = rising(durations(v@));
                let p = slowest_first(v@);
                let top = shown(n);
                &&& n >= 4
                &&& o.median == s[rank(50, n)]
                &&& o.p90 == s[rank(90, n)]
                &&& o.p99 == s[rank(99, n)]
                &&& o.worst == s[n - 1]
                &&& order::positions(o.slowest@) == p.take(top)
                &&& o.early == in_first_third(p, n, top)
                &&& o.late == in_last_third(p, n, top)
                &&& o.clustering == clustering(
                    n,
                    o.median,
                    o.worst,
                    o.early as int,
                    o.late as int,
                    top,
                )
            },
            None => v@.len() < 4,
        },
{
    let n: usize = v.len();
    if n < 4 {
        return None;
    }
    let mut long: Vec<i64> = Vec::new();
    let mut keys: Vec<i128> = Vec::new();
    let mut i: usize = 0;
    while i < n
        invariant
            i <= n,
            n == v@.len(),
            long@ =~= durations(v@).take(i as int),
            order::ints(keys@) =~= Seq::new(i as nat, |k: int| -(v@[k].duration as int)),
        decreases n - i,
    {
        let ghost before = keys@;
        long.push(v[i].duration);
        keys.push(-(v[i].duration as i128));
        assert(order::ints(keys@) =~= order::ints(before).push(-(v@[i as int].duration as int)));
        i = i + 1;
    }
    assert(long@ =~= durations(v@));
    assert(order::ints(keys@) =~= Seq::new(v@.len(), |k: int| -(v@[k].duration as int)));
    let s = sort_values(&long);
    let p = order(&keys);
    let tenth: usize = n / 10;
    let some: usize = if tenth > 3 {
        tenth
    } else {
        3
    };
    let top: usize = if some < n {
        some
    } else {
        n
    };
    let third: usize = n / 3;
    let ghost pp = order::positions(p@);
    let mut slowest: Vec<usize> = Vec::new();
    let mut early: usize = 0;
    let mut late: usize = 0;
    let mut k: usize = 0;
    while k < top
        invariant
            k <= top <= n,
            n == p@.len(),
            third == n / 3,
            pp == order::positions(p@),
            early <= k,
            late <= k,
            slowest@ =~= p@.take(k as int),
            early == in_first_third(pp, n as int, k as int),
            late == in_last_third(pp, n as int, k as int),
        decreases top - k,
    {
        let idx: usize = p[k];
        assert(pp[k as int] == idx);
        slowest.push(idx);
        if idx < third {
            early = early + 1;
        } else if idx >= n - third {
            late = late + 1;
        }
        k = k + 1;
    }
    assert(order::positions(slowest@) =~= pp.take(top as int));
    let median: i64 = s[nearest_rank(50, n)];
    let worst: i64 = s[n - 1];
    let uniform: bool = if median > 0 {
        2 * (worst as i128) < 3 * (median as i128)
    } else {
        worst <= 0
    };
    let clustering = if n < 20 {
        Clustering::TooFew
    } else if uniform {
        Clustering::Uniform
    } else if early as u128 > 2 * late as u128 && early >= top / 2 {
        Clustering::Early
    } else if late as u128 > 2 * early as u128 && late >= top / 2 {
        Clustering::Late
    } else {
        Clustering::Spread
    };
    Some(
        Outliers {
            median,
            p90: s[nearest_rank(90, n)],
            p99: s[nearest_rank(99, n)],
            worst,
            slowest,
            early,
            late,
            clustering,
        },
    )
}

/// Percentiles rise: the median is at most the ninetieth, that at most the
/// ninety-ninth, and that at most the slowest.
pub proof fn percentiles_rise(v: Seq<i64>)
    requires
        v.len() > 0,
    ensures
        ({
            let n = v.len() as int;
            let s = rising(v);
            s[rank(50, n)] <= s[rank(90, n)] <= s[rank(99, n)] <= s[n - 1]
        }),
{
    rising_rises(v);
    let n = v.len() as int;
    assert(0 <= rank(50, n) <= rank(90, n) <= rank(99, n) <= n - 1);
}

/// For an odd number of launches the fiftieth percentile is the median.
pub proof fn half_is_the_median(v: Seq<i64>)
    requires
        v.len() % 2 == 1,
    ensures
        rising(v)[rank(50, v.len() as int)] == median(v),
{
    let n = v.len() as int;
    assert((50 * n + 99) / 100 - 1 == n / 2);
}

// ---------------------------------------------------------------------------
// Gaps
// ---------------------------------------------------------------------------

/// The time between the end of launch `i` and the start of the next; negative
/// where they overlap.
pub open spec fn gap_after(v: Seq<Span>, i: int) -> int {
    v[i + 1].start - (v[i].start + v[i].duration)
}

/// The gaps between consecutive launches.
pub fn launch_gaps(v: &[Span]) -> (r: Vec<i128>)
    ensures
        r@.len() == (if v@.len() == 0 {
            0
        } else {
            v@.len() - 1
        }),
        forall|i: int|
            0 <= i < r@.len() ==> #[trigger] r@[i] == gap_after(v@, i) && r@[i] <= LONGEST_TIME,
{
    let mut out: Vec<i128> = Vec::new();
    let mut i: usize = 1;
    while i < v.len()
        invariant
            1 <= i,
            i <= v@.len() || (v@.len() == 0 && i == 1),
            out@.len() == i - 1,
            forall|k: int|
                0 <= k < out@.len() ==> #[trigger] out@[k] == gap_after(v@, k) && out@[k]
                    <= LONGEST_TIME,
        decreases v@.len() - i,
    {
        out.push(v[i].start as i128 - (v[i - 1].start as i128 + v[i - 1].duration as i128));
        i = i + 1;
    }
    out
}

/// What is shown of times: how many there are, their sum, the shortest and the
/// longest.
#[derive(Debug, Clone, Copy, PartialEq, Eq, Structural)]
pub struct Summary {
    pub count: usize,
    pub total: i128,
    pub shortest: i128,
    pub longest: i128,
}

/// The summary of the first `n` times that are not negative; none where there
/// are none.
pub open spec fn summary_of(v: Seq<i128>, n: int) -> Option<(int, int, int, int)>
    decreases n,
{
    if n <= 0 {
        None
    } else {
        let t = v[n - 1] as int;
        match summary_of(v, n - 1) {
            Some((count, total, shortest, longest)) => if t < 0 {
                Some((count, total, shortest, longest))
            } else {
                Some(
                    (
                        count + 1,
                        total + t,
                        if t < shortest {
                            t
                        } else {
                            shortest
                        },
                        if t > longest {
                            t
                        } else {
                            longest
                        },
                    ),
                )
            },
            None => if t < 0 {
                None
            } else {
                Some((1, t, t, t))
            },
        }
    }
}

/// The times that are summed up stay below this limit.
pub const LONGEST_TIME: i128 = 0x4_0000_0000_0000_0000;

/// Sums up the times that are not negative.
pub fn summarize(v: &[i128]) -> (r: Option<Summary>)
    requires
        v@.len() <= 0x0fff_ffff_ffff_ffff,
        forall|i: int| 0 <= i < v@.len() ==> #[trigger] v@[i] <= LONGEST_TIME,
    ensures
        match r {
            Some(s) => summary_of(v@, v@.len() as int) == Some(
                (s.count as int, s.total as int, s.shortest as int, s.longest as int),
            ),
            None => summary_of(v@, v@.len() as int) is None,
        },
{
    let mut found: Option<Summary> = None;
    let mut i: usize = 0;
    while i < v.len()
        invariant
            i <= v@.len() <= 0x0fff_ffff_ffff_ffff,
            forall|k: int| 0 <= k < v@.len() ==> #[trigger] v@[k] <= LONGEST_TIME,
            match found {
                Some(s) => {
                    &&& summary_of(v@, i as int) == Some(
                        (s.count as int, s.total as int, s.shortest as int, s.longest as int),
                    )
                    &&& s.count <= i
                    &&& 0 <= s.total <= LONGEST_TIME * i
                },
                None => summary_of(v@, i as int) is None,
            },
        decreases v@.len() - i,
    {
        let t: i128 = v[i];
        if t >= 0 {
            found = Some(
                match found {
                    Some(s) => Summary {
                        count: s.count + 1,
                        total: s.total + t,
                        shortest: if t < s.shortest {
                            t
                        } else {
                            s.shortest
                        },
                        longest: if t > s.longest {
                            t
                        } else {
                            s.longest
                        },
                    },
                    None => Summary { count: 1, total: t, shortest: t, longest: t },
                },
            );
        }
        i = i + 1;
    }
    found
}

/// The first of the starts at or after position `k` that is not before a
/// moment.
pub open spec fn next_start(starts: Seq<i64>, t: int, k: int) -> int
    decreases starts.len() - k,
{
    if k < 0 || k >= starts.len() || starts[k] >= t {
        k
    } else {
        next_start(starts, t, k + 1)
    }
}

/// The idle times from the ends at or after `i` to the next start each. Starts
/// that were passed over, up to position `k`, are not gone back to.
pub open spec fn idle_from(ends: Seq<i64>, starts: Seq<i64>, i: int, k: int) -> Seq<i128>
    decreases ends.len() - i,
{
    if i < 0 || i >= ends.len() {
        Seq::empty()
    } else {
        let next = next_start(starts, ends[i] as int, k);
        let rest = idle_from(ends, starts, i + 1, next);
        if next < starts.len() {
            seq![(starts[next] - ends[i]) as i128] + rest
        } else {
            rest
        }
    }
}

/// The idle times between the ends of one operator's kernels and the next start
/// of another's.
pub fn idle_between(ends: &[i64], starts: &[i64]) -> (r: Vec<i128>)
    ensures
        r@ == idle_from(ends@, starts@, 0, 0),
        r@.len() <= ends@.len(),
        forall|i: int| 0 <= i < r@.len() ==> 0 <= #[trigger] r@[i] <= LONGEST_TIME,
{
    let mut out: Vec<i128> = Vec::new();
    let mut i: usize = 0;
    let mut k: usize = 0;
    assert(out@ + idle_from(ends@, starts@, 0, 0) =~= idle_from(ends@, starts@, 0, 0));
    while i < ends.len()
        invariant
            i <= ends@.len(),
            k <= starts@.len(),
            out@.len() <= i,
            out@ + idle_from(ends@, starts@, i as int, k as int) == idle_from(
                ends@,
                starts@,
                0,
                0,
            ),
            forall|j: int| 0 <= j < out@.len() ==> 0 <= #[trigger] out@[j] <= LONGEST_TIME,
        decreases ends@.len() - i,
    {
        let ghost from = k as int;
        while k < starts.len() && starts[k] < ends[i]
            invariant
                i < ends@.len(),
                k <= starts@.len(),
                next_start(starts@, ends@[i as int] as int, from) == next_start(
                    starts@,
                    ends@[i as int] as int,
                    k as int,
                ),
            decreases starts@.len() - k,
        {
            k = k + 1;
        }
        let ghost rest = idle_from(ends@, starts@, i + 1, k as int);
        let ghost before = out@;
        if k < starts.len() {
            let gap: i128 = starts[k] as i128 - ends[i] as i128;
            out.push(gap);
            assert(before + (seq![gap] + rest) =~= out@ + rest);
        }
        i = i + 1;
    }
    assert(out@ =~= idle_from(ends@, starts@, 0, 0));
    out
}

proof fn next_start_is_next(starts: Seq<i64>, t: int, k: int)
    requires
        0 <= k <= starts.len(),
    ensures
        k <= next_start(starts, t, k) <= starts.len(),
        forall|j: int| k <= j < next_start(starts, t, k) ==> #[trigger] starts[j] < t,
        next_start(starts, t, k) < starts.len() ==> starts[next_start(starts, t, k)] >= t,
    decreases starts.len() - k,
{
    if k < starts.len() && starts[k] < t {
        next_start_is_next(starts, t, k + 1);
    }
}

/// Where ends come in order, no start is missed that was passed over for an
/// earlier end: each idle time goes to the first start of all that does not
/// come before the end.
pub proof fn passed_starts_are_not_missed(starts: Seq<i64>, earlier: int, t: int)
    requires
        earlier <= t,
    ensures
        next_start(starts, t, next_start(starts, earlier, 0)) == next_start(starts, t, 0),
{
    next_start_is_next(starts, earlier, 0);
    skip_ahead(starts, t, 0, next_start(starts, earlier, 0));
}

proof fn skip_ahead(starts: Seq<i64>, t: int, i: int, k: int)
    requires
        0 <= i <= k <= starts.len(),
        forall|j: int| i <= j < k ==> #[trigger] starts[j] < t,
    ensures
        next_start(starts, t, i) == next_start(starts, t, k),
    decreases k - i,
{
    if i < k {
        skip_ahead(starts, t, i + 1, k);
    }
}

// ---------------------------------------------------------------------------
// Laws
// ---------------------------------------------------------------------------

/// How many of the first `n` values are below a limit.
pub open spec fn below(v: Seq<i64>, limit: int, n: int) -> int
    decreases n,
{
    if n <= 0 {
        0
    } else {
        below(v, limit, n - 1) + (if v[n - 1] < limit {
            1int
        } else {
            0
        })
    }
}

/// A value counts where it is above the limit, and values count one by one.
pub proof fn values_above_add_up(v: Seq<i64>, x: i64, limit: int)
    ensures
        ({
            let n = v.len() as int;
            let more = above(v.push(x), limit, n + 1);
            &&& x > limit ==> more == above(v, limit, n) + 1
            &&& x <= limit ==> more == above(v, limit, n)
        }),
{
    above_of_front(v, v.push(x), limit, v.len() as int);
}

proof fn above_of_front(v: Seq<i64>, u: Seq<i64>, limit: int, n: int)
    requires
        0 <= n <= v.len(),
        n <= u.len(),
        forall|i: int| 0 <= i < n ==> v[i] == #[trigger] u[i],
    ensures
        above(v, limit, n) == above(u, limit, n),
    decreases n,
{
    if n > 0 {
        above_of_front(v, u, limit, n - 1);
        assert(v[n - 1] == u[n - 1]);
    }
}

proof fn counts_are_sums(v: Seq<i64>, limit: int, hi: Seq<int>, lo: Seq<int>, n: int)
    requires
        0 <= n <= v.len(),
        n <= hi.len(),
        n <= lo.len(),
        forall|i: int|
            0 <= i < n ==> #[trigger] hi[i] == (if v[i] > limit {
                1int
            } else {
                0
            }),
        forall|i: int|
            0 <= i < n ==> #[trigger] lo[i] == (if v[i] < limit {
                1int
            } else {
                0
            }),
    ensures
        above(v, limit, n) == order::sum_to(hi, n),
        below(v, limit, n) == order::sum_to(lo, n),
    decreases n,
{
    if n > 0 {
        counts_are_sums(v, limit, hi, lo, n - 1);
        assert(hi[n - 1] == (if v[n - 1] > limit {
            1int
        } else {
            0
        }));
        assert(lo[n - 1] == (if v[n - 1] < limit {
            1int
        } else {
            0
        }));
    }
}

proof fn rising_keeps_counts(v: Seq<i64>, limit: int)
    ensures
        above(rising(v), limit, v.len() as int) == above(v, limit, v.len() as int),
        below(rising(v), limit, v.len() as int) == below(v, limit, v.len() as int),
{
    let n = v.len() as int;
    let keys = values(v);
    order::there_is_an_order(keys);
    let p = order::order_of(keys);
    let s = rising(v);
    let hi = Seq::new(
        v.len(),
        |i: int|
            if v[i] > limit {
                1int
            } else {
                0
            },
    );
    let lo = Seq::new(
        v.len(),
        |i: int|
            if v[i] < limit {
                1int
            } else {
                0
            },
    );
    order::an_order_keeps_the_sum(keys, p, hi);
    order::an_order_keeps_the_sum(keys, p, lo);
    counts_are_sums(v, limit, hi, lo, n);
    let hi2 = Seq::new(p.len(), |i: int| hi[p[i]]);
    let lo2 = Seq::new(p.len(), |i: int| lo[p[i]]);
    assert forall|i: int| 0 <= i < n implies #[trigger] hi2[i] == (if s[i] > limit {
        1int
    } else {
        0
    }) by {
        assert(s[i] == v[p[i]]);
    }
    assert forall|i: int| 0 <= i < n implies #[trigger] lo2[i] == (if s[i] < limit {
        1int
    } else {
        0
    }) by {
        assert(s[i] == v[p[i]]);
    }
    counts_are_sums(s, limit, hi2, lo2, n);
}

proof fn counts_in_order(s: Seq<i64>, k: int, n: int)
    requires
        0 <= k < s.len(),
        0 <= n <= s.len(),
        forall|i: int, j: int| 0 <= i <= j < s.len() ==> #[trigger] s[i] <= #[trigger] s[j],
    ensures
        0 <= above(s, s[k] as int, n) <= (if n > k + 1 {
            n - (k + 1)
        } else {
            0
        }),
        0 <= below(s, s[k] as int, n) <= (if n < k {
            n
        } else {
            k
        }),
    decreases n,
{
    if n > 0 {
        counts_in_order(s, k, n - 1);
        if n - 1 <= k {
            assert(s[n - 1] <= s[k]);
        } else {
            assert(s[k] <= s[n - 1]);
        }
        if n - 1 >= k {
            assert(s[k] <= s[n - 1]);
        }
    }
}

/// A percentile is the smallest value that so many of a hundred values do not
/// exceed: that share of all values is at most as great, and less than that
/// share is smaller.
pub proof fn a_percentile_splits_the_values(v: Seq<i64>, percent: int)
    requires
        v.len() > 0,
        0 < percent <= 100,
    ensures
        ({
            let n = v.len() as int;
            let x = rising(v)[rank(percent, n)];
            &&& v.contains(x)
            &&& 100 * (n - above(v, x as int, n)) >= percent * n
            &&& 100 * below(v, x as int, n) < percent * n
        }),
{
    let n = v.len() as int;
    let s = rising(v);
    let k = rank(percent, n);
    rising_rises(v);
    assert(percent * n > 0) by (nonlinear_arith)
        requires
            percent > 0,
            n > 0,
    ;
    assert(percent * n <= 100 * n) by (nonlinear_arith)
        requires
            percent <= 100,
            n > 0,
    ;
    assert(k == (percent * n + 99) / 100 - 1);
    assert(0 <= k < n);
    assert(v.contains(s[k]));
    rising_keeps_counts(v, s[k] as int);
    counts_in_order(s, k, n);
}

/// The median has at most half of the values on either side.
pub proof fn the_median_is_in_the_middle(v: Seq<i64>)
    requires
        v.len() > 0,
    ensures
        v.contains(median(v)),
        2 * below(v, median(v) as int, v.len() as int) <= v.len(),
        2 * above(v, median(v) as int, v.len() as int) < v.len() + 1,
        v.len() % 2 == 0 ==> 2 * above(v, median(v) as int, v.len() as int) < v.len(),
{
    let n = v.len() as int;
    let s = rising(v);
    rising_rises(v);
    assert(v.contains(s[n / 2]));
    rising_keeps_counts(v, s[n / 2] as int);
    counts_in_order(s, n / 2, n);
}

/// The steady state is that of the second half: what the launches before it took
/// has no part in it, and half of the later ones took as long at most.
pub proof fn the_steady_median_is_of_the_second_half(a: Seq<i64>, b: Seq<i64>, tail: Seq<i64>)
    requires
        a.len() == b.len(),
        a.len() == tail.len() || a.len() + 1 == tail.len(),
        tail.len() > 0,
    ensures
        steady_median(a + tail) == steady_median(b + tail),
        2 * below(tail, steady_median(a + tail) as int, tail.len() as int) <= tail.len(),
        2 * above(tail, steady_median(a + tail) as int, tail.len() as int) < tail.len() + 1,
{
    assert((a + tail).len() as int / 2 == a.len());
    assert((a + tail).skip(a.len() as int) =~= tail);
    assert((b + tail).skip(a.len() as int) =~= tail);
    the_median_is_in_the_middle(tail);
}

/// A launch is steady up to a fifth over the median, and no further; with fewer
/// than five launches there is no warm-up.
pub proof fn a_fifth_more_is_still_steady(m: i64, d: i64, v: Seq<i64>)
    requires
        m >= 0,
    ensures
        5 * (d - m) <= m <==> is_steady(d, m),
        v.len() < 5 ==> warmup_count(v) == 0,
{
}

/// Of the launches that are shown none is faster than one that is left out;
/// each is shown once; and a tenth of them is shown, but three at least.
pub proof fn the_slowest_are_shown(v: Seq<Span>, i: int, j: int)
    requires
        v.len() >= 4,
        0 <= i < shown(v.len() as int),
        0 <= j < v.len(),
        !slowest_first(v).take(shown(v.len() as int)).contains(j),
    ensures
        0 <= slowest_first(v)[i] < v.len(),
        v[slowest_first(v)[i]].duration >= v[j].duration,
        slowest_first(v).no_duplicates(),
        3 <= shown(v.len() as int) <= v.len(),
        v.len() < 40 ==> shown(v.len() as int) == 3,
        v.len() >= 40 ==> 10 * shown(v.len() as int) <= v.len() < 10 * shown(v.len() as int) + 10,
{
    let keys = Seq::new(v.len(), |i: int| -(v[i].duration as int));
    order::there_is_an_order(keys);
    let p = order::order_of(keys);
    let top = shown(v.len() as int);
    assert(p.contains(j));
    let k = choose|k: int| 0 <= k < p.len() && p[k] == j;
    if k < top {
        assert(p.take(top)[k] == j);
    }
    assert(order::before(keys, p[i], p[k]));
    assert forall|a: int, b: int| 0 <= a < p.len() && 0 <= b < p.len() && a != b implies p[a]
        != p[b] by {
        if a < b {
            assert(order::before(keys, p[a], p[b]));
        } else {
            assert(order::before(keys, p[b], p[a]));
        }
    }
}

/// What is early in a run is late in the same run told backwards.
pub proof fn early_and_late_mirror(p: Seq<int>, q: Seq<int>, n: int, k: int)
    requires
        n >= 0,
        0 <= k <= p.len(),
        p.len() == q.len(),
        forall|i: int| 0 <= i < p.len() ==> 0 <= #[trigger] p[i] < n && q[i] == n - 1 - p[i],
    ensures
        in_first_third(p, n, k) == in_last_third(q, n, k),
        in_last_third(p, n, k) == in_first_third(q, n, k),
        0 <= in_first_third(p, n, k),
        0 <= in_last_third(p, n, k),
        in_first_third(p, n, k) + in_last_third(p, n, k) <= k,
    decreases k,
{
    if k > 0 {
        early_and_late_mirror(p, q, n, k - 1);
        assert(0 <= p[k - 1] < n && q[k - 1] == n - 1 - p[k - 1]);
    }
}

/// Early and late launches are treated alike; a kernel whose slowest launch
/// takes less than half as long again as the median is uniform; and fewer than
/// twenty launches say nothing.
pub proof fn clustering_is_fair(n: int, m: i64, worst: i64, early: int, late: int, top: int)
    requires
        m > 0,
        0 <= early,
        0 <= late,
        0 < top,
    ensures
        clustering(n, m, worst, early, late, top) == Clustering::Early <==> clustering(
            n,
            m,
            worst,
            late,
            early,
            top,
        ) == Clustering::Late,
        n < 20 <==> clustering(n, m, worst, early, late, top) == Clustering::TooFew,
        n >= 20 ==> (clustering(n, m, worst, early, late, top) == Clustering::Uniform <==> 2 * (
        worst - m) < m),
        clustering(n, m, worst, early, late, top) == Clustering::Early ==> early > 2 * late && 2
            * early + 1 >= top,
        n >= 20 && 2 * (worst - m) >= m && late == 0 && early > 0 && 2 * early >= top ==> clustering(
            n,
            m,
            worst,
            early,
            late,
            top,
        ) == Clustering::Early,
{
}

/// A summary is of the times that are not negative: it counts and adds up each
/// of them once, and they lie between its shortest and its longest, which are
/// among them.
pub proof fn a_summary_is_of_its_times(v: Seq<i128>, n: int)
    requires
        0 <= n <= v.len(),
    ensures
        match summary_of(v, n) {
            Some((count, total, shortest, longest)) => {
                &&& forall|i: int|
                    0 <= i < n && v[i] >= 0 ==> shortest <= #[trigger] v[i] <= longest
                &&& exists|i: int| 0 <= i < n && #[trigger] v[i] == shortest
                &&& exists|i: int| 0 <= i < n && #[trigger] v[i] == longest
                &&& shortest >= 0
                &&& total == order::sum_to(
                    Seq::new(
                        v.len(),
                        |i: int|
                            if v[i] >= 0 {
                                v[i] as int
                            } else {
                                0
                            },
                    ),
                    n,
                )
                &&& count == order::sum_to(
                    Seq::new(
                        v.len(),
                        |i: int|
                            if v[i] >= 0 {
                                1int
                            } else {
                                0
                            },
                    ),
                    n,
                )
            },
            None => {
                &&& forall|i: int| 0 <= i < n ==> #[trigger] v[i] < 0
                &&& order::sum_to(
                    Seq::new(
                        v.len(),
                        |i: int|
                            if v[i] >= 0 {
                                v[i] as int
                            } else {
                                0
                            },
                    ),
                    n,
                ) == 0
                &&& order::sum_to(
                    Seq::new(
                        v.len(),
                        |i: int|
                            if v[i] >= 0 {
                                1int
                            } else {
                                0
                            },
                    ),
                    n,
                ) == 0
            },
        },
    decreases n,
{
    if n > 0 {
        a_summary_is_of_its_times(v, n - 1);
        let t = v[n - 1];
        match summary_of(v, n - 1) {
            Some((count, total, shortest, longest)) => {
                let i = choose|i: int| 0 <= i < n - 1 && #[trigger] v[i] == shortest;
                let j = choose|j: int| 0 <= j < n - 1 && #[trigger] v[j] == longest;
                assert(v[i] == shortest && v[j] == longest);
            },
            None => {},
        }
        assert(v[n - 1] == t);
    }
}

/// With ends and starts in order, each end is followed by its own idle time: the
/// time to the first of all starts that does not come before it.
pub proof fn idle_times_go_to_the_next_start(ends: Seq<i64>, starts: Seq<i64>, i: int, j: int)
    requires
        forall|a: int, b: int| 0 <= a <= b < ends.len() ==> #[trigger] ends[a] <= #[trigger] ends[b],
        0 <= i < ends.len(),
        0 <= j < starts.len(),
        ends[i] <= starts[j],
        forall|a: int| 0 <= a < j ==> #[trigger] starts[a] < ends[i],
    ensures
        i < idle_from(ends, starts, 0, 0).len(),
        idle_from(ends, starts, 0, 0)[i] == starts[j] - ends[i],
{
    idle_at(ends, starts, 0, 0, i, j);
}

proof fn idle_at(ends: Seq<i64>, starts: Seq<i64>, f: int, k: int, i: int, j: int)
    requires
        forall|a: int, b: int| 0 <= a <= b < ends.len() ==> #[trigger] ends[a] <= #[trigger] ends[b],
        0 <= f <= i < ends.len(),
        0 <= k <= j < starts.len(),
        ends[i] <= starts[j],
        forall|a: int| 0 <= a < j ==> #[trigger] starts[a] < ends[i],
    ensures
        i - f < idle_from(ends, starts, f, k).len(),
        idle_from(ends, starts, f, k)[i - f] == starts[j] - ends[i],
    decreases ends.len() - f,
{
    let next = next_start(starts, ends[f] as int, k);
    next_start_is_next(starts, ends[f] as int, k);
    assert(ends[f] <= ends[i]);
    if next > j {
        assert(starts[j] < ends[f]);
    }
    let all = idle_from(ends, starts, f, k);
    let rest = idle_from(ends, starts, f + 1, next);
    let first = (starts[next] - ends[f]) as i128;
    assert(all == seq![first] + rest);
    if f == i {
        if next < j {
            assert(starts[next] < ends[i]);
        }
        assert(all[0] == first);
    } else {
        idle_at(ends, starts, f + 1, next, i, j);
        assert(all[i - f] == rest[i - f - 1]);
    }
}

/// A gap is what lies between a launch's end and the next start: the next start
/// is the start, the duration and the gap after it.
pub proof fn a_gap_reaches_to_the_next_start(v: Seq<Span>, i: int)
    requires
        0 <= i < v.len() - 1,
    ensures
        v[i].start + v[i].duration + gap_after(v, i) == v[i + 1].start,
{
}

} // verus!
