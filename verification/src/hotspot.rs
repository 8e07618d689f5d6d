//! The busiest window of a timeline.

use vstd::prelude::*;

use crate::groups;
use crate::groups::{ranked_totals, NamedTotal};
use crate::intervals::Span;
use crate::order;
use crate::order::order;
use crate::text;

verus! {

pub open spec fn end_of(s: Span) -> int {
    s.start + s.duration
}

/// How long a launch runs in the window of `width` from `w` on.
pub open spec fn share(s: Span, w: int, width: int) -> int {
    let from = if s.start > w {
        s.start as int
    } else {
        w
    };
    let to = if end_of(s) < w + width {
        end_of(s)
    } else {
        w + width
    };
    if from < to {
        to - from
    } else {
        0
    }
}

/// How long the first `n` launches run in a window, those that run together
/// each counted.
pub open spec fn busy(v: Seq<Span>, w: int, width: int, n: int) -> int
    decreases n,
{
    if n <= 0 {
        0
    } else {
        busy(v, w, width, n - 1) + share(v[n - 1], w, width)
    }
}

/// A window that starts with a launch, or ends with one.
pub open spec fn is_candidate(v: Seq<Span>, width: int, w: int) -> bool {
    exists|i: int|
        0 <= i < v.len() && (w == (#[trigger] v[i]).start || w == end_of(v[i]) - width)
}

/// The launches are in the order of their starts.
pub open spec fn in_order(v: Seq<Span>) -> bool {
    forall|i: int, j: int|
        0 <= i <= j < v.len() ==> (#[trigger] v[i]).start <= (#[trigger] v[j]).start
}

// ---------------------------------------------------------------------------
// No window is busier than the candidates
// ---------------------------------------------------------------------------

/// Away from the candidates the busy time bends upwards only.
proof fn bends_upwards(v: Seq<Span>, w: int, width: int, n: int)
    requires
        0 <= n <= v.len(),
        width > 0,
        !is_candidate(v, width, w),
    ensures
        busy(v, w - 1, width, n) + busy(v, w + 1, width, n) >= 2 * busy(v, w, width, n),
        busy(v, w, width, n) >= 0,
    decreases n,
{
    if n > 0 {
        bends_upwards(v, w, width, n - 1);
        assert(w != v[n - 1].start && w != end_of(v[n - 1]) - width);
    }
}

proof fn nothing_outside(v: Seq<Span>, w: int, width: int, n: int)
    requires
        0 <= n <= v.len(),
        (forall|i: int| 0 <= i < v.len() ==> end_of(#[trigger] v[i]) <= w) || (forall|i: int|
            0 <= i < v.len() ==> w + width <= (#[trigger] v[i]).start),
    ensures
        busy(v, w, width, n) == 0,
    decreases n,
{
    if n > 0 {
        nothing_outside(v, w, width, n - 1);
        assert(share(v[n - 1], w, width) == 0);
    }
}

spec fn candidates_up_to(v: Seq<Span>, width: int, best: int) -> bool {
    forall|w: int| #[trigger]
        is_candidate(v, width, w) ==> busy(v, w, width, v.len() as int) <= best
}

/// Where the busy time does not fall to the right, it is reached there.
proof fn bounded_on_the_right(v: Seq<Span>, w: int, width: int, best: int, top: int)
    requires
        width > 0,
        best >= 0,
        candidates_up_to(v, width, best),
        forall|i: int| 0 <= i < v.len() ==> end_of(#[trigger] v[i]) <= top,
        busy(v, w, width, v.len() as int) <= busy(v, w + 1, width, v.len() as int),
    ensures
        busy(v, w, width, v.len() as int) <= best,
    decreases (if top > w {
        top - w
    } else {
        0
    }),
{
    let n = v.len() as int;
    if is_candidate(v, width, w + 1) {
    } else if w + 1 >= top {
        nothing_outside(v, w + 1, width, n);
    } else {
        bends_upwards(v, w + 1, width, n);
        bounded_on_the_right(v, w + 1, width, best, top);
    }
}

proof fn bounded_on_the_left(v: Seq<Span>, w: int, width: int, best: int, bottom: int)
    requires
        width > 0,
        best >= 0,
        candidates_up_to(v, width, best),
        forall|i: int| 0 <= i < v.len() ==> bottom + width <= (#[trigger] v[i]).start,
        busy(v, w, width, v.len() as int) <= busy(v, w - 1, width, v.len() as int),
    ensures
        busy(v, w, width, v.len() as int) <= best,
    decreases (if w > bottom {
        w - bottom
    } else {
        0
    }),
{
    let n = v.len() as int;
    if is_candidate(v, width, w - 1) {
    } else if w - 1 <= bottom {
        assert forall|i: int| 0 <= i < v.len() implies (w - 1) + width <= (#[trigger] v[i]).start by {
        }
        nothing_outside(v, w - 1, width, n);
    } else {
        bends_upwards(v, w - 1, width, n);
        bounded_on_the_left(v, w - 1, width, best, bottom);
    }
}

spec fn latest_end(v: Seq<Span>, n: int) -> int
    decreases n,
{
    if n <= 0 {
        0
    } else {
        let e = latest_end(v, n - 1);
        if end_of(v[n - 1]) > e {
            end_of(v[n - 1])
        } else {
            e
        }
    }
}

proof fn latest_end_is_late(v: Seq<Span>, n: int)
    requires
        0 <= n <= v.len(),
    ensures
        forall|i: int| 0 <= i < n ==> end_of(#[trigger] v[i]) <= latest_end(v, n),
    decreases n,
{
    if n > 0 {
        latest_end_is_late(v, n - 1);
    }
}

spec fn earliest_start(v: Seq<Span>, n: int) -> int
    decreases n,
{
    if n <= 0 {
        0
    } else {
        let s = earliest_start(v, n - 1);
        if v[n - 1].start < s {
            v[n - 1].start as int
        } else {
            s
        }
    }
}

proof fn earliest_start_is_early(v: Seq<Span>, n: int)
    requires
        0 <= n <= v.len(),
    ensures
        forall|i: int| 0 <= i < n ==> earliest_start(v, n) <= (#[trigger] v[i]).start,
    decreases n,
{
    if n > 0 {
        earliest_start_is_early(v, n - 1);
    }
}

/// Where no candidate is busier than `best`, no window at all is: the busiest
/// window starts with a launch or ends with one.
pub proof fn no_window_is_busier(v: Seq<Span>, width: int, best: int, w: int)
    requires
        width > 0,
        best >= 0,
        forall|c: int| #[trigger]
            is_candidate(v, width, c) ==> busy(v, c, width, v.len() as int) <= best,
    ensures
        busy(v, w, width, v.len() as int) <= best,
{
    let n = v.len() as int;
    if !is_candidate(v, width, w) {
        bends_upwards(v, w, width, n);
        if busy(v, w, width, n) <= busy(v, w + 1, width, n) {
            latest_end_is_late(v, n);
            bounded_on_the_right(v, w, width, best, latest_end(v, n));
        } else {
            earliest_start_is_early(v, n);
            bounded_on_the_left(v, w, width, best, earliest_start(v, n) - width);
        }
    }
}

// ---------------------------------------------------------------------------
// The search
// ---------------------------------------------------------------------------

/// The first launch at or after `i` that is not over at a moment.
pub open spec fn first_running(v: Seq<Span>, t: int, i: int) -> int
    decreases v.len() - i,
{
    if i < 0 || i >= v.len() || end_of(v[i]) > t {
        i
    } else {
        first_running(v, t, i + 1)
    }
}

/// The first launch at or after `i` that starts at a moment or later.
pub open spec fn first_starting(v: Seq<Span>, t: int, i: int) -> int
    decreases v.len() - i,
{
    if i < 0 || i >= v.len() || v[i].start >= t {
        i
    } else {
        first_starting(v, t, i + 1)
    }
}

proof fn first_running_is(v: Seq<Span>, t: int, i: int, k: int)
    requires
        0 <= i <= k <= v.len(),
        forall|j: int| i <= j < k ==> end_of(#[trigger] v[j]) <= t,
        k < v.len() ==> end_of(v[k]) > t,
    ensures
        first_running(v, t, i) == k,
    decreases k - i,
{
    if i < k {
        first_running_is(v, t, i + 1, k);
    }
}

/// The busiest window: how busy it is, where it starts, and the launches from
/// `lo` up to `hi` that may run in it.
#[derive(Debug, Clone, Copy, PartialEq, Eq, Structural)]
pub struct Hottest {
    pub busy: i128,
    pub start: i128,
    pub lo: usize,
    pub hi: usize,
}

/// `h` is the earliest of the busiest windows that start or end with a launch.
pub open spec fn is_hottest(v: Seq<Span>, width: int, h: Hottest) -> bool {
    &&& h.busy > 0
    &&& h.busy == busy(v, h.start as int, width, v.len() as int)
    &&& is_candidate(v, width, h.start as int)
    &&& forall|c: int| #[trigger]
        is_candidate(v, width, c) ==> busy(v, c, width, v.len() as int) < h.busy || (busy(
            v,
            c,
            width,
            v.len() as int,
        ) == h.busy && h.start <= c)
    &&& h.lo == first_running(v, h.start as int, 0)
    &&& h.hi == first_starting(v, h.start + width, h.lo as int)
}

proof fn over_before(v: Seq<Span>, w: int, width: int, n: int)
    requires
        0 <= n <= v.len(),
        forall|j: int| 0 <= j < n ==> end_of(#[trigger] v[j]) <= w,
    ensures
        busy(v, w, width, n) == 0,
    decreases n,
{
    if n > 0 {
        over_before(v, w, width, n - 1);
    }
}

proof fn not_yet(v: Seq<Span>, w: int, width: int, k: int, n: int)
    requires
        0 <= k <= n <= v.len(),
        forall|j: int| k <= j < n ==> w + width <= (#[trigger] v[j]).start,
    ensures
        busy(v, w, width, n) == busy(v, w, width, k),
    decreases n - k,
{
    if k < n {
        not_yet(v, w, width, k, n - 1);
    }
}

proof fn busy_is_small(v: Seq<Span>, w: int, width: int, n: int)
    requires
        0 <= n <= v.len(),
    ensures
        0 <= busy(v, w, width, n) <= 0x8000_0000_0000_0000 * n,
    decreases n,
{
    if n > 0 {
        busy_is_small(v, w, width, n - 1);
    }
}

/// How busy a window is, and up to which launch. All before `lo` are over.
fn window_busy(v: &[Span], w: i128, width: i64, lo: usize) -> (r: (i128, usize))
    requires
        in_order(v@),
        width > 0,
        lo <= v@.len(),
        -0x8_0000_0000_0000_0000 <= w <= 0x8_0000_0000_0000_0000,
        forall|j: int| 0 <= j < lo ==> end_of(#[trigger] v@[j]) <= w,
    ensures
        r.0 == busy(v@, w as int, width as int, v@.len() as int),
        r.1 == first_starting(v@, w + width, lo as int),
        lo <= r.1 <= v@.len(),
{
    let n: usize = v.len();
    let end: i128 = w + width as i128;
    let mut sum: i128 = 0;
    let mut hi: usize = lo;
    proof {
        over_before(v@, w as int, width as int, lo as int);
    }
    while hi < n && (v[hi].start as i128) < end
        invariant
            lo <= hi <= n,
            n == v@.len(),
            width > 0,
            end == w + width,
            sum == busy(v@, w as int, width as int, hi as int),
            first_starting(v@, end as int, lo as int) == first_starting(
                v@,
                end as int,
                hi as int,
            ),
        decreases n - hi,
    {
        let s: i128 = v[hi].start as i128;
        let e: i128 = s + v[hi].duration as i128;
        let from: i128 = if s > w {
            s
        } else {
            w
        };
        let to: i128 = if e < end {
            e
        } else {
            end
        };
        proof {
            busy_is_small(v@, w as int, width as int, hi as int);
        }
        if from < to {
            sum = sum + (to - from);
        }
        hi = hi + 1;
    }
    proof {
        if hi < n {
            assert forall|j: int| hi <= j < n implies w + width <= (#[trigger] v@[j]).start by {
                assert(v@[hi as int].start <= v@[j].start);
            }
        }
        not_yet(v@, w as int, width as int, hi as int, n as int);
    }
    (sum, hi)
}

/// The keys by which candidates are taken in order.
spec fn candidate_keys(v: Seq<Span>, width: int) -> Seq<int> {
    Seq::new(
        2 * v.len(),
        |k: int|
            if k % 2 == 0 {
                v[k / 2].start as int
            } else {
                end_of(v[k / 2]) - width
            },
    )
}

/// Finds the window of `width` in which launches run longest in all. They are
/// given in the order of their starts. Where none runs at all, the result is
/// zero.
pub fn find_hottest_window(v: &[Span], width: i64) -> (r: Hottest)
    requires
        in_order(v@),
        2 * v@.len() <= usize::MAX,
    ensures
        if width > 0 && (exists|c: int| #[trigger]
            is_candidate(v@, width as int, c) && busy(v@, c, width as int, v@.len() as int) > 0) {
            is_hottest(v@, width as int, r)
        } else {
            r == (Hottest { busy: 0, start: 0, lo: 0, hi: 0 })
        },
        width > 0 ==> forall|w: int| #[trigger]
            busy(v@, w, width as int, v@.len() as int) <= r.busy,
{
    let n: usize = v.len();
    let mut best = Hottest { busy: 0, start: 0, lo: 0, hi: 0 };
    if width <= 0 {
        return best;
    }
    let ghost wi = width as int;
    let mut keys: Vec<i128> = Vec::new();
    let mut i: usize = 0;
    while i < n
        invariant
            i <= n,
            n == v@.len(),
            wi == width,
            width > 0,
            keys@.len() == 2 * i,
            forall|k: int|
                0 <= k < keys@.len() ==> #[trigger] keys@[k] == candidate_keys(v@, wi)[k],
        decreases n - i,
    {
        let s: i128 = v[i].start as i128;
        keys.push(s);
        keys.push(s + v[i].duration as i128 - width as i128);
        i = i + 1;
    }
    let ghost ck = candidate_keys(v@, wi);
    assert(order::ints(keys@) =~= ck);
    let p = order(&keys);
    let mut lo: usize = 0;
    let mut k: usize = 0;
    while k < p.len()
        invariant
            k <= p@.len(),
            n == v@.len(),
            wi == width,
            width > 0,
            in_order(v@),
            lo <= n,
            ck == candidate_keys(v@, wi),
            order::ints(keys@) == ck,
            order::is_order(ck, order::positions(p@)),
            p@.len() == keys@.len(),
            forall|j: int| 0 <= j < p@.len() ==> (#[trigger] p@[j]) < keys@.len(),
            k > 0 ==> forall|j: int|
                0 <= j < lo ==> end_of(#[trigger] v@[j]) <= ck[p@[k - 1] as int],
            k == 0 ==> lo == 0,
            best.busy >= 0,
            best.busy == 0 ==> best == (Hottest { busy: 0, start: 0, lo: 0, hi: 0 }),
            best.busy > 0 ==> {
                &&& best.busy == busy(v@, best.start as int, wi, n as int)
                &&& exists|j: int|
                    0 <= j < k && ck[#[trigger] order::positions(p@)[j]] == best.start
                &&& best.lo == first_running(v@, best.start as int, 0)
                &&& best.hi == first_starting(v@, best.start + wi, best.lo as int)
            },
            forall|j: int|
                0 <= j < k ==> {
                    let c = ck[#[trigger] order::positions(p@)[j]];
                    busy(v@, c, wi, n as int) < best.busy || (busy(v@, c, wi, n as int)
                        == best.busy && (best.busy == 0 || best.start <= c))
                },
        decreases p@.len() - k,
    {
        let w: i128 = keys[p[k]];
        let ghost c = w as int;
        assert(order::positions(p@)[k as int] == p@[k as int]);
        assert(ck[p@[k as int] as int] == c);
        assert(-0x8_0000_0000_0000_0000 <= w <= 0x8_0000_0000_0000_0000);
        proof {
            if k > 0 {
                assert(order::positions(p@)[k - 1] == p@[k - 1]);
                assert(order::before(
                    ck,
                    order::positions(p@)[k - 1],
                    order::positions(p@)[k as int],
                ));
            }
        }
        while lo < n && v[lo].start as i128 + v[lo].duration as i128 <= w
            invariant
                lo <= n,
                n == v@.len(),
                forall|j: int| 0 <= j < lo ==> end_of(#[trigger] v@[j]) <= w,
            decreases n - lo,
        {
            lo = lo + 1;
        }
        proof {
            first_running_is(v@, c, 0, lo as int);
        }
        let (sum, hi) = window_busy(v, w, width, lo);
        proof {
            busy_is_small(v@, c, wi, n as int);
            assert forall|j: int| 0 <= j < k implies ck[#[trigger] order::positions(p@)[j]] <= c by {
                assert(order::before(
                    ck,
                    order::positions(p@)[j],
                    order::positions(p@)[k as int],
                ));
            }
        }
        if sum > best.busy {
            best = Hottest { busy: sum, start: w, lo, hi };
            assert(ck[order::positions(p@)[k as int]] == best.start);
        }
        k = k + 1;
    }
    proof {
        let m = v@.len() as int;
        assert forall|c: int| #[trigger] is_candidate(v@, wi, c) implies busy(v@, c, wi, m)
            < best.busy || (busy(v@, c, wi, m) == best.busy && (best.busy == 0 || best.start
            <= c)) by {
            let i = choose|i: int|
                0 <= i < v@.len() && (c == (#[trigger] v@[i]).start || c == end_of(v@[i]) - wi);
            let at = if c == v@[i].start {
                2 * i
            } else {
                2 * i + 1
            };
            assert(ck[at] == c);
            assert(order::positions(p@).contains(at));
            let j = choose|j: int|
                0 <= j < order::positions(p@).len() && order::positions(p@)[j] == at;
            assert(ck[order::positions(p@)[j]] == c);
        }
        if best.busy > 0 {
            let j = choose|j: int|
                0 <= j < k && ck[#[trigger] order::positions(p@)[j]] == best.start;
            let at = order::positions(p@)[j];
            let s = v@[at / 2];
            assert(ck[at] == s.start || ck[at] == end_of(s) - wi);
            assert(is_candidate(v@, wi, best.start as int));
        } else {
            assert forall|c: int| #[trigger] is_candidate(v@, wi, c) implies !(busy(v@, c, wi, m)
                > 0) by {}
        }
        assert forall|w: int| #[trigger] busy(v@, w, wi, m) <= best.busy by {
            assert forall|c: int| #[trigger] is_candidate(v@, wi, c) implies busy(v@, c, wi, m)
                <= best.busy by {}
            no_window_is_busier(v@, wi, best.busy as int, w);
        }
    }
    best
}

// ---------------------------------------------------------------------------
// What runs in the window
// ---------------------------------------------------------------------------

/// The launches from `i` up to `hi` that run in the window: their names and how
/// long they run there.
pub open spec fn running(
    names: Seq<Seq<char>>,
    v: Seq<Span>,
    w: int,
    width: int,
    i: int,
    hi: int,
) -> (Seq<Seq<char>>, Seq<i64>)
    decreases hi - i,
{
    if i < 0 || i >= hi || hi > v.len() {
        (Seq::empty(), Seq::empty())
    } else {
        let (n, a) = running(names, v, w, width, i, hi - 1);
        let s = share(v[hi - 1], w, width);
        if s > 0 {
            (n.push(names[hi - 1]), a.push(s as i64))
        } else {
            (n, a)
        }
    }
}

/// The kernels that run in a window, those that run longest there first.
pub fn window_kernels(names: &[String], v: &[Span], w: i128, width: i64, lo: usize, hi: usize) -> (r:
    Vec<NamedTotal>)
    requires
        names@.len() == v@.len(),
        lo <= hi <= v@.len(),
        -0x8_0000_0000_0000_0000 <= w <= 0x8_0000_0000_0000_0000,
    ensures
        ({
            let run = running(
                text::texts(names@),
                v@,
                w as int,
                width as int,
                lo as int,
                hi as int,
            );
            groups::total_views(r@) == groups::ranked(run.0, run.1)
        }),
{
    let end: i128 = w + width as i128;
    let mut who: Vec<String> = Vec::new();
    let mut long: Vec<i64> = Vec::new();
    let mut i: usize = lo;
    assert(text::texts(who@) =~= Seq::empty());
    while i < hi
        invariant
            lo <= i <= hi <= v@.len(),
            names@.len() == v@.len(),
            end == w + width,
            -0x8_0000_0000_0000_0000 <= w <= 0x8_0000_0000_0000_0000,
            who@.len() == long@.len(),
            (text::texts(who@), long@) == running(
                text::texts(names@),
                v@,
                w as int,
                width as int,
                lo as int,
                i as int,
            ),
        decreases hi - i,
    {
        let s: i128 = v[i].start as i128;
        let e: i128 = s + v[i].duration as i128;
        let from: i128 = if s > w {
            s
        } else {
            w
        };
        let to: i128 = if e < end {
            e
        } else {
            end
        };
        if from < to {
            let ghost before = who@;
            assert(0 < to - from <= v@[i as int].duration);
            who.push(names[i].clone());
            long.push((to - from) as i64);
            assert(text::texts(who@) =~= text::texts(before).push(text::texts(names@)[i as int]));
        }
        i = i + 1;
    }
    ranked_totals(&who, &long)
}

// ---------------------------------------------------------------------------
// Laws
// ---------------------------------------------------------------------------

/// A launch runs in a window for as long as both last: one moment counts where
/// the launch runs in it, a window counts what its two parts count, a launch
/// that lies in the window counts whole, and nothing counts longer than the
/// window.
pub proof fn a_share_is_the_common_time(s: Span, w: int, a: int, b: int)
    requires
        a >= 0,
        b >= 0,
    ensures
        share(s, w, 1) == (if s.start <= w < s.start + s.duration {
            1int
        } else {
            0
        }),
        share(s, w, a + b) == share(s, w, a) + share(s, w + a, b),
        0 <= share(s, w, a) <= a,
        s.duration >= 0 && w <= s.start && s.start + s.duration <= w + a ==> share(s, w, a)
            == s.duration,
{
}

/// How long the launches of one kernel among the first `n` run in a window.
pub open spec fn busy_of(
    names: Seq<Seq<char>>,
    v: Seq<Span>,
    w: int,
    width: int,
    name: Seq<char>,
    n: int,
) -> int
    decreases n,
{
    if n <= 0 {
        0
    } else {
        busy_of(names, v, w, width, name, n - 1) + (if names[n - 1] == name {
            share(v[n - 1], w, width)
        } else {
            0
        })
    }
}

/// How many launches of one kernel among the first `n` run in a window.
pub open spec fn launches_of(
    names: Seq<Seq<char>>,
    v: Seq<Span>,
    w: int,
    width: int,
    name: Seq<char>,
    n: int,
) -> int
    decreases n,
{
    if n <= 0 {
        0
    } else {
        launches_of(names, v, w, width, name, n - 1) + (if names[n - 1] == name && share(
            v[n - 1],
            w,
            width,
        ) > 0 {
            1int
        } else {
            0
        })
    }
}

proof fn sums_agree(
    names: Seq<Seq<char>>,
    amounts: Seq<i64>,
    more_names: Seq<Seq<char>>,
    more: Seq<i64>,
    name: Seq<char>,
    n: int,
)
    requires
        forall|i: int| 0 <= i < n ==> names[i] == #[trigger] more_names[i],
        forall|i: int| 0 <= i < n ==> amounts[i] == #[trigger] more[i],
    ensures
        groups::sum_of(names, amounts, name, n) == groups::sum_of(more_names, more, name, n),
        groups::count_of(names, name, n) == groups::count_of(more_names, name, n),
        groups::sum(amounts, n) == groups::sum(more, n),
    decreases n,
{
    if n > 0 {
        sums_agree(names, amounts, more_names, more, name, n - 1);
        assert(names[n - 1] == more_names[n - 1]);
        assert(amounts[n - 1] == more[n - 1]);
    }
}

proof fn running_adds_up(
    names: Seq<Seq<char>>,
    v: Seq<Span>,
    w: int,
    width: int,
    lo: int,
    hi: int,
    name: Seq<char>,
)
    requires
        names.len() == v.len(),
        0 <= lo <= hi <= v.len(),
    ensures
        ({
            let (n, a) = running(names, v, w, width, lo, hi);
            let m = n.len() as int;
            &&& n.len() == a.len()
            &&& groups::sum_of(n, a, name, m) == busy_of(names, v, w, width, name, hi) - busy_of(
                names,
                v,
                w,
                width,
                name,
                lo,
            )
            &&& groups::count_of(n, name, m) == launches_of(names, v, w, width, name, hi)
                - launches_of(names, v, w, width, name, lo)
            &&& groups::sum(a, m) == busy(v, w, width, hi) - busy(v, w, width, lo)
            &&& forall|i: int|
                lo <= i < hi && share(v[i], w, width) > 0 ==> n.contains(#[trigger] names[i])
            &&& n.contains(name) ==> busy_of(names, v, w, width, name, hi) > busy_of(
                names,
                v,
                w,
                width,
                name,
                lo,
            )
        }),
    decreases hi - lo,
{
    if lo < hi {
        running_adds_up(names, v, w, width, lo, hi - 1, name);
        shares_grow(names, v, w, width, name, lo, hi - 1);
        let (n, a) = running(names, v, w, width, lo, hi - 1);
        let s = share(v[hi - 1], w, width);
        if s > 0 {
            let (n2, a2) = (n.push(names[hi - 1]), a.push(s as i64));
            assert(s <= v[hi - 1].duration);
            sums_agree(n, a, n2, a2, name, n.len() as int);
            assert forall|i: int| lo <= i < hi && share(v[i], w, width) > 0 implies n2.contains(
                #[trigger] names[i],
            ) by {
                if i < hi - 1 {
                    assert(n.contains(names[i]));
                    let k = choose|k: int| 0 <= k < n.len() && n[k] == names[i];
                    assert(n2[k] == names[i]);
                } else {
                    assert(n2[n.len() as int] == names[i]);
                }
            }
            if n2.contains(name) {
                let k = choose|k: int| 0 <= k < n2.len() && n2[k] == name;
                if k < n.len() {
                    assert(n[k] == name);
                }
            }
        }
    }
}

proof fn shares_grow(
    names: Seq<Seq<char>>,
    v: Seq<Span>,
    w: int,
    width: int,
    name: Seq<char>,
    lo: int,
    hi: int,
)
    requires
        lo <= hi,
    ensures
        busy_of(names, v, w, width, name, lo) <= busy_of(names, v, w, width, name, hi),
    decreases hi - lo,
{
    if lo < hi {
        shares_grow(names, v, w, width, name, lo, hi - 1);
    }
}

proof fn nothing_between(
    names: Seq<Seq<char>>,
    v: Seq<Span>,
    w: int,
    width: int,
    name: Seq<char>,
    lo: int,
    hi: int,
)
    requires
        0 <= lo <= hi <= v.len(),
        forall|i: int| lo <= i < hi ==> share(#[trigger] v[i], w, width) == 0,
    ensures
        busy_of(names, v, w, width, name, lo) == busy_of(names, v, w, width, name, hi),
        launches_of(names, v, w, width, name, lo) == launches_of(names, v, w, width, name, hi),
        busy(v, w, width, lo) == busy(v, w, width, hi),
    decreases hi - lo,
{
    if lo < hi {
        nothing_between(names, v, w, width, name, lo, hi - 1);
        assert(share(v[hi - 1], w, width) == 0);
    }
}

proof fn first_running_passes(v: Seq<Span>, t: int, i: int)
    requires
        0 <= i <= v.len(),
    ensures
        i <= first_running(v, t, i) <= v.len(),
        forall|j: int| i <= j < first_running(v, t, i) ==> end_of(#[trigger] v[j]) <= t,
    decreases v.len() - i,
{
    if i < v.len() && end_of(v[i]) <= t {
        first_running_passes(v, t, i + 1);
    }
}

proof fn first_starting_passes(v: Seq<Span>, t: int, i: int)
    requires
        0 <= i <= v.len(),
        in_order(v),
    ensures
        i <= first_starting(v, t, i) <= v.len(),
        forall|j: int| first_starting(v, t, i) <= j < v.len() ==> (#[trigger] v[j]).start >= t,
    decreases v.len() - i,
{
    if i < v.len() && v[i].start < t {
        first_starting_passes(v, t, i + 1);
    }
}

proof fn shares_are_bounded(
    names: Seq<Seq<char>>,
    v: Seq<Span>,
    w: int,
    width: int,
    name: Seq<char>,
    n: int,
)
    requires
        width >= 0,
    ensures
        busy_of(names, v, w, width, name, n) <= width * launches_of(names, v, w, width, name, n),
    decreases n,
{
    if n > 0 {
        shares_are_bounded(names, v, w, width, name, n - 1);
        let l = launches_of(names, v, w, width, name, n - 1);
        assert(width * (l + 1) == width * l + width) by (nonlinear_arith);
    } else {
        assert(width * 0 == 0);
    }
}

/// The break-down of the hottest window accounts for all of its busy time: each
/// kernel is listed once, with the launches that run in the window and the time
/// that they run there, which for no launch is more than the window's width; the
/// busiest come first; and the times make up how busy the window is.
pub proof fn the_window_is_accounted_for(
    names: Seq<Seq<char>>,
    v: Seq<Span>,
    width: int,
    h: Hottest,
)
    requires
        names.len() == v.len(),
        in_order(v),
        width > 0,
        is_hottest(v, width, h),
    ensures
        ({
            let n = v.len() as int;
            let w = h.start as int;
            let run = running(names, v, w, width, h.lo as int, h.hi as int);
            let r = groups::ranked(run.0, run.1);
            &&& groups::sum_of_totals(r, r.len() as int) == h.busy
            &&& forall|k: int|
                0 <= k < r.len() ==> (#[trigger] r[k]).total == busy_of(
                    names,
                    v,
                    w,
                    width,
                    r[k].name,
                    n,
                ) && r[k].count == launches_of(names, v, w, width, r[k].name, n) && 0 < r[k].total
                    <= width * r[k].count
            &&& forall|j: int, k: int|
                0 <= j < k < r.len() ==> (#[trigger] r[j]).name != (#[trigger] r[k]).name
                    && r[j].total >= r[k].total
            &&& forall|i: int|
                0 <= i < n && share(v[i], w, width) > 0 ==> exists|k: int|
                    0 <= k < r.len() && (#[trigger] r[k]).name == #[trigger] names[i]
        }),
{
    let n = v.len() as int;
    let w = h.start as int;
    let lo = h.lo as int;
    let hi = h.hi as int;
    let run = running(names, v, w, width, lo, hi);
    let r = groups::ranked(run.0, run.1);
    first_running_passes(v, w, 0);
    first_starting_passes(v, w + width, lo);
    assert forall|i: int| 0 <= i < lo implies share(#[trigger] v[i], w, width) == 0 by {
        assert(end_of(v[i]) <= w);
    }
    assert forall|i: int| hi <= i < n implies share(#[trigger] v[i], w, width) == 0 by {}
    running_adds_up(names, v, w, width, lo, hi, Seq::empty());
    groups::a_ranking_is_complete(run.0, run.1);
    nothing_between(names, v, w, width, Seq::empty(), 0, lo);
    nothing_between(names, v, w, width, Seq::empty(), hi, n);
    assert forall|k: int| 0 <= k < r.len() implies (#[trigger] r[k]).total == busy_of(
        names,
        v,
        w,
        width,
        r[k].name,
        n,
    ) && r[k].count == launches_of(names, v, w, width, r[k].name, n) && 0 < r[k].total <= width
        * r[k].count by {
        running_adds_up(names, v, w, width, lo, hi, r[k].name);
        nothing_between(names, v, w, width, r[k].name, 0, lo);
        nothing_between(names, v, w, width, r[k].name, hi, n);
        shares_are_bounded(names, v, w, width, r[k].name, n);
    }
    assert forall|i: int| 0 <= i < n && share(v[i], w, width) > 0 implies exists|k: int|
        0 <= k < r.len() && (#[trigger] r[k]).name == #[trigger] names[i] by {
        assert(lo <= i < hi);
        assert(run.0.contains(names[i]));
        let j = choose|j: int| 0 <= j < run.0.len() && run.0[j] == names[i];
        assert(run.0[j] == names[i]);
        let k = choose|k: int| 0 <= k < r.len() && (#[trigger] r[k]).name == run.0[j];
        assert(r[k].name == names[i]);
    }
}

} // verus!
