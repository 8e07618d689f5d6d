//! Chains of launches that follow each other closely on one stream.

use vstd::prelude::*;

use crate::groups;
use crate::groups::{ranked_totals, NamedTotal};
use crate::order;
use crate::order::order2;
use crate::text;

verus! {

/// A launch on a stream. Times are integers of nanoseconds.
#[derive(Debug, Clone, Copy, PartialEq, Eq, Structural)]
pub struct StreamLaunch {
    pub start: i64,
    pub duration: i64,
    pub stream: u32,
}

pub open spec fn end_of(l: StreamLaunch) -> int {
    l.start + l.duration
}

/// Launch `i` goes on with the chain of the one before it: it is on the same
/// stream and starts at most `gap` after that one's end.
pub open spec fn goes_on(v: Seq<StreamLaunch>, gap: int, i: int) -> bool {
    &&& i > 0
    &&& v[i].stream == v[i - 1].stream
    &&& v[i].start - end_of(v[i - 1]) <= gap
}

/// The launches from `first` on, `count` of them.
pub struct Range {
    pub first: int,
    pub count: int,
}

/// The chains of the first `n` launches.
pub open spec fn chains(v: Seq<StreamLaunch>, gap: int, n: int) -> Seq<Range>
    decreases n,
{
    if n <= 0 {
        Seq::empty()
    } else {
        let c = chains(v, gap, n - 1);
        if c.len() > 0 && goes_on(v, gap, n - 1) {
            c.drop_last().push(Range { first: c.last().first, count: c.last().count + 1 })
        } else {
            c.push(Range { first: n - 1, count: 1 })
        }
    }
}

/// How long the launches of a chain run in all.
pub open spec fn active(v: Seq<StreamLaunch>, first: int, count: int) -> int
    decreases count,
{
    if count <= 0 {
        0
    } else {
        active(v, first, count - 1) + v[first + count - 1].duration
    }
}

/// The time from the start of a chain's first launch to the end of its last.
pub open spec fn span(v: Seq<StreamLaunch>, first: int, count: int) -> int {
    end_of(v[first + count - 1]) - v[first].start
}

/// A chain of launches on one stream.
#[derive(Debug)]
pub struct Chain {
    pub stream: u32,
    pub first: usize,
    pub count: usize,
    pub span: i128,
    pub active: i128,
}

impl Chain {
    pub open spec fn range(self) -> Range {
        Range { first: self.first as int, count: self.count as int }
    }

    /// What the chain says of itself is so.
    pub open spec fn describes(self, v: Seq<StreamLaunch>) -> bool {
        &&& 0 < self.count
        &&& self.first + self.count <= v.len()
        &&& self.stream == v[self.first as int].stream
        &&& self.span == span(v, self.first as int, self.count as int)
        &&& self.active == active(v, self.first as int, self.count as int)
    }
}

pub open spec fn ranges(c: Seq<Chain>) -> Seq<Range> {
    Seq::new(c.len(), |i: int| c[i].range())
}

proof fn active_is_small(v: Seq<StreamLaunch>, first: int, count: int)
    requires
        0 <= count,
    ensures
        -0x8000_0000_0000_0000 * count <= active(v, first, count) <= 0x8000_0000_0000_0000
            * count,
    decreases count,
{
    if count > 0 {
        active_is_small(v, first, count - 1);
    }
}

/// The chains, in the order of their launches.
fn build_chains(v: &[StreamLaunch], gap: i64) -> (r: Vec<Chain>)
    ensures
        ranges(r@) == chains(v@, gap as int, v@.len() as int),
        r@.len() <= v@.len(),
        forall|i: int| 0 <= i < r@.len() ==> (#[trigger] r@[i]).describes(v@),
{
    let mut out: Vec<Chain> = Vec::new();
    let n: usize = v.len();
    let mut i: usize = 0;
    assert(ranges(out@) =~= chains(v@, gap as int, 0));
    while i < n
        invariant
            i <= n,
            n == v@.len(),
            out@.len() <= i,
            ranges(out@) == chains(v@, gap as int, i as int),
            forall|k: int| 0 <= k < out@.len() ==> (#[trigger] out@[k]).describes(v@),
            out@.len() > 0 ==> out@.last().first + out@.last().count == i,
            out@.len() == 0 ==> i == 0,
        decreases n - i,
    {
        let l = v[i];
        let ghost before = out@;
        let extend: bool = i > 0 && l.stream == v[i - 1].stream && l.start as i128 - (v[i
            - 1].start as i128 + v[i - 1].duration as i128) <= gap as i128;
        if extend {
            let last: usize = out.len() - 1;
            assert(ranges(before).last() == before.last().range());
            proof {
                active_is_small(v@, before.last().first as int, before.last().count as int);
            }
            let c = Chain {
                stream: out[last].stream,
                first: out[last].first,
                count: out[last].count + 1,
                span: l.start as i128 + l.duration as i128 - v[out[last].first].start as i128,
                active: out[last].active + l.duration as i128,
            };
            let ghost cv = c;
            out.set(last, c);
            assert(cv.describes(v@));
            assert(ranges(out@) =~= ranges(before).drop_last().push(cv.range()));
        } else {
            let c = Chain {
                stream: l.stream,
                first: i,
                count: 1,
                span: l.start as i128 + l.duration as i128 - l.start as i128,
                active: l.duration as i128,
            };
            let ghost cv = c;
            assert(active(v@, i as int, 0) == 0);
            assert(cv.describes(v@));
            out.push(c);
            assert(ranges(out@) =~= ranges(before).push(cv.range()));
        }
        i = i + 1;
    }
    out
}

/// The chains from the longest down; equally long ones by how long their
/// launches run, then in their own order.
pub open spec fn is_ranking(v: Seq<StreamLaunch>, c: Seq<Range>, p: Seq<int>) -> bool {
    order::is_order2(
        Seq::new(c.len(), |i: int| -span(v, c[i].first, c[i].count)),
        Seq::new(c.len(), |i: int| -active(v, c[i].first, c[i].count)),
        p,
    )
}

/// The chains of launches, the longest first. The launches are given by stream,
/// and in the order of their starts on each.
pub fn critical_chains(v: &[StreamLaunch], gap: i64) -> (r: Vec<Chain>)
    ensures
        exists|p: Seq<int>| #[trigger]
            is_ranking(v@, chains(v@, gap as int, v@.len() as int), p) && ranges(r@)
                == groups::picked(chains(v@, gap as int, v@.len() as int), p),
        forall|i: int| 0 <= i < r@.len() ==> (#[trigger] r@[i]).describes(v@),
        v@.len() > 0 ==> r@.len() > 0,
{
    let all = build_chains(v, gap);
    let ghost c = chains(v@, gap as int, v@.len() as int);
    let ghost spans = Seq::new(c.len(), |i: int| -span(v@, c[i].first, c[i].count));
    let ghost actives = Seq::new(c.len(), |i: int| -active(v@, c[i].first, c[i].count));
    let mut a: Vec<i128> = Vec::new();
    let mut b: Vec<i128> = Vec::new();
    let n: usize = v.len();
    let mut i: usize = 0;
    while i < all.len()
        invariant
            i <= all@.len(),
            n == v@.len(),
            ranges(all@) == c,
            forall|k: int| 0 <= k < all@.len() ==> (#[trigger] all@[k]).describes(v@),
            spans == Seq::new(c.len(), |i: int| -span(v@, c[i].first, c[i].count)),
            actives == Seq::new(c.len(), |i: int| -active(v@, c[i].first, c[i].count)),
            a@.len() == i,
            b@.len() == i,
            order::ints(a@) =~= spans.take(i as int),
            order::ints(b@) =~= actives.take(i as int),
        decreases all@.len() - i,
    {
        let ghost before_a = a@;
        let ghost before_b = b@;
        assert(all@[i as int].describes(v@));
        assert(c[i as int] == all@[i as int].range());
        proof {
            active_is_small(v@, all@[i as int].first as int, all@[i as int].count as int);
        }
        a.push(-all[i].span);
        b.push(-all[i].active);
        assert(order::ints(a@) =~= order::ints(before_a).push(spans[i as int]));
        assert(order::ints(b@) =~= order::ints(before_b).push(actives[i as int]));
        i = i + 1;
    }
    assert(order::ints(a@) =~= spans);
    assert(order::ints(b@) =~= actives);
    let p = order2(&a, &b);
    let ghost pp = order::positions(p@);
    assert(is_ranking(v@, c, pp));
    let mut out: Vec<Chain> = Vec::new();
    let mut i: usize = 0;
    while i < p.len()
        invariant
            i <= p@.len(),
            a@.len() == all@.len(),
            ranges(all@) == c,
            pp == order::positions(p@),
            forall|k: int| 0 <= k < p@.len() ==> (#[trigger] p@[k]) < a@.len(),
            forall|k: int| 0 <= k < all@.len() ==> (#[trigger] all@[k]).describes(v@),
            out@.len() == i,
            forall|k: int| 0 <= k < out@.len() ==> (#[trigger] out@[k]).describes(v@),
            ranges(out@) =~= groups::picked(c, pp).take(i as int),
        decreases p@.len() - i,
    {
        let ghost before = out@;
        let item = &all[p[i]];
        assert(pp[i as int] == p@[i as int]);
        let copy = Chain {
            stream: item.stream,
            first: item.first,
            count: item.count,
            span: item.span,
            active: item.active,
        };
        let ghost cv = copy;
        assert(cv.describes(v@));
        assert(cv.range() == c[pp[i as int]]);
        out.push(copy);
        assert(ranges(out@) =~= ranges(before).push(cv.range()));
        i = i + 1;
    }
    assert(ranges(out@) =~= groups::picked(c, pp));
    proof {
        if v@.len() > 0 {
            chains_cover(v@, gap as int, v@.len() as int);
        }
    }
    out
}

/// The kernels of a chain, those that run longest in all first.
pub fn chain_kernels(names: &[String], v: &[StreamLaunch], chain: &Chain) -> (r: Vec<NamedTotal>)
    requires
        names@.len() == v@.len(),
        chain.first + chain.count <= v@.len(),
    ensures
        groups::total_views(r@) == groups::ranked(
            text::texts(names@).subrange(chain.first as int, chain.first + chain.count),
            Seq::new(chain.count as nat, |i: int| v@[chain.first + i].duration),
        ),
{
    let n: usize = v.len();
    let mut who: Vec<String> = Vec::new();
    let mut long: Vec<i64> = Vec::new();
    let mut k: usize = 0;
    let ghost all = text::texts(names@);
    while k < chain.count
        invariant
            k <= chain.count,
            n == v@.len(),
            names@.len() == v@.len(),
            chain.first + chain.count <= n,
            all == text::texts(names@),
            who@.len() == k,
            long@.len() == k,
            text::texts(who@) =~= all.subrange(chain.first as int, chain.first + k),
            long@ =~= Seq::new(k as nat, |i: int| v@[chain.first + i].duration),
        decreases chain.count - k,
    {
        let ghost before = who@;
        who.push(names[chain.first + k].clone());
        long.push(v[chain.first + k].duration);
        assert(text::texts(who@) =~= text::texts(before).push(all[chain.first + k]));
        k = k + 1;
    }
    ranked_totals(&who, &long)
}

// ---------------------------------------------------------------------------
// Laws
// ---------------------------------------------------------------------------

/// The chains take up all launches, one after the other.
pub proof fn chains_cover(v: Seq<StreamLaunch>, gap: int, n: int)
    requires
        0 <= n <= v.len(),
    ensures
        ({
            let c = chains(v, gap, n);
            &&& n > 0 ==> c.len() > 0 && c[0].first == 0 && c.last().first + c.last().count == n
            &&& n == 0 ==> c.len() == 0
            &&& forall|k: int| 0 <= k < c.len() ==> (#[trigger] c[k]).count > 0
            &&& forall|k: int|
                0 <= k < c.len() - 1 ==> c[k + 1].first == (#[trigger] c[k]).first + c[k].count
        }),
    decreases n,
{
    if n > 0 {
        chains_cover(v, gap, n - 1);
        let before = chains(v, gap, n - 1);
        let c = chains(v, gap, n);
        if n == 1 {
            assert(c =~= seq![Range { first: 0, count: 1 }]);
        } else if goes_on(v, gap, n - 1) {
            assert forall|k: int| 0 <= k < c.len() - 1 implies c[k + 1].first == (
            #[trigger] c[k]).first + c[k].count by {
                assert(c[k] == before[k]);
                assert(before[k + 1].first == before[k].first + before[k].count);
            }
        } else {
            assert forall|k: int| 0 <= k < c.len() - 1 implies c[k + 1].first == (
            #[trigger] c[k]).first + c[k].count by {
                assert(c[k] == before[k]);
            }
        }
    }
}

/// In a chain each launch goes on with the one before it.
pub proof fn a_chain_goes_on(v: Seq<StreamLaunch>, gap: int, n: int, k: int, i: int)
    requires
        0 <= n <= v.len(),
        0 <= k < chains(v, gap, n).len(),
        chains(v, gap, n)[k].first < i < chains(v, gap, n)[k].first + chains(v, gap, n)[k].count,
    ensures
        goes_on(v, gap, i),
    decreases n,
{
    let before = chains(v, gap, n - 1);
    let c = chains(v, gap, n);
    chains_cover(v, gap, n - 1);
    if before.len() > 0 && goes_on(v, gap, n - 1) {
        if k < c.len() - 1 {
            assert(c[k] == before[k]);
            a_chain_goes_on(v, gap, n - 1, k, i);
        } else if i < n - 1 {
            a_chain_goes_on(v, gap, n - 1, k, i);
        }
    } else {
        if k < c.len() - 1 {
            assert(c[k] == before[k]);
            a_chain_goes_on(v, gap, n - 1, k, i);
        }
    }
}

/// A launch that begins a chain does not go on with the one before it.
pub proof fn a_chain_begins_anew(v: Seq<StreamLaunch>, gap: int, n: int, k: int)
    requires
        0 <= n <= v.len(),
        0 <= k < chains(v, gap, n).len(),
    ensures
        !goes_on(v, gap, chains(v, gap, n)[k].first),
    decreases n,
{
    let before = chains(v, gap, n - 1);
    let c = chains(v, gap, n);
    chains_cover(v, gap, n - 1);
    if before.len() > 0 && goes_on(v, gap, n - 1) {
        a_chain_begins_anew(v, gap, n - 1, k);
    } else if k < c.len() - 1 {
        a_chain_begins_anew(v, gap, n - 1, k);
    } else {
        if before.len() == 0 {
            assert(n == 1);
        }
    }
}

/// No chain is longer than the first of a ranking.
pub proof fn the_first_chain_is_longest(v: Seq<StreamLaunch>, c: Seq<Range>, p: Seq<int>, k: int)
    requires
        is_ranking(v, c, p),
        0 <= k < c.len(),
    ensures
        span(v, c[k].first, c[k].count) <= span(v, c[p[0]].first, c[p[0]].count),
{
    assert(p.contains(k));
    let j = choose|j: int| 0 <= j < p.len() && p[j] == k;
    if j > 0 {
        assert(order::before2(
            Seq::new(c.len(), |i: int| -span(v, c[i].first, c[i].count)),
            Seq::new(c.len(), |i: int| -active(v, c[i].first, c[i].count)),
            p[0],
            p[j],
        ));
    }
}

/// A chain stays on one stream and never waits longer than the gap, and a chain
/// ends only where the next launch is on another stream or comes later than
/// that.
pub proof fn chains_break_where_they_must(v: Seq<StreamLaunch>, gap: int, k: int, i: int)
    requires
        0 <= k < chains(v, gap, v.len() as int).len(),
        ({
            let c = chains(v, gap, v.len() as int)[k];
            c.first <= i < c.first + c.count
        }),
    ensures
        ({
            let c = chains(v, gap, v.len() as int)[k];
            let same = i > 0 && v[i].stream == v[i - 1].stream;
            let soon = i > 0 && v[i].start <= v[i - 1].start + v[i - 1].duration + gap;
            (same && soon) <==> i > c.first
        }),
{
    let n = v.len() as int;
    if i > chains(v, gap, n)[k].first {
        a_chain_goes_on(v, gap, n, k, i);
    } else {
        a_chain_begins_anew(v, gap, n, k);
    }
}

/// The active time of a chain is that of its parts, and one launch is active for
/// its duration; the span of a chain is that of its parts and the wait between
/// them.
pub proof fn chains_are_made_of_their_launches(
    v: Seq<StreamLaunch>,
    first: int,
    a: int,
    b: int,
)
    requires
        0 < a,
        0 < b,
    ensures
        active(v, first, 1) == v[first].duration,
        active(v, first, a + b) == active(v, first, a) + active(v, first + a, b),
        span(v, first, 1) == v[first].duration,
        span(v, first, a + b) == span(v, first, a) + (v[first + a].start - (v[first + a - 1].start
            + v[first + a - 1].duration)) + span(v, first + a, b),
    decreases b,
{
    reveal_with_fuel(active, 3);
    if b > 1 {
        chains_are_made_of_their_launches(v, first, a, b - 1);
        assert(first + a + b - 1 == first + (a + b) - 1);
    }
}

/// The kernels of a chain account for all of its active time.
pub proof fn a_chain_is_accounted_for(
    names: Seq<Seq<char>>,
    v: Seq<StreamLaunch>,
    first: int,
    count: int,
)
    requires
        names.len() == v.len(),
        0 <= first,
        0 <= count,
        first + count <= v.len(),
    ensures
        ({
            let r = groups::ranked(
                names.subrange(first, first + count),
                Seq::new(count as nat, |i: int| v[first + i].duration),
            );
            groups::sum_of_totals(r, r.len() as int) == active(v, first, count)
        }),
{
    let amounts = Seq::new(count as nat, |i: int| v[first + i].duration);
    groups::a_ranking_is_complete(names.subrange(first, first + count), amounts);
    active_is_sum(v, amounts, first, count);
}

proof fn active_is_sum(v: Seq<StreamLaunch>, amounts: Seq<i64>, first: int, count: int)
    requires
        0 <= count <= amounts.len(),
        forall|i: int| 0 <= i < amounts.len() ==> #[trigger] amounts[i] == v[first + i].duration,
    ensures
        groups::sum(amounts, count) == active(v, first, count),
    decreases count,
{
    if count > 0 {
        active_is_sum(v, amounts, first, count - 1);
        assert(amounts[count - 1] == v[first + count - 1].duration);
    }
}

/// In a ranking no chain comes before one that spans longer, nor, of two that
/// span as long, before one that is active for longer; and every chain is there.
pub proof fn a_ranking_goes_down(v: Seq<StreamLaunch>, c: Seq<Range>, p: Seq<int>, i: int, j: int)
    requires
        is_ranking(v, c, p),
        0 <= i < j < p.len(),
    ensures
        ({
            let (a, b) = (c[p[i]], c[p[j]]);
            ||| span(v, a.first, a.count) > span(v, b.first, b.count)
            ||| span(v, a.first, a.count) == span(v, b.first, b.count) && active(
                v,
                a.first,
                a.count,
            ) >= active(v, b.first, b.count)
        }),
        p.len() == c.len(),
        forall|k: int| 0 <= k < c.len() ==> #[trigger] p.contains(k),
{
    let spans = Seq::new(c.len(), |i: int| -span(v, c[i].first, c[i].count));
    let actives = Seq::new(c.len(), |i: int| -active(v, c[i].first, c[i].count));
    assert(order::before2(spans, actives, p[i], p[j]));
}

} // verus!
