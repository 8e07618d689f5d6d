//! The life of device memory: how much is in use, how much is never freed, and
//! how long allocations last. Times are integers of nanoseconds.

use std::collections::HashMap;

use vstd::prelude::*;

use crate::text::same_text;

verus! {

/// What happened to an address.
#[derive(Debug, Clone, Copy, PartialEq, Eq, Structural)]
pub enum AllocOp {
    Alloc,
    Free,
    Other,
}

pub fn alloc_op(op: &str) -> (r: AllocOp)
    ensures
        r == if op@ == "alloc"@ {
            AllocOp::Alloc
        } else if op@ == "free"@ {
            AllocOp::Free
        } else {
            AllocOp::Other
        },
{
    if same_text(op, "alloc") {
        AllocOp::Alloc
    } else if same_text(op, "free") {
        AllocOp::Free
    } else {
        AllocOp::Other
    }
}

#[derive(Debug, Clone, Copy, PartialEq, Eq, Structural)]
pub struct AllocEvent {
    pub time: i64,
    pub op: AllocOp,
    pub address: i64,
    pub bytes: i64,
}

/// The state of memory after some events: what is live, with its size and when
/// it was allocated; how much is in use, at most and when; and the sizes and
/// lifetimes of what was freed.
#[verifier::ext_equal]
pub struct MemoryV {
    pub live: Map<i64, (i64, i64)>,
    pub in_use: int,
    pub peak: int,
    pub peak_time: int,
    pub lifetimes: Seq<(i64, i128)>,
}

/// What one event does. An address that is allocated again before it is freed
/// goes by its last size; what it took before stays in use.
pub open spec fn step(s: MemoryV, e: AllocEvent) -> MemoryV {
    match e.op {
        AllocOp::Alloc => {
            let in_use = s.in_use + e.bytes;
            MemoryV {
                live: s.live.insert(e.address, (e.bytes, e.time)),
                in_use,
                peak: if in_use > s.peak {
                    in_use
                } else {
                    s.peak
                },
                peak_time: if in_use > s.peak {
                    e.time as int
                } else {
                    s.peak_time
                },
                lifetimes: s.lifetimes,
            }
        },
        AllocOp::Free => if s.live.contains_key(e.address) {
            let (bytes, since) = s.live[e.address];
            MemoryV {
                live: s.live.remove(e.address),
                in_use: s.in_use - bytes,
                peak: s.peak,
                peak_time: s.peak_time,
                lifetimes: s.lifetimes.push((bytes, (e.time - since) as i128)),
            }
        } else {
            s
        },
        AllocOp::Other => s,
    }
}

pub open spec fn no_memory() -> MemoryV {
    MemoryV {
        live: Map::empty(),
        in_use: 0,
        peak: 0,
        peak_time: 0,
        lifetimes: Seq::empty(),
    }
}

/// The state after the first `n` events.
pub open spec fn after(events: Seq<AllocEvent>, n: int) -> MemoryV
    decreases n,
{
    if n <= 0 {
        no_memory()
    } else {
        step(after(events, n - 1), events[n - 1])
    }
}

/// The sizes of all that is live, together.
pub open spec fn live_bytes(live: Map<i64, (i64, i64)>) -> int
    decreases live.dom().len(),
    when live.dom().finite()
{
    if live.dom().len() == 0 {
        0
    } else {
        let a = live.dom().choose();
        live[a].0 + live_bytes(live.remove(a))
    }
}

/// Any address can be counted first.
proof fn counted_first(live: Map<i64, (i64, i64)>, a: i64)
    requires
        live.dom().finite(),
        live.contains_key(a),
    ensures
        live_bytes(live) == live[a].0 + live_bytes(live.remove(a)),
    decreases live.dom().len(),
{
    let c = live.dom().choose();
    assert(live.dom().contains(a));
    assert(live.dom().len() > 0);
    assert(live.remove(c).dom() =~= live.dom().remove(c));
    assert(live.remove(a).dom() =~= live.dom().remove(a));
    if c != a {
        counted_first(live.remove(c), a);
        counted_first(live.remove(a), c);
        assert(live.remove(c).remove(a) =~= live.remove(a).remove(c));
    }
}

/// What is live is finite.
proof fn live_is_finite(events: Seq<AllocEvent>, n: int)
    ensures
        after(events, n).live.dom().finite(),
    decreases n,
{
    if n > 0 {
        live_is_finite(events, n - 1);
    }
}

/// What became of memory.
#[derive(Debug)]
pub struct MemoryReport {
    pub peak: i128,
    pub peak_time: i64,
    /// What was never freed.
    pub leaked: i128,
    pub leak_count: usize,
    pub lifetimes: Vec<(i64, i128)>,
}

/// More events than this do not fit in memory.
pub const MOST_EVENTS: u64 = 0x0fff_ffff_ffff_ffff;

/// Follows the events, which are given in the order of time.
pub fn memory_report(events: &[AllocEvent]) -> (r: MemoryReport)
    requires
        events@.len() <= MOST_EVENTS,
    ensures
        ({
            let s = after(events@, events@.len() as int);
            &&& r.peak == s.peak
            &&& r.peak_time == s.peak_time
            &&& r.leaked == live_bytes(s.live)
            &&& r.leak_count == s.live.dom().len()
            &&& r.lifetimes@ == s.lifetimes
        }),
{
    broadcast use vstd::std_specs::hash::group_hash_axioms;

    let mut live: HashMap<i64, (i64, i64)> = HashMap::new();
    let mut in_use: i128 = 0;
    let mut peak: i128 = 0;
    let mut peak_time: i64 = 0;
    let mut leaked: i128 = 0;
    let mut lifetimes: Vec<(i64, i128)> = Vec::new();
    let mut i: usize = 0;
    assert(live@ =~= no_memory().live);
    while i < events.len()
        invariant
            i <= events@.len() <= MOST_EVENTS,
            live@ == after(events@, i as int).live,
            in_use == after(events@, i as int).in_use,
            peak == after(events@, i as int).peak,
            peak_time == after(events@, i as int).peak_time,
            lifetimes@ == after(events@, i as int).lifetimes,
            leaked == live_bytes(live@),
            -0x1_0000_0000_0000_0000 * i <= in_use <= 0x1_0000_0000_0000_0000 * i,
            -0x1_0000_0000_0000_0000 * i <= leaked <= 0x1_0000_0000_0000_0000 * i,
        decreases events@.len() - i,
    {
        broadcast use vstd::std_specs::hash::group_hash_axioms;

        let e = events[i];
        let ghost before = live@;
        proof {
            live_is_finite(events@, i as int);
        }
        match e.op {
            AllocOp::Alloc => {
                let replaced: i64 = match live.get(&e.address) {
                    Some(v) => v.0,
                    None => 0,
                };
                proof {
                    if before.contains_key(e.address) {
                        counted_first(before, e.address);
                    } else {
                        assert(before.remove(e.address) =~= before);
                    }
                    let now = before.insert(e.address, (e.bytes, e.time));
                    counted_first(now, e.address);
                    assert(now.remove(e.address) =~= before.remove(e.address));
                }
                live.insert(e.address, (e.bytes, e.time));
                leaked = leaked - replaced as i128 + e.bytes as i128;
                in_use = in_use + e.bytes as i128;
                if in_use > peak {
                    peak = in_use;
                    peak_time = e.time;
                }
            },
            AllocOp::Free => {
                proof {
                    if before.contains_key(e.address) {
                        counted_first(before, e.address);
                    }
                }
                match live.remove(&e.address) {
                    Some((bytes, since)) => {
                        in_use = in_use - bytes as i128;
                        leaked = leaked - bytes as i128;
                        lifetimes.push((bytes, e.time as i128 - since as i128));
                    },
                    None => {
                        assert(live@ =~= before);
                    },
                }
            },
            AllocOp::Other => {},
        }
        i = i + 1;
    }
    MemoryReport { peak, peak_time, leaked, leak_count: live.len(), lifetimes }
}

/// Allocations that last less long are churn.
pub const SHORT_LIFE: i128 = 100_000;

/// How many of the first `n` lifetimes are short, and how many bytes they are
/// of.
pub open spec fn churn(l: Seq<(i64, i128)>, n: int) -> (int, int)
    decreases n,
{
    if n <= 0 {
        (0, 0)
    } else {
        let (count, bytes) = churn(l, n - 1);
        if l[n - 1].1 < SHORT_LIFE {
            (count + 1, bytes + l[n - 1].0)
        } else {
            (count, bytes)
        }
    }
}

/// The allocations that were freed at once, where there are more than ten.
pub fn churn_report(lifetimes: &[(i64, i128)]) -> (r: Option<(usize, i128)>)
    ensures
        ({
            let c = churn(lifetimes@, lifetimes@.len() as int);
            match r {
                Some((count, bytes)) => c.0 > 10 && count == c.0 && bytes == c.1,
                None => c.0 <= 10,
            }
        }),
{
    let mut count: usize = 0;
    let mut bytes: i128 = 0;
    let mut i: usize = 0;
    let n: usize = lifetimes.len();
    while i < n
        invariant
            i <= n,
            n == lifetimes@.len(),
            count <= i,
            count == churn(lifetimes@, i as int).0,
            bytes == churn(lifetimes@, i as int).1,
            -0x8000_0000_0000_0000 * i <= bytes <= 0x8000_0000_0000_0000 * i,
        decreases n - i,
    {
        if lifetimes[i].1 < SHORT_LIFE {
            count = count + 1;
            bytes = bytes + lifetimes[i].0 as i128;
        }
        i = i + 1;
    }
    if count > 10 {
        Some((count, bytes))
    } else {
        None
    }
}

// ---------------------------------------------------------------------------
// Laws
// ---------------------------------------------------------------------------

/// No address is allocated while it is live.
pub open spec fn never_reused_early(events: Seq<AllocEvent>, n: int) -> bool {
    forall|i: int|
        0 <= i < n && (#[trigger] events[i]).op == AllocOp::Alloc ==> !after(
            events,
            i,
        ).live.contains_key(events[i].address)
}

/// Where no address is allocated while it is live, what is in use is what is
/// live; at the end that is what was leaked.
pub proof fn in_use_is_live(events: Seq<AllocEvent>, n: int)
    requires
        0 <= n <= events.len(),
        never_reused_early(events, n),
    ensures
        after(events, n).in_use == live_bytes(after(events, n).live),
    decreases n,
{
    if n > 0 {
        in_use_is_live(events, n - 1);
        live_is_finite(events, n - 1);
        let s = after(events, n - 1);
        let e = events[n - 1];
        match e.op {
            AllocOp::Alloc => {
                let now = s.live.insert(e.address, (e.bytes, e.time));
                counted_first(now, e.address);
                assert(now.remove(e.address) =~= s.live);
            },
            AllocOp::Free => {
                if s.live.contains_key(e.address) {
                    counted_first(s.live, e.address);
                }
            },
            AllocOp::Other => {},
        }
    }
}

/// At no time is more in use than at the peak.
pub proof fn the_peak_is_the_most(events: Seq<AllocEvent>, i: int, n: int)
    requires
        0 <= i <= n <= events.len(),
        forall|k: int| 0 <= k < n ==> (#[trigger] events[k]).bytes >= 0,
    ensures
        after(events, i).in_use <= after(events, n).peak,
        forall|a: i64| #[trigger]
            after(events, n).live.contains_key(a) ==> after(events, n).live[a].0 >= 0,
    decreases n,
{
    if n > 0 {
        if i < n {
            the_peak_is_the_most(events, i, n - 1);
        } else {
            the_peak_is_the_most(events, n - 1, n - 1);
        }
        let s = after(events, n - 1);
        let e = events[n - 1];
        assert(e.bytes >= 0);
        assert forall|a: i64| #[trigger] after(events, n).live.contains_key(a) implies after(
            events,
            n,
        ).live[a].0 >= 0 by {
            if e.op == AllocOp::Alloc && a == e.address {
            } else {
                assert(s.live.contains_key(a));
            }
        }
    }
}

proof fn untouched(events: Seq<AllocEvent>, a: i64, i: int, n: int)
    requires
        0 <= i <= n <= events.len(),
        forall|k: int| i <= k < n ==> (#[trigger] events[k]).address != a || events[k].op
            == AllocOp::Other,
    ensures
        after(events, n).live.contains_key(a) == after(events, i).live.contains_key(a),
        after(events, n).live.contains_key(a) ==> after(events, n).live[a] == after(
            events,
            i,
        ).live[a],
    decreases n - i,
{
    if i < n {
        untouched(events, a, i, n - 1);
        assert(events[n - 1].address != a || events[n - 1].op == AllocOp::Other);
    }
}

/// What is allocated and freed next lives from the one to the other, with the
/// size that it was allocated with, and is then gone.
pub proof fn a_freed_allocation_has_its_lifetime(events: Seq<AllocEvent>, i: int, j: int)
    requires
        0 <= i < j < events.len(),
        events[i].op == AllocOp::Alloc,
        events[j].op == AllocOp::Free,
        events[j].address == events[i].address,
        forall|k: int|
            i < k < j ==> (#[trigger] events[k]).address != events[i].address || events[k].op
                == AllocOp::Other,
    ensures
        ({
            let before = after(events, j);
            let now = after(events, j + 1);
            &&& now.lifetimes == before.lifetimes.push(
                (events[i].bytes, (events[j].time - events[i].time) as i128),
            )
            &&& now.in_use == before.in_use - events[i].bytes
            &&& !now.live.contains_key(events[i].address)
        }),
{
    untouched(events, events[i].address, i + 1, j);
}

/// What is allocated and never touched again is a leak of its size.
pub proof fn an_allocation_that_is_not_freed_leaks(events: Seq<AllocEvent>, i: int)
    requires
        0 <= i < events.len(),
        events[i].op == AllocOp::Alloc,
        forall|k: int|
            i < k < events.len() ==> (#[trigger] events[k]).address != events[i].address
                || events[k].op == AllocOp::Other,
    ensures
        ({
            let end = after(events, events.len() as int);
            &&& end.live.contains_key(events[i].address)
            &&& end.live[events[i].address].0 == events[i].bytes
            &&& live_bytes(end.live) == events[i].bytes + live_bytes(
                end.live.remove(events[i].address),
            )
        }),
{
    let n = events.len() as int;
    untouched(events, events[i].address, i + 1, n);
    live_is_finite(events, n);
    counted_first(after(events, n).live, events[i].address);
}

/// Freeing what is not live changes nothing.
pub proof fn freeing_what_is_not_live_changes_nothing(events: Seq<AllocEvent>, n: int)
    requires
        0 <= n < events.len(),
        events[n].op == AllocOp::Free,
        !after(events, n).live.contains_key(events[n].address),
    ensures
        after(events, n + 1) == after(events, n),
{
}

/// The peak was reached, at the time that is told: nothing is invented.
pub proof fn the_peak_was_reached(events: Seq<AllocEvent>, n: int)
    requires
        0 <= n <= events.len(),
    ensures
        after(events, n).peak > 0 ==> exists|i: int|
            0 < i <= n && (#[trigger] after(events, i)).in_use == after(events, n).peak && events[i
                - 1].time == after(events, n).peak_time && events[i - 1].op == AllocOp::Alloc,
        after(events, n).peak >= 0,
    decreases n,
{
    if n > 0 {
        the_peak_was_reached(events, n - 1);
        let s = after(events, n - 1);
        let t = after(events, n);
        if t.peak == s.peak && t.peak_time == s.peak_time {
            if t.peak > 0 {
                let i = choose|i: int|
                    0 < i <= n - 1 && (#[trigger] after(events, i)).in_use == s.peak && events[i
                        - 1].time == s.peak_time && events[i - 1].op == AllocOp::Alloc;
                assert(after(events, i).in_use == t.peak);
            }
        } else {
            assert(after(events, n).in_use == t.peak);
        }
    }
}

/// An allocation that lasts less than a tenth of a millisecond is churn with all
/// its bytes, any other is not, and lists of allocations add up.
pub proof fn churn_adds_up(l: Seq<(i64, i128)>, bytes: i64, life: i128)
    ensures
        ({
            let n = l.len() as int;
            let more = churn(l.push((bytes, life)), n + 1);
            &&& life < 100_000 ==> more == (churn(l, n).0 + 1, churn(l, n).1 + bytes)
            &&& life >= 100_000 ==> more == churn(l, n)
        }),
{
    churn_of_front(l, l.push((bytes, life)), l.len() as int);
}

proof fn churn_of_front(l: Seq<(i64, i128)>, m: Seq<(i64, i128)>, n: int)
    requires
        0 <= n <= l.len(),
        n <= m.len(),
        forall|i: int| 0 <= i < n ==> l[i] == #[trigger] m[i],
    ensures
        churn(l, n) == churn(m, n),
    decreases n,
{
    if n > 0 {
        churn_of_front(l, m, n - 1);
        assert(l[n - 1] == m[n - 1]);
    }
}

} // verus!
