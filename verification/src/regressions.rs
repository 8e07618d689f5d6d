//! How two sessions differ. Times are integers of nanoseconds, and a percentage
//! is given in millionths of a per cent.

use vstd::prelude::*;

use crate::groups;
use crate::order;
use crate::order::order;

verus! {

/// A kernel's time in an earlier session and in this one.
#[derive(Debug, Clone, Copy, PartialEq, Eq, Structural)]
pub struct BeforeAfter {
    pub before: i64,
    pub after: i64,
}

/// How a kernel's time changed.
#[derive(Debug, Clone, Copy, PartialEq, Eq, Structural)]
pub enum Change {
    /// It was not there before.
    New,
    /// It is no longer there.
    Gone,
    /// It changed by less than the thresholds.
    Quiet,
    Slower,
    Faster,
}

pub open spec fn delta(k: BeforeAfter) -> int {
    k.after - k.before
}

pub open spec fn size(n: int) -> int {
    if n < 0 {
        -n
    } else {
        n
    }
}

/// The change is below `percent` of the earlier time. Where that is zero the
/// change is taken as none.
pub open spec fn below_percent(k: BeforeAfter, percent: int) -> bool {
    if k.before > 0 {
        size(delta(k)) * 100_000_000 < percent * k.before
    } else {
        0 < percent
    }
}

/// How a kernel changed, where changes below `absolute` or below `percent` are
/// noise.
pub open spec fn change(k: BeforeAfter, absolute: int, percent: int) -> Change {
    if k.before <= 0 && k.after > 0 {
        Change::New
    } else if k.after <= 0 && k.before > 0 {
        Change::Gone
    } else if size(delta(k)) < absolute || below_percent(k, percent) {
        Change::Quiet
    } else if delta(k) > 0 {
        Change::Slower
    } else {
        Change::Faster
    }
}

pub fn classify_change(k: BeforeAfter, absolute: i64, percent: i64) -> (r: Change)
    ensures
        r == change(k, absolute as int, percent as int),
{
    if k.before <= 0 && k.after > 0 {
        return Change::New;
    }
    if k.after <= 0 && k.before > 0 {
        return Change::Gone;
    }
    let d: i128 = k.after as i128 - k.before as i128;
    let s: i128 = if d < 0 {
        -d
    } else {
        d
    };
    if s < absolute as i128 {
        return Change::Quiet;
    }
    let small: bool = if k.before > 0 {
        proof {
            let p = percent as int;
            let b = k.before as int;
            assert(-0x8000_0000_0000_0000 * 0x8000_0000_0000_0000 <= p * b
                <= 0x8000_0000_0000_0000 * 0x8000_0000_0000_0000) by (nonlinear_arith)
                requires
                    -0x8000_0000_0000_0000 <= p <= 0x8000_0000_0000_0000,
                    0 <= b <= 0x8000_0000_0000_0000,
            ;
        }
        s * 100_000_000 < percent as i128 * k.before as i128
    } else {
        0 < percent
    };
    if small {
        Change::Quiet
    } else if d > 0 {
        Change::Slower
    } else {
        Change::Faster
    }
}

/// The kernels among the first `n` that changed in one way.
pub open spec fn changed(
    v: Seq<BeforeAfter>,
    absolute: int,
    percent: int,
    what: Change,
    n: int,
) -> Seq<int>
    decreases n,
{
    if n <= 0 {
        Seq::empty()
    } else {
        let rest = changed(v, absolute, percent, what, n - 1);
        if change(v[n - 1], absolute, percent) == what {
            rest.push(n - 1)
        } else {
            rest
        }
    }
}

/// What kernels that changed in one way are ranked by: those that lost most
/// time, those that won most, and new and gone ones by their time.
pub open spec fn weight(k: BeforeAfter, what: Change) -> int {
    match what {
        Change::New => k.after as int,
        Change::Gone => k.before as int,
        Change::Slower => delta(k),
        Change::Faster => -delta(k),
        Change::Quiet => 0,
    }
}

/// The kernels that changed in one way, the heaviest first; equal ones keep
/// their order.
pub open spec fn ranked(v: Seq<BeforeAfter>, absolute: int, percent: int, what: Change) -> Seq<int> {
    let c = changed(v, absolute, percent, what, v.len() as int);
    groups::picked(c, order::order_of(Seq::new(c.len(), |i: int| -weight(v[c[i]], what))))
}

fn rank_changes(v: &[BeforeAfter], absolute: i64, percent: i64, what: Change) -> (r: Vec<usize>)
    ensures
        order::positions(r@) == ranked(v@, absolute as int, percent as int, what),
        forall|i: int| 0 <= i < r@.len() ==> (#[trigger] r@[i]) < v@.len(),
{
    let n: usize = v.len();
    let ghost a = absolute as int;
    let ghost p = percent as int;
    let mut at: Vec<usize> = Vec::new();
    let mut keys: Vec<i128> = Vec::new();
    let mut i: usize = 0;
    assert(order::positions(at@) =~= changed(v@, a, p, what, 0));
    while i < n
        invariant
            i <= n,
            n == v@.len(),
            a == absolute,
            p == percent,
            at@.len() == keys@.len(),
            order::positions(at@) == changed(v@, a, p, what, i as int),
            forall|k: int| 0 <= k < at@.len() ==> (#[trigger] at@[k]) < n,
            forall|k: int|
                0 <= k < at@.len() ==> #[trigger] keys@[k] == -weight(v@[at@[k] as int], what),
        decreases n - i,
    {
        let k = v[i];
        if classify_change(k, absolute, percent) == what {
            let ghost before = at@;
            let d: i128 = k.after as i128 - k.before as i128;
            let w: i128 = match what {
                Change::New => k.after as i128,
                Change::Gone => k.before as i128,
                Change::Slower => d,
                Change::Faster => -d,
                Change::Quiet => 0,
            };
            at.push(i);
            keys.push(-w);
            assert(order::positions(at@) =~= order::positions(before).push(i as int));
        }
        i = i + 1;
    }
    let ghost c = changed(v@, a, p, what, n as int);
    assert(order::ints(keys@) =~= Seq::new(c.len(), |i: int| -weight(v@[c[i]], what))) by {
        assert forall|k: int| 0 <= k < c.len() implies order::ints(keys@)[k] == -weight(
            v@[c[k]],
            what,
        ) by {
            assert(order::positions(at@)[k] == at@[k]);
        }
    }
    let q = order(&keys);
    let ghost want = ranked(v@, a, p, what);
    let mut out: Vec<usize> = Vec::new();
    let mut k: usize = 0;
    while k < q.len()
        invariant
            k <= q@.len(),
            n == v@.len(),
            q@.len() == at@.len(),
            keys@.len() == at@.len(),
            order::positions(at@) == c,
            want == groups::picked(c, order::positions(q@)),
            forall|j: int| 0 <= j < q@.len() ==> (#[trigger] q@[j]) < keys@.len(),
            forall|j: int| 0 <= j < at@.len() ==> (#[trigger] at@[j]) < n,
            out@.len() == k,
            forall|j: int| 0 <= j < out@.len() ==> (#[trigger] out@[j]) < n,
            order::positions(out@) =~= want.take(k as int),
        decreases q@.len() - k,
    {
        let ghost before = out@;
        assert(order::positions(q@)[k as int] == q@[k as int]);
        assert(order::positions(at@)[q@[k as int] as int] == at@[q@[k as int] as int]);
        out.push(at[q[k]]);
        assert(order::positions(out@) =~= order::positions(before).push(want[k as int]));
        k = k + 1;
    }
    assert(order::positions(out@) =~= want);
    out
}

/// What the slower and the faster ones of the first `n` kernels lost in all.
pub open spec fn net(v: Seq<BeforeAfter>, absolute: int, percent: int, n: int) -> int
    decreases n,
{
    if n <= 0 {
        0
    } else {
        let c = change(v[n - 1], absolute, percent);
        net(v, absolute, percent, n - 1) + (if c == Change::Slower || c == Change::Faster {
            delta(v[n - 1])
        } else {
            0
        })
    }
}

/// The kernels that changed, by their number.
#[derive(Debug)]
pub struct Regressions {
    pub slower: Vec<usize>,
    pub faster: Vec<usize>,
    pub new: Vec<usize>,
    pub gone: Vec<usize>,
    pub net: i128,
}

/// More kernels than this do not fit in memory.
pub const MOST_KERNELS: u64 = 0x0fff_ffff_ffff_ffff;

/// Compares two sessions. Changes below `absolute` or below `percent` are
/// noise.
pub fn regressions(v: &[BeforeAfter], absolute: i64, percent: i64) -> (r: Regressions)
    requires
        v@.len() <= MOST_KERNELS,
    ensures
        ({
            let a = absolute as int;
            let p = percent as int;
            &&& order::positions(r.slower@) == ranked(v@, a, p, Change::Slower)
            &&& order::positions(r.faster@) == ranked(v@, a, p, Change::Faster)
            &&& order::positions(r.new@) == ranked(v@, a, p, Change::New)
            &&& order::positions(r.gone@) == ranked(v@, a, p, Change::Gone)
            &&& r.net == net(v@, a, p, v@.len() as int)
        }),
        forall|i: int| 0 <= i < r.slower@.len() ==> (#[trigger] r.slower@[i]) < v@.len(),
        forall|i: int| 0 <= i < r.faster@.len() ==> (#[trigger] r.faster@[i]) < v@.len(),
        forall|i: int| 0 <= i < r.new@.len() ==> (#[trigger] r.new@[i]) < v@.len(),
        forall|i: int| 0 <= i < r.gone@.len() ==> (#[trigger] r.gone@[i]) < v@.len(),
{
    let mut sum: i128 = 0;
    let mut i: usize = 0;
    while i < v.len()
        invariant
            i <= v@.len() <= MOST_KERNELS,
            sum == net(v@, absolute as int, percent as int, i as int),
            -0x1_0000_0000_0000_0000 * i <= sum <= 0x1_0000_0000_0000_0000 * i,
        decreases v@.len() - i,
    {
        let c = classify_change(v[i], absolute, percent);
        if c == Change::Slower || c == Change::Faster {
            sum = sum + (v[i].after as i128 - v[i].before as i128);
        }
        i = i + 1;
    }
    Regressions {
        slower: rank_changes(v, absolute, percent, Change::Slower),
        faster: rank_changes(v, absolute, percent, Change::Faster),
        new: rank_changes(v, absolute, percent, Change::New),
        gone: rank_changes(v, absolute, percent, Change::Gone),
        net: sum,
    }
}

/// How many kernels a plain comparison shows.
pub const SHOWN: usize = 15;

/// The kernels by how much their time changed, the most first.
pub open spec fn most_changed(v: Seq<BeforeAfter>) -> Seq<int> {
    let p = order::order_of(Seq::new(v.len(), |i: int| -size(delta(v[i]))));
    if p.len() < SHOWN {
        p
    } else {
        p.take(SHOWN as int)
    }
}

/// The kernels that a plain comparison shows: those that changed most.
pub fn largest_changes(v: &[BeforeAfter]) -> (r: Vec<usize>)
    ensures
        order::positions(r@) == most_changed(v@),
        forall|i: int| 0 <= i < r@.len() ==> (#[trigger] r@[i]) < v@.len(),
{
    let mut keys: Vec<i128> = Vec::new();
    let mut i: usize = 0;
    while i < v.len()
        invariant
            i <= v@.len(),
            order::ints(keys@) =~= Seq::new(i as nat, |k: int| -size(delta(v@[k]))),
        decreases v@.len() - i,
    {
        let ghost before = keys@;
        let d: i128 = v[i].after as i128 - v[i].before as i128;
        keys.push(
            if d < 0 {
                d
            } else {
                -d
            },
        );
        assert(order::ints(keys@) =~= order::ints(before).push(-size(delta(v@[i as int]))));
        i = i + 1;
    }
    assert(order::ints(keys@) =~= Seq::new(v@.len(), |k: int| -size(delta(v@[k]))));
    let mut p = order(&keys);
    if p.len() > SHOWN {
        p.truncate(SHOWN);
    }
    assert(order::positions(p@) =~= most_changed(v@));
    p
}

// ---------------------------------------------------------------------------
// Laws
// ---------------------------------------------------------------------------

/// A kernel that lost or won as much as the thresholds at least is never taken
/// for noise, and one that did not is.
pub proof fn thresholds_decide(k: BeforeAfter, absolute: int, percent: int)
    requires
        k.before > 0,
        k.after > 0,
    ensures
        change(k, absolute, percent) == Change::Quiet <==> (size(delta(k)) < absolute || size(
            delta(k),
        ) * 100_000_000 < percent * k.before),
        change(k, absolute, percent) == Change::Slower ==> k.after > k.before,
        change(k, absolute, percent) == Change::Faster ==> k.after <= k.before,
        change(k, absolute, percent) != Change::New,
        change(k, absolute, percent) != Change::Gone,
{
}

/// What is new in one direction is gone in the other.
pub proof fn new_and_gone_mirror(k: BeforeAfter, absolute: int, percent: int)
    ensures
        change(k, absolute, percent) == Change::New <==> change(
            BeforeAfter { before: k.after, after: k.before },
            absolute,
            percent,
        ) == Change::Gone,
{
}

/// A session does not differ from itself, whatever the thresholds are.
pub proof fn a_session_does_not_differ_from_itself(time: i64, absolute: int, percent: int)
    requires
        absolute > 0,
    ensures
        change(BeforeAfter { before: time, after: time }, absolute, percent) == Change::Quiet,
{
}

/// A kernel without earlier time is new and one without later time is gone;
/// between two times the sign tells slower from faster.
pub proof fn the_times_decide_the_change(k: BeforeAfter, absolute: int, percent: int)
    ensures
        change(k, absolute, percent) == Change::New <==> k.before <= 0 < k.after,
        change(k, absolute, percent) == Change::Gone <==> k.after <= 0 < k.before,
        change(k, absolute, percent) == Change::Slower ==> k.after > k.before,
        change(k, absolute, percent) == Change::Faster ==> k.after <= k.before,
        k.before > 0 && k.after > 0 && change(k, absolute, percent) == Change::Quiet ==> (
        k.after - k.before < absolute && k.before - k.after < absolute) || ((k.after - k.before)
            * 100_000_000 < percent * k.before && (k.before - k.after) * 100_000_000 < percent
            * k.before),
        k.before > 0 && k.after > 0 && change(k, absolute, percent) != Change::Quiet ==> (
        k.after - k.before >= absolute || k.before - k.after >= absolute) && ((k.after - k.before)
            * 100_000_000 >= percent * k.before || (k.before - k.after) * 100_000_000 >= percent
            * k.before),
{
    let d = delta(k);
    assert((-d) * 100_000_000 == -(d * 100_000_000));
}

proof fn changed_are_changed(
    v: Seq<BeforeAfter>,
    absolute: int,
    percent: int,
    what: Change,
    n: int,
)
    requires
        0 <= n <= v.len(),
    ensures
        ({
            let c = changed(v, absolute, percent, what, n);
            &&& forall|k: int|
                0 <= k < c.len() ==> 0 <= #[trigger] c[k] < n && change(v[c[k]], absolute, percent)
                    == what
            &&& forall|j: int, k: int| 0 <= j < k < c.len() ==> #[trigger] c[j] < #[trigger] c[k]
            &&& forall|i: int|
                0 <= i < n && change(v[i], absolute, percent) == what ==> #[trigger] c.contains(i)
        }),
    decreases n,
{
    if n > 0 {
        changed_are_changed(v, absolute, percent, what, n - 1);
        let b = changed(v, absolute, percent, what, n - 1);
        let c = changed(v, absolute, percent, what, n);
        assert forall|i: int|
            0 <= i < n && change(v[i], absolute, percent) == what implies #[trigger] c.contains(
            i,
        ) by {
            if i < n - 1 {
                assert(b.contains(i));
                let k = choose|k: int| 0 <= k < b.len() && b[k] == i;
                assert(c[k] == i);
            } else {
                assert(c[b.len() as int] == i);
            }
        }
    }
}

/// Every kernel that changed in one way is listed there, once and nowhere else,
/// and those that weigh most come first: by the time lost, the time won, the time
/// that is new or the time that is gone.
pub proof fn each_change_is_listed_once(
    v: Seq<BeforeAfter>,
    absolute: int,
    percent: int,
    what: Change,
)
    ensures
        ({
            let r = ranked(v, absolute, percent, what);
            &&& forall|i: int|
                0 <= i < v.len() ==> (#[trigger] r.contains(i) <==> change(v[i], absolute, percent)
                    == what)
            &&& r.no_duplicates()
            &&& forall|j: int, k: int|
                0 <= j < k < r.len() ==> {
                    let (a, b) = (v[#[trigger] r[j]], v[#[trigger] r[k]]);
                    match what {
                        Change::New => a.after >= b.after,
                        Change::Gone => a.before >= b.before,
                        Change::Slower => a.after - a.before >= b.after - b.before,
                        Change::Faster => a.before - a.after >= b.before - b.after,
                        Change::Quiet => true,
                    }
                }
        }),
{
    let n = v.len() as int;
    let c = changed(v, absolute, percent, what, n);
    let keys = Seq::new(c.len(), |i: int| -weight(v[c[i]], what));
    order::there_is_an_order(keys);
    let p = order::order_of(keys);
    let r = ranked(v, absolute, percent, what);
    changed_are_changed(v, absolute, percent, what, n);
    assert forall|i: int| 0 <= i < n implies (#[trigger] r.contains(i) <==> change(
        v[i],
        absolute,
        percent,
    ) == what) by {
        if r.contains(i) {
            let k = choose|k: int| 0 <= k < r.len() && r[k] == i;
            assert(c[p[k]] == i);
        }
        if change(v[i], absolute, percent) == what {
            assert(c.contains(i));
            let j = choose|j: int| 0 <= j < c.len() && c[j] == i;
            assert(p.contains(j));
            let k = choose|k: int| 0 <= k < p.len() && p[k] == j;
            assert(r[k] == i);
        }
    }
    assert forall|j: int, k: int| 0 <= j < r.len() && 0 <= k < r.len() && j != k implies r[j]
        != r[k] by {
        if j < k {
            assert(order::before(keys, p[j], p[k]));
        } else {
            assert(order::before(keys, p[k], p[j]));
        }
        if p[j] < p[k] {
            assert(c[p[j]] < c[p[k]]);
        } else {
            assert(c[p[k]] < c[p[j]]);
        }
    }
    assert forall|j: int, k: int| 0 <= j < k < r.len() implies {
        let (a, b) = (v[#[trigger] r[j]], v[#[trigger] r[k]]);
        match what {
            Change::New => a.after >= b.after,
            Change::Gone => a.before >= b.before,
            Change::Slower => a.after - a.before >= b.after - b.before,
            Change::Faster => a.before - a.after >= b.before - b.after,
            Change::Quiet => true,
        }
    } by {
        assert(order::before(keys, p[j], p[k]));
    }
}

/// The net change is what kernels that are in both sessions lost, each one that
/// is not noise counted once: two lists together have the sum of their nets.
pub proof fn the_net_change_adds_up(
    v: Seq<BeforeAfter>,
    k: BeforeAfter,
    absolute: int,
    percent: int,
)
    ensures
        net(v.push(k), absolute, percent, v.len() as int + 1) == net(
            v,
            absolute,
            percent,
            v.len() as int,
        ) + (match change(k, absolute, percent) {
            Change::Slower => k.after - k.before,
            Change::Faster => k.after - k.before,
            _ => 0,
        }),
{
    net_of_front(v, v.push(k), absolute, percent, v.len() as int);
}

proof fn net_of_front(
    v: Seq<BeforeAfter>,
    u: Seq<BeforeAfter>,
    absolute: int,
    percent: int,
    n: int,
)
    requires
        0 <= n <= v.len(),
        n <= u.len(),
        forall|i: int| 0 <= i < n ==> v[i] == #[trigger] u[i],
    ensures
        net(v, absolute, percent, n) == net(u, absolute, percent, n),
    decreases n,
{
    if n > 0 {
        net_of_front(v, u, absolute, percent, n - 1);
        assert(v[n - 1] == u[n - 1]);
    }
}

/// A plain comparison shows fifteen kernels, or all where there are fewer, each
/// once, and none that it leaves out changed more than one that it shows.
pub proof fn the_largest_changes_are_shown(v: Seq<BeforeAfter>, i: int, j: int)
    requires
        0 <= j < v.len(),
        0 <= i < most_changed(v).len(),
        !most_changed(v).contains(j),
    ensures
        most_changed(v).len() == 15,
        most_changed(v).no_duplicates(),
        0 <= most_changed(v)[i] < v.len(),
        ({
            let a = v[most_changed(v)[i]];
            let b = v[j];
            ||| a.after - a.before >= b.after - b.before && a.after - a.before >= b.before - b.after
            ||| a.before - a.after >= b.after - b.before && a.before - a.after >= b.before - b.after
        }),
{
    let keys = Seq::new(v.len(), |i: int| -size(delta(v[i])));
    order::there_is_an_order(keys);
    let p = order::order_of(keys);
    let m = most_changed(v);
    assert(p.contains(j));
    let k = choose|k: int| 0 <= k < p.len() && p[k] == j;
    if k < m.len() {
        assert(m[k] == j);
    }
    assert(order::before(keys, p[i], p[k]));
    assert forall|a: int, b: int| 0 <= a < m.len() && 0 <= b < m.len() && a != b implies m[a]
        != m[b] by {
        if a < b {
            assert(order::before(keys, p[a], p[b]));
        } else {
            assert(order::before(keys, p[b], p[a]));
        }
    }
}

} // verus!
