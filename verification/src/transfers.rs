//! What memory transfers cost. Times are integers of nanoseconds.

use vstd::prelude::*;

use crate::text::same_text;

verus! {

// ---------------------------------------------------------------------------
// Verdicts
// ---------------------------------------------------------------------------

/// How transfers compare with computing.
#[derive(Debug, Clone, Copy, PartialEq, Eq, Structural)]
pub enum TransferVerdict {
    BandwidthBound,
    TransferHeavy,
    Mixed,
    ComputeDominated,
}

/// Transfers take over five times as long as kernels, over one and a half
/// times, over half as long, or less.
pub open spec fn verdict(transfers: int, kernels: int) -> TransferVerdict {
    if transfers > 5 * kernels {
        TransferVerdict::BandwidthBound
    } else if 2 * transfers > 3 * kernels {
        TransferVerdict::TransferHeavy
    } else if 2 * transfers > kernels {
        TransferVerdict::Mixed
    } else {
        TransferVerdict::ComputeDominated
    }
}

/// How the time of transfers compares with that of kernels; nothing is said
/// where no kernel ran.
pub fn transfer_verdict(transfers: i64, kernels: i64) -> (r: Option<TransferVerdict>)
    ensures
        r == if kernels > 0 {
            Some(verdict(transfers as int, kernels as int))
        } else {
            None
        },
{
    if kernels <= 0 {
        return None;
    }
    let t: i128 = transfers as i128;
    let k: i128 = kernels as i128;
    Some(
        if t > 5 * k {
            TransferVerdict::BandwidthBound
        } else if 2 * t > 3 * k {
            TransferVerdict::TransferHeavy
        } else if 2 * t > k {
            TransferVerdict::Mixed
        } else {
            TransferVerdict::ComputeDominated
        },
    )
}

impl TransferVerdict {
    pub fn text(&self) -> (r: &'static str)
        ensures
            r@ == match self {
                TransferVerdict::BandwidthBound => "BANDWIDTH-BOUND — PCIe dominates"@,
                TransferVerdict::TransferHeavy => "transfer-heavy — consider async transfers or larger batches"@,
                TransferVerdict::Mixed => "mixed compute/transfer"@,
                TransferVerdict::ComputeDominated => "compute-dominated"@,
            },
    {
        match self {
            TransferVerdict::BandwidthBound => "BANDWIDTH-BOUND — PCIe dominates",
            TransferVerdict::TransferHeavy => "transfer-heavy — consider async transfers or larger batches",
            TransferVerdict::Mixed => "mixed compute/transfer",
            TransferVerdict::ComputeDominated => "compute-dominated",
        }
    }
}

/// A transfer from which the bandwidth of the bus can be seen.
pub const LARGE_TRANSFER: i64 = 16777216;

/// A transfer that is mostly overhead.
pub const TINY_TRANSFER: i64 = 4096;

/// What is noted at a transfer. A large one between host and device that moves
/// less than six gigabytes in a second may be from pageable memory.
pub open spec fn note(kind: Seq<char>, bytes: int, duration: int) -> Seq<char> {
    if bytes >= LARGE_TRANSFER && (kind == "H2D"@ || kind == "D2H"@) && (duration <= 0 || bytes
        < 6 * duration) {
        "pageable? consider cudaMallocHost"@
    } else if bytes < TINY_TRANSFER {
        "tiny — overhead-dominated"@
    } else {
        ""@
    }
}

pub fn transfer_note(kind: &str, bytes: i64, duration: i64) -> (r: &'static str)
    ensures
        r@ == note(kind@, bytes as int, duration as int),
{
    if bytes >= LARGE_TRANSFER && (same_text(kind, "H2D") || same_text(kind, "D2H")) && (duration
        <= 0 || (bytes as i128) < 6 * duration as i128) {
        "pageable? consider cudaMallocHost"
    } else if bytes < TINY_TRANSFER {
        "tiny — overhead-dominated"
    } else {
        ""
    }
}

// ---------------------------------------------------------------------------
// Small transfers
// ---------------------------------------------------------------------------

/// A transfer, by its size and how long it took.
#[derive(Debug, Clone, Copy, PartialEq, Eq, Structural)]
pub struct Transfer {
    pub bytes: i64,
    pub duration: i64,
}

/// Transfers below this size are small.
pub const SMALL_TRANSFER: i64 = 1048576;

/// The number of small transfers among the first `n`, their bytes and their
/// time.
pub open spec fn small(v: Seq<Transfer>, n: int) -> (int, int, int)
    decreases n,
{
    if n <= 0 {
        (0, 0, 0)
    } else {
        let (count, bytes, time) = small(v, n - 1);
        if v[n - 1].bytes < SMALL_TRANSFER {
            (count + 1, bytes + v[n - 1].bytes, time + v[n - 1].duration)
        } else {
            (count, bytes, time)
        }
    }
}

#[derive(Debug)]
pub struct SmallTransfers {
    pub count: usize,
    pub bytes: i128,
    pub duration: i128,
    /// There are enough to be worth batching.
    pub many: bool,
}

pub fn small_transfers(v: &[Transfer]) -> (r: SmallTransfers)
    ensures
        (r.count as int, r.bytes as int, r.duration as int) == small(v@, v@.len() as int),
        r.many == (r.count > 10),
{
    let n: usize = v.len();
    let mut count: usize = 0;
    let mut bytes: i128 = 0;
    let mut duration: i128 = 0;
    let mut i: usize = 0;
    while i < n
        invariant
            i <= n,
            n == v@.len(),
            count <= i,
            (count as int, bytes as int, duration as int) == small(v@, i as int),
            -0x8000_0000_0000_0000 * i <= bytes <= 0x8000_0000_0000_0000 * i,
            -0x8000_0000_0000_0000 * i <= duration <= 0x8000_0000_0000_0000 * i,
        decreases n - i,
    {
        if v[i].bytes < SMALL_TRANSFER {
            count = count + 1;
            bytes = bytes + v[i].bytes as i128;
            duration = duration + v[i].duration as i128;
        }
        i = i + 1;
    }
    SmallTransfers { count, bytes, duration, many: count > 10 }
}

// ---------------------------------------------------------------------------
// Distribution
// ---------------------------------------------------------------------------

/// The limits of the classes of size. A transfer is in the first class whose
/// limit it is below.
pub open spec fn limits() -> Seq<int> {
    seq![4096, 65536, 1048576, 16777216, 134217728, 1073741824, i64::MAX as int]
}

pub fn limit(k: usize) -> (r: i64)
    requires
        k < 7,
    ensures
        r == limits()[k as int],
{
    match k {
        0 => 4096,
        1 => 65536,
        2 => 1048576,
        3 => 16777216,
        4 => 134217728,
        5 => 1073741824,
        _ => i64::MAX,
    }
}

pub fn class_label(k: usize) -> (r: &'static str)
    requires
        k < 7,
    ensures
        r@ == seq![
            "<4 KB"@,
            "<64 KB"@,
            "<1 MB"@,
            "<16 MB"@,
            "<128 MB"@,
            "<1 GB"@,
            ">=1 GB"@,
        ][k as int],
{
    match k {
        0 => "<4 KB",
        1 => "<64 KB",
        2 => "<1 MB",
        3 => "<16 MB",
        4 => "<128 MB",
        5 => "<1 GB",
        _ => ">=1 GB",
    }
}

/// A transfer is in class `k`.
pub open spec fn in_class(t: Transfer, k: int) -> bool {
    t.bytes < limits()[k] && (k == 0 || t.bytes >= limits()[k - 1])
}

/// How many of the first `n` transfers are in a class.
pub open spec fn class_count(v: Seq<Transfer>, k: int, n: int) -> int
    decreases n,
{
    if n <= 0 {
        0
    } else {
        class_count(v, k, n - 1) + (if in_class(v[n - 1], k) {
            1int
        } else {
            0
        })
    }
}

/// How long those of the first `n` transfers took that are in a class.
pub open spec fn class_time(v: Seq<Transfer>, k: int, n: int) -> int
    decreases n,
{
    if n <= 0 {
        0
    } else {
        class_time(v, k, n - 1) + (if in_class(v[n - 1], k) {
            v[n - 1].duration as int
        } else {
            0
        })
    }
}

/// How long the transfers of the first `k` classes took.
pub open spec fn time_up_to(v: Seq<Transfer>, k: int) -> int
    decreases k,
{
    if k <= 0 {
        0
    } else {
        time_up_to(v, k - 1) + class_time(v, k - 1, v.len() as int)
    }
}

#[derive(Debug)]
pub struct SizeClass {
    pub class: usize,
    pub count: usize,
    pub duration: i128,
    /// The time of this class and all smaller ones.
    pub cumulative: i128,
}

pub struct SizeClassV {
    pub class: int,
    pub count: int,
    pub duration: int,
    pub cumulative: int,
}

impl View for SizeClass {
    type V = SizeClassV;

    open spec fn view(&self) -> SizeClassV {
        SizeClassV {
            class: self.class as int,
            count: self.count as int,
            duration: self.duration as int,
            cumulative: self.cumulative as int,
        }
    }
}

pub open spec fn class_views(v: Seq<SizeClass>) -> Seq<SizeClassV> {
    Seq::new(v.len(), |i: int| v[i]@)
}

/// The classes before `k` that hold a transfer.
pub open spec fn distribution(v: Seq<Transfer>, k: int) -> Seq<SizeClassV>
    decreases k,
{
    if k <= 0 {
        Seq::empty()
    } else {
        let rest = distribution(v, k - 1);
        let n = v.len() as int;
        if class_count(v, k - 1, n) == 0 {
            rest
        } else {
            rest.push(
                SizeClassV {
                    class: k - 1,
                    count: class_count(v, k - 1, n),
                    duration: class_time(v, k - 1, n),
                    cumulative: time_up_to(v, k),
                },
            )
        }
    }
}

proof fn class_is_small(v: Seq<Transfer>, k: int, n: int)
    requires
        0 <= n,
    ensures
        0 <= class_count(v, k, n) <= n,
        -0x8000_0000_0000_0000 * n <= class_time(v, k, n) <= 0x8000_0000_0000_0000 * n,
        class_count(v, k, n) == 0 ==> class_time(v, k, n) == 0,
    decreases n,
{
    if n > 0 {
        class_is_small(v, k, n - 1);
    }
}

/// More transfers than this do not fit in memory.
pub const MOST_TRANSFERS: u64 = 0x0fff_ffff_ffff_ffff;

/// How the time of transfers is distributed over their sizes. Classes without a
/// transfer are left out.
pub fn size_distribution(v: &[Transfer]) -> (r: Vec<SizeClass>)
    requires
        v@.len() <= MOST_TRANSFERS,
    ensures
        class_views(r@) == distribution(v@, 7),
{
    let n: usize = v.len();
    let mut out: Vec<SizeClass> = Vec::new();
    let mut cumulative: i128 = 0;
    let mut k: usize = 0;
    assert(class_views(out@) =~= distribution(v@, 0));
    while k < 7
        invariant
            k <= 7,
            n == v@.len(),
            n <= MOST_TRANSFERS,
            class_views(out@) == distribution(v@, k as int),
            cumulative == time_up_to(v@, k as int),
            -0x8000_0000_0000_0000 * n * k <= cumulative <= 0x8000_0000_0000_0000 * n * k,
        decreases 7 - k,
    {
        let low: i64 = if k == 0 {
            i64::MIN
        } else {
            limit(k - 1)
        };
        let high: i64 = limit(k);
        let mut count: usize = 0;
        let mut duration: i128 = 0;
        let mut i: usize = 0;
        while i < n
            invariant
                i <= n,
                n == v@.len(),
                k < 7,
                low == (if k == 0 {
                    i64::MIN as int
                } else {
                    limits()[k - 1]
                }),
                high == limits()[k as int],
                count == class_count(v@, k as int, i as int),
                duration == class_time(v@, k as int, i as int),
            decreases n - i,
        {
            proof {
                class_is_small(v@, k as int, i as int);
            }
            if v[i].bytes < high && v[i].bytes >= low {
                count = count + 1;
                duration = duration + v[i].duration as i128;
            }
            i = i + 1;
        }
        proof {
            class_is_small(v@, k as int, n as int);
            assert(0x8000_0000_0000_0000 * n * (k + 1) == 0x8000_0000_0000_0000 * n * k
                + 0x8000_0000_0000_0000 * n) by (nonlinear_arith);
            assert(0x8000_0000_0000_0000 * n * k <= 0x8000_0000_0000_0000 * 0x0fff_ffff_ffff_ffff
                * 7) by (nonlinear_arith)
                requires
                    0 <= n <= 0x0fff_ffff_ffff_ffff,
                    0 <= k <= 7,
            ;
            assert(-0x8000_0000_0000_0000 * n * (k + 1) == -0x8000_0000_0000_0000 * n * k
                - 0x8000_0000_0000_0000 * n) by (nonlinear_arith);
            assert(-0x8000_0000_0000_0000 * n * k >= -0x8000_0000_0000_0000
                * 0x0fff_ffff_ffff_ffff * 7) by (nonlinear_arith)
                requires
                    0 <= n <= 0x0fff_ffff_ffff_ffff,
                    0 <= k <= 7,
            ;
        }
        cumulative = cumulative + duration;
        if count > 0 {
            let ghost before = out@;
            let item = SizeClass { class: k, count, duration, cumulative };
            let ghost iv = item@;
            out.push(item);
            assert(class_views(out@) =~= class_views(before).push(iv));
        }
        k = k + 1;
    }
    out
}

// ---------------------------------------------------------------------------
// Laws
// ---------------------------------------------------------------------------

/// Every transfer is in one class, and in one only.
pub proof fn a_transfer_has_one_class(t: Transfer)
    requires
        t.bytes < i64::MAX,
    ensures
        exists|k: int| 0 <= k < 7 && in_class(t, k),
        forall|j: int, k: int|
            0 <= j < 7 && 0 <= k < 7 && in_class(t, j) && in_class(t, k) ==> j == k,
{
    if t.bytes < 4096 {
        assert(in_class(t, 0));
    } else if t.bytes < 65536 {
        assert(in_class(t, 1));
    } else if t.bytes < 1048576 {
        assert(in_class(t, 2));
    } else if t.bytes < 16777216 {
        assert(in_class(t, 3));
    } else if t.bytes < 134217728 {
        assert(in_class(t, 4));
    } else if t.bytes < 1073741824 {
        assert(in_class(t, 5));
    } else {
        assert(in_class(t, 6));
    }
}

/// How long the first `n` transfers took.
pub open spec fn time(v: Seq<Transfer>, n: int) -> int
    decreases n,
{
    if n <= 0 {
        0
    } else {
        time(v, n - 1) + v[n - 1].duration
    }
}

/// The times of all classes over the first `n` transfers.
spec fn classes_time(v: Seq<Transfer>, n: int) -> int {
    class_time(v, 0, n) + class_time(v, 1, n) + class_time(v, 2, n) + class_time(v, 3, n)
        + class_time(v, 4, n) + class_time(v, 5, n) + class_time(v, 6, n)
}

proof fn classes_make_up_the_time(v: Seq<Transfer>, n: int)
    requires
        0 <= n <= v.len(),
        forall|i: int| 0 <= i < v.len() ==> (#[trigger] v[i]).bytes < i64::MAX,
    ensures
        classes_time(v, n) == time(v, n),
    decreases n,
{
    if n > 0 {
        classes_make_up_the_time(v, n - 1);
        assert(v[n - 1].bytes < i64::MAX);
        a_transfer_has_one_class(v[n - 1]);
    }
}

/// The distribution ends with the time of all transfers.
pub proof fn the_distribution_is_complete(v: Seq<Transfer>)
    requires
        forall|i: int| 0 <= i < v.len() ==> (#[trigger] v[i]).bytes < i64::MAX,
    ensures
        time_up_to(v, 7) == time(v, v.len() as int),
{
    classes_make_up_the_time(v, v.len() as int);
    reveal_with_fuel(time_up_to, 8);
}

/// The verdict follows how many times as long as the kernels the transfers take:
/// it does not depend on the unit of time, more time in transfers never makes it
/// milder, and it turns at half, at one and a half times and at five times.
pub proof fn the_ratio_decides(transfers: int, more: int, kernels: int, unit: int)
    requires
        kernels > 0,
        unit > 0,
        transfers <= more,
    ensures
        verdict(transfers * unit, kernels * unit) == verdict(transfers, kernels),
        verdict(transfers, kernels) == TransferVerdict::BandwidthBound ==> verdict(more, kernels)
            == TransferVerdict::BandwidthBound,
        verdict(more, kernels) == TransferVerdict::ComputeDominated ==> verdict(transfers, kernels)
            == TransferVerdict::ComputeDominated,
        verdict(transfers, kernels) == TransferVerdict::TransferHeavy ==> verdict(more, kernels)
            != TransferVerdict::Mixed,
        verdict(kernels, 2 * kernels) == TransferVerdict::ComputeDominated,
        verdict(kernels + 1, 2 * kernels) == TransferVerdict::Mixed,
        verdict(3 * kernels, 2 * kernels) == TransferVerdict::Mixed,
        verdict(3 * kernels + 1, 2 * kernels) == TransferVerdict::TransferHeavy,
        verdict(5 * kernels, kernels) == TransferVerdict::TransferHeavy,
        verdict(5 * kernels + 1, kernels) == TransferVerdict::BandwidthBound,
{
    let (t, k) = (transfers, kernels);
    assert((t > 5 * k) == (t * unit > 5 * (k * unit))) by (nonlinear_arith)
        requires
            unit > 0,
    ;
    assert((2 * t > 3 * k) == (2 * (t * unit) > 3 * (k * unit))) by (nonlinear_arith)
        requires
            unit > 0,
    ;
    assert((2 * t > k) == (2 * (t * unit) > k * unit)) by (nonlinear_arith)
        requires
            unit > 0,
    ;
}

/// Only a large transfer between host and device can be marked as pageable, and
/// it is when it moves fewer than six bytes in a nanosecond; only one below four
/// kilobytes is marked as tiny.
pub proof fn notes_go_by_size_and_speed(kind: Seq<char>, bytes: int, duration: int)
    ensures
        note(kind, bytes, duration) == "tiny — overhead-dominated"@ <==> bytes < 4 * 1024,
        note(kind, bytes, duration) == "pageable? consider cudaMallocHost"@ <==> bytes >= 16 * 1024
            * 1024 && (kind == "H2D"@ || kind == "D2H"@) && (duration <= 0 || bytes < 6 * duration),
{
    reveal_strlit("tiny — overhead-dominated");
    reveal_strlit("pageable? consider cudaMallocHost");
    reveal_strlit("");
    let tiny = "tiny — overhead-dominated"@;
    let pageable = "pageable? consider cudaMallocHost"@;
    assert(tiny[0] == 't');
    assert(pageable[0] == 'p');
    assert(tiny != pageable);
    assert(""@.len() == 0);
    assert(tiny != ""@ && pageable != ""@);
}

/// A transfer below a megabyte is small with all its bytes and all its time, any
/// other is not, and lists of transfers add up.
pub proof fn small_transfers_add_up(v: Seq<Transfer>, t: Transfer)
    ensures
        ({
            let n = v.len() as int;
            let (count, bytes, time) = small(v, n);
            let more = small(v.push(t), n + 1);
            &&& t.bytes < 1024 * 1024 ==> more == (count + 1, bytes + t.bytes, time + t.duration)
            &&& t.bytes >= 1024 * 1024 ==> more == (count, bytes, time)
        }),
{
    small_of_front(v, v.push(t), v.len() as int);
}

proof fn small_of_front(v: Seq<Transfer>, u: Seq<Transfer>, n: int)
    requires
        0 <= n <= v.len(),
        n <= u.len(),
        forall|i: int| 0 <= i < n ==> v[i] == #[trigger] u[i],
    ensures
        small(v, n) == small(u, n),
    decreases n,
{
    if n > 0 {
        small_of_front(v, u, n - 1);
        assert(v[n - 1] == u[n - 1]);
    }
}

/// The classes are those that their labels name: up to four, sixty-four and so
/// on kilobytes, megabytes and gigabytes.
pub proof fn classes_are_those_of_their_labels(t: Transfer)
    requires
        t.bytes < i64::MAX,
    ensures
        in_class(t, 0) <==> t.bytes < 4 * 1024,
        in_class(t, 1) <==> 4 * 1024 <= t.bytes < 64 * 1024,
        in_class(t, 2) <==> 64 * 1024 <= t.bytes < 1024 * 1024,
        in_class(t, 3) <==> 1024 * 1024 <= t.bytes < 16 * 1024 * 1024,
        in_class(t, 4) <==> 16 * 1024 * 1024 <= t.bytes < 128 * 1024 * 1024,
        in_class(t, 5) <==> 128 * 1024 * 1024 <= t.bytes < 1024 * 1024 * 1024,
        in_class(t, 6) <==> 1024 * 1024 * 1024 <= t.bytes,
{
}

proof fn counted_in_class(v: Seq<Transfer>, k: int, n: int, i: int)
    requires
        0 <= i < n <= v.len(),
        in_class(v[i], k),
    ensures
        class_count(v, k, n) > 0,
    decreases n,
{
    class_is_small(v, k, n - 1);
    if i < n - 1 {
        counted_in_class(v, k, n - 1, i);
    }
}

proof fn distribution_lists(v: Seq<Transfer>, k: int)
    requires
        0 <= k <= 7,
    ensures
        ({
            let d = distribution(v, k);
            let n = v.len() as int;
            &&& forall|e: int|
                0 <= e < d.len() ==> 0 <= (#[trigger] d[e]).class < k && d[e].count == class_count(
                    v,
                    d[e].class,
                    n,
                ) && d[e].count > 0 && d[e].duration == class_time(v, d[e].class, n)
                    && d[e].cumulative == time_up_to(v, d[e].class + 1)
            &&& forall|a: int, b: int|
                0 <= a < b < d.len() ==> (#[trigger] d[a]).class < (#[trigger] d[b]).class
            &&& forall|c: int|
                0 <= c < k && #[trigger] class_count(v, c, n) > 0 ==> exists|e: int|
                    0 <= e < d.len() && (#[trigger] d[e]).class == c
        }),
    decreases k,
{
    if k > 0 {
        distribution_lists(v, k - 1);
        let b = distribution(v, k - 1);
        let d = distribution(v, k);
        let n = v.len() as int;
        class_is_small(v, k - 1, n);
        assert forall|c: int| 0 <= c < k && #[trigger] class_count(v, c, n) > 0 implies exists|
            e: int,
        | 0 <= e < d.len() && (#[trigger] d[e]).class == c by {
            if c < k - 1 {
                let e = choose|e: int| 0 <= e < b.len() && (#[trigger] b[e]).class == c;
                assert(d[e].class == c);
            } else {
                assert(d[b.len() as int].class == c);
            }
        }
    }
}

/// Every transfer is told of in the line of its class; a line tells the number
/// and the time of all transfers of its class; and the lines go from the smaller
/// classes to the larger ones.
pub proof fn every_transfer_is_in_a_line(v: Seq<Transfer>, i: int)
    requires
        0 <= i < v.len(),
        v[i].bytes < i64::MAX,
    ensures
        ({
            let d = distribution(v, 7);
            let n = v.len() as int;
            &&& exists|e: int| 0 <= e < d.len() && in_class(v[i], (#[trigger] d[e]).class)
            &&& forall|e: int|
                0 <= e < d.len() ==> (#[trigger] d[e]).count == class_count(v, d[e].class, n)
                    && d[e].count > 0 && d[e].duration == class_time(v, d[e].class, n)
            &&& forall|a: int, b: int|
                0 <= a < b < d.len() ==> (#[trigger] d[a]).class < (#[trigger] d[b]).class
        }),
{
    distribution_lists(v, 7);
    a_transfer_has_one_class(v[i]);
    let k = choose|k: int| 0 <= k < 7 && in_class(v[i], k);
    counted_in_class(v, k, v.len() as int, i);
    let d = distribution(v, 7);
    let e = choose|e: int| 0 <= e < d.len() && (#[trigger] d[e]).class == k;
    assert(in_class(v[i], d[e].class));
}

/// The classes together count each transfer once.
pub proof fn classes_count_each_transfer_once(v: Seq<Transfer>, n: int)
    requires
        0 <= n <= v.len(),
        forall|i: int| 0 <= i < v.len() ==> (#[trigger] v[i]).bytes < i64::MAX,
    ensures
        class_count(v, 0, n) + class_count(v, 1, n) + class_count(v, 2, n) + class_count(v, 3, n)
            + class_count(v, 4, n) + class_count(v, 5, n) + class_count(v, 6, n) == n,
    decreases n,
{
    if n > 0 {
        classes_count_each_transfer_once(v, n - 1);
        assert(v[n - 1].bytes < i64::MAX);
        a_transfer_has_one_class(v[n - 1]);
    }
}

} // verus!
