//! Launches that follow each other: pairs that could be fused, and sequences of
//! kernels that repeat. Times are integers of nanoseconds.

use vstd::prelude::*;

use crate::groups;
use crate::groups::intern;
use crate::order;
use crate::order::order;
use crate::text;

verus! {

// ---------------------------------------------------------------------------
// Pairs
// ---------------------------------------------------------------------------

/// A launch, with the stream that it is on where that is known.
#[derive(Debug, Clone, Copy, PartialEq, Eq, Structural)]
pub struct TimedLaunch {
    pub start: i64,
    pub duration: i64,
    pub stream: Option<u32>,
}

/// Launches that are further apart are no candidates.
pub const WIDEST_GAP: i128 = 5000;

/// How many candidates are looked at.
pub const MOST_CANDIDATES: usize = 500;

/// The time between a launch and the next.
pub open spec fn gap_after(v: Seq<TimedLaunch>, i: int) -> int {
    v[i + 1].start - (v[i].start + v[i].duration)
}

/// Launch `i` and the next are on one stream and close together.
pub open spec fn is_close(v: Seq<TimedLaunch>, i: int) -> bool {
    &&& 0 <= i < v.len() - 1
    &&& 0 <= gap_after(v, i) < WIDEST_GAP
    &&& v[i].stream == v[i + 1].stream
}

/// The launches before `n` that have the next one close behind.
pub open spec fn close_pairs(v: Seq<TimedLaunch>, n: int) -> Seq<int>
    decreases n,
{
    if n <= 0 {
        Seq::empty()
    } else if is_close(v, n - 1) {
        close_pairs(v, n - 1).push(n - 1)
    } else {
        close_pairs(v, n - 1)
    }
}

/// The pairs from the closest on; equally close ones keep their order.
pub open spec fn closest_first(v: Seq<TimedLaunch>) -> Seq<int> {
    let c = close_pairs(v, v.len() as int);
    let p = groups::picked(c, order::order_of(Seq::new(c.len(), |i: int| gap_after(v, c[i]))));
    if p.len() < MOST_CANDIDATES {
        p
    } else {
        p.take(MOST_CANDIDATES as int)
    }
}

/// The pairs of launches that could be fused, the closest first. The launches
/// are given in the order of their starts.
pub fn fusion_candidates(v: &[TimedLaunch]) -> (r: Vec<usize>)
    ensures
        order::positions(r@) == closest_first(v@),
        r@.len() <= MOST_CANDIDATES,
        forall|i: int|
            0 <= i < r@.len() ==> (#[trigger] r@[i]) + 1 < v@.len() && 0 <= gap_after(
                v@,
                r@[i] as int,
            ) < WIDEST_GAP,
{
    let n: usize = v.len();
    let mut at: Vec<usize> = Vec::new();
    let mut keys: Vec<i128> = Vec::new();
    let mut i: usize = 0;
    assert(order::positions(at@) =~= close_pairs(v@, 0));
    while i < n
        invariant
            i <= n,
            n == v@.len(),
            at@.len() == keys@.len(),
            order::positions(at@) == close_pairs(v@, i as int),
            forall|k: int| 0 <= k < at@.len() ==> is_close(v@, #[trigger] at@[k] as int),
            forall|k: int|
                0 <= k < at@.len() ==> #[trigger] keys@[k] == gap_after(v@, at@[k] as int),
        decreases n - i,
    {
        if i + 1 < n {
            let gap: i128 = v[i + 1].start as i128 - (v[i].start as i128 + v[i].duration as i128);
            let same: bool = match (v[i].stream, v[i + 1].stream) {
                (Some(a), Some(b)) => a == b,
                (None, None) => true,
                _ => false,
            };
            if 0 <= gap && gap < WIDEST_GAP && same {
                let ghost before = at@;
                assert(is_close(v@, i as int));
                at.push(i);
                keys.push(gap);
                assert(order::positions(at@) =~= order::positions(before).push(i as int));
            } else {
                assert(!is_close(v@, i as int));
            }
        }
        i = i + 1;
    }
    let ghost c = close_pairs(v@, n as int);
    assert(order::ints(keys@) =~= Seq::new(c.len(), |i: int| gap_after(v@, c[i]))) by {
        assert forall|k: int| 0 <= k < c.len() implies order::ints(keys@)[k] == gap_after(
            v@,
            c[k],
        ) by {
            assert(order::positions(at@)[k] == at@[k]);
        }
    }
    let p = order(&keys);
    let ghost want = groups::picked(
        c,
        order::order_of(Seq::new(c.len(), |i: int| gap_after(v@, c[i]))),
    );
    let mut out: Vec<usize> = Vec::new();
    let mut k: usize = 0;
    while k < p.len() && k < MOST_CANDIDATES
        invariant
            k <= p@.len(),
            k <= MOST_CANDIDATES,
            p@.len() == at@.len(),
            keys@.len() == at@.len(),
            order::positions(at@) == c,
            want == groups::picked(c, order::positions(p@)),
            forall|j: int| 0 <= j < p@.len() ==> (#[trigger] p@[j]) < keys@.len(),
            forall|j: int| 0 <= j < at@.len() ==> is_close(v@, #[trigger] at@[j] as int),
            out@.len() == k,
            forall|j: int| 0 <= j < out@.len() ==> is_close(v@, #[trigger] out@[j] as int),
            order::positions(out@) =~= want.take(k as int),
        decreases p@.len() - k,
    {
        let ghost before = out@;
        assert(order::positions(p@)[k as int] == p@[k as int]);
        assert(order::positions(at@)[p@[k as int] as int] == at@[p@[k as int] as int]);
        out.push(at[p[k]]);
        assert(order::positions(out@) =~= order::positions(before).push(want[k as int]));
        k = k + 1;
    }
    assert(order::positions(out@) =~= closest_first(v@));
    out
}

/// Two kernels that follow each other, how often they do and how long the
/// device waits between them in all.
pub struct PairTotalV {
    pub first: Seq<char>,
    pub second: Seq<char>,
    pub gap: int,
    pub count: int,
}

#[derive(Debug)]
pub struct PairTotal {
    pub first: String,
    pub second: String,
    pub gap: i128,
    pub count: usize,
}

impl View for PairTotal {
    type V = PairTotalV;

    open spec fn view(&self) -> PairTotalV {
        PairTotalV {
            first: self.first@,
            second: self.second@,
            gap: self.gap as int,
            count: self.count as int,
        }
    }
}

pub open spec fn pair_views(v: Seq<PairTotal>) -> Seq<PairTotalV> {
    Seq::new(v.len(), |i: int| v[i]@)
}

/// Where a pair stands, at or after `k`.
pub open spec fn pair_from(t: Seq<PairTotalV>, a: Seq<char>, b: Seq<char>, k: int) -> Option<int>
    decreases t.len() - k,
{
    if k < 0 || k >= t.len() {
        None
    } else if t[k].first == a && t[k].second == b {
        Some(k)
    } else {
        pair_from(t, a, b, k + 1)
    }
}

/// The totals with one more pair.
pub open spec fn with_pair(t: Seq<PairTotalV>, a: Seq<char>, b: Seq<char>, gap: int) -> Seq<
    PairTotalV,
> {
    match pair_from(t, a, b, 0) {
        Some(k) => t.update(
            k,
            PairTotalV { first: a, second: b, gap: t[k].gap + gap, count: t[k].count + 1 },
        ),
        None => t.push(PairTotalV { first: a, second: b, gap, count: 1 }),
    }
}

/// The totals of the first `n` of these pairs.
pub open spec fn pair_totals(
    names: Seq<Seq<char>>,
    v: Seq<TimedLaunch>,
    at: Seq<int>,
    n: int,
) -> Seq<PairTotalV>
    decreases n,
{
    if n <= 0 {
        Seq::empty()
    } else {
        with_pair(
            pair_totals(names, v, at, n - 1),
            names[at[n - 1]],
            names[at[n - 1] + 1],
            gap_after(v, at[n - 1]),
        )
    }
}

/// The pairs from the most frequent down; equally frequent ones keep their
/// order.
pub open spec fn most_frequent(t: Seq<PairTotalV>) -> Seq<PairTotalV> {
    groups::picked(t, order::order_of(Seq::new(t.len(), |i: int| -t[i].count)))
}

fn find_pair(t: &[PairTotal], a: &str, b: &str) -> (r: Option<usize>)
    ensures
        match r {
            Some(k) => pair_from(pair_views(t@), a@, b@, 0) == Some(k as int) && k < t@.len()
                && t@[k as int].first@ == a@ && t@[k as int].second@ == b@,
            None => pair_from(pair_views(t@), a@, b@, 0) is None,
        },
{
    let mut k: usize = 0;
    while k < t.len()
        invariant
            k <= t@.len(),
            pair_from(pair_views(t@), a@, b@, 0) == pair_from(pair_views(t@), a@, b@, k as int),
        decreases t@.len() - k,
    {
        assert(pair_views(t@)[k as int] == t@[k as int]@);
        if text::same_text(t[k].first.as_str(), a) && text::same_text(t[k].second.as_str(), b) {
            return Some(k);
        }
        k = k + 1;
    }
    None
}

/// The pairs that could be fused, the most frequent first, up to `limit` of
/// them.
pub fn fusion_pairs(names: &[String], v: &[TimedLaunch], at: &[usize], limit: usize) -> (r: Vec<
    PairTotal,
>)
    requires
        names@.len() == v@.len(),
        at@.len() <= MOST_CANDIDATES,
        forall|i: int|
            0 <= i < at@.len() ==> (#[trigger] at@[i]) + 1 < v@.len() && 0 <= gap_after(
                v@,
                at@[i] as int,
            ) < WIDEST_GAP,
    ensures
        ({
            let t = most_frequent(
                pair_totals(
                    text::texts(names@),
                    v@,
                    order::positions(at@),
                    at@.len() as int,
                ),
            );
            pair_views(r@) == (if limit < t.len() {
                t.take(limit as int)
            } else {
                t
            })
        }),
{
    let ghost all = text::texts(names@);
    let ghost pp = order::positions(at@);
    let n: usize = v.len();
    let mut t: Vec<PairTotal> = Vec::new();
    let mut i: usize = 0;
    assert(pair_views(t@) =~= Seq::<PairTotalV>::empty());
    while i < at.len()
        invariant
            i <= at@.len() <= MOST_CANDIDATES,
            n == v@.len(),
            names@.len() == v@.len(),
            all == text::texts(names@),
            pp == order::positions(at@),
            forall|k: int|
                0 <= k < at@.len() ==> (#[trigger] at@[k]) + 1 < v@.len() && 0 <= gap_after(
                    v@,
                    at@[k] as int,
                ) < WIDEST_GAP,
            t@.len() <= i,
            forall|k: int|
                0 <= k < t@.len() ==> (#[trigger] t@[k]).count <= i && 0 <= t@[k].gap
                    <= WIDEST_GAP * i,
            pair_views(t@) == pair_totals(all, v@, pp, i as int),
        decreases at@.len() - i,
    {
        let k: usize = at[i];
        assert(pp[i as int] == k);
        assert(gap_after(v@, k as int) < WIDEST_GAP);
        let gap: i128 = v[k + 1].start as i128 - (v[k].start as i128 + v[k].duration as i128);
        let ghost before = t@;
        assert(all[k as int] == names@[k as int]@);
        assert(all[k + 1] == names@[k + 1]@);
        match find_pair(&t, names[k].as_str(), names[k + 1].as_str()) {
            Some(j) => {
                let item = PairTotal {
                    first: names[k].clone(),
                    second: names[k + 1].clone(),
                    gap: t[j].gap + gap,
                    count: t[j].count + 1,
                };
                let ghost iv = item@;
                t.set(j, item);
                assert(pair_views(t@) =~= pair_views(before).update(j as int, iv));
            },
            None => {
                let item = PairTotal {
                    first: names[k].clone(),
                    second: names[k + 1].clone(),
                    gap,
                    count: 1,
                };
                let ghost iv = item@;
                t.push(item);
                assert(pair_views(t@) =~= pair_views(before).push(iv));
            },
        }
        i = i + 1;
    }
    let ghost tv = pair_views(t@);
    let mut keys: Vec<i128> = Vec::new();
    let mut i: usize = 0;
    while i < t.len()
        invariant
            i <= t@.len(),
            tv == pair_views(t@),
            order::ints(keys@) =~= Seq::new(i as nat, |k: int| -tv[k].count),
        decreases t@.len() - i,
    {
        let ghost before = keys@;
        keys.push(-(t[i].count as i128));
        assert(order::ints(keys@) =~= order::ints(before).push(-tv[i as int].count));
        i = i + 1;
    }
    assert(order::ints(keys@) =~= Seq::new(tv.len(), |k: int| -tv[k].count));
    let p = order(&keys);
    let ghost want = most_frequent(tv);
    let mut out: Vec<PairTotal> = Vec::new();
    let mut i: usize = 0;
    while i < p.len() && i < limit
        invariant
            i <= p@.len(),
            i <= limit,
            p@.len() == t@.len(),
            keys@.len() == t@.len(),
            tv == pair_views(t@),
            want == groups::picked(tv, order::positions(p@)),
            forall|k: int| 0 <= k < p@.len() ==> (#[trigger] p@[k]) < keys@.len(),
            out@.len() == i,
            pair_views(out@) =~= want.take(i as int),
        decreases p@.len() - i,
    {
        let ghost before = out@;
        let item = &t[p[i]];
        assert(order::positions(p@)[i as int] == p@[i as int]);
        let copy = PairTotal {
            first: item.first.clone(),
            second: item.second.clone(),
            gap: item.gap,
            count: item.count,
        };
        let ghost cv = copy@;
        assert(cv == want[i as int]);
        out.push(copy);
        assert(pair_views(out@) =~= pair_views(before).push(cv));
        i = i + 1;
    }
    assert(pair_views(out@) =~= (if limit < want.len() {
        want.take(limit as int)
    } else {
        want
    }));
    out
}

// ---------------------------------------------------------------------------
// Sequences
// ---------------------------------------------------------------------------

/// The launches from `i` and from `j` on are of the same kernels, for `len`
/// launches.
pub open spec fn same_window(names: Seq<Seq<char>>, i: int, j: int, len: int) -> bool {
    forall|k: int| 0 <= k < len ==> names[i + k] == #[trigger] names[j + k]
}

/// The launches from `i` on are all of one kernel, for `len` launches.
pub open spec fn is_constant(names: Seq<Seq<char>>, i: int, len: int) -> bool {
    forall|k: int| 0 <= k < len ==> #[trigger] names[i + k] == names[i]
}

/// How often the sequence at `i` stands again, one after the other, from `j` on.
pub open spec fn repeats(names: Seq<Seq<char>>, i: int, len: int, j: int) -> int
    decreases names.len() - j,
{
    if len > 0 && 0 <= j && j + len <= names.len() && same_window(names, i, j, len) {
        1 + repeats(names, i, len, j + len)
    } else {
        0
    }
}

/// A sequence of `len` kernels that begins at `at` and stands there `reps` times.
pub struct RunV {
    pub at: int,
    pub len: int,
    pub reps: int,
}

/// The runs of `len` kernels from `i` on: sequences that are not all of one
/// kernel and stand at least three times. The search goes on after a run, which
/// never reaches beyond the last launch.
pub open spec fn runs_from(names: Seq<Seq<char>>, len: int, i: int) -> Seq<RunV>
    decreases names.len() - i,
{
    if len <= 0 || i < 0 || i + 2 * len > names.len() {
        Seq::empty()
    } else if is_constant(names, i, len) {
        runs_from(names, len, i + 1)
    } else {
        let reps = 1 + repeats(names, i, len, i + len);
        if reps >= 3 && i < i + reps * len <= names.len() {
            seq![RunV { at: i, len, reps }] + runs_from(names, len, i + reps * len)
        } else {
            runs_from(names, len, i + 1)
        }
    }
}

/// The runs of five kernels down to those of two.
pub open spec fn all_runs(names: Seq<Seq<char>>) -> Seq<RunV> {
    runs_from(names, 5, 0) + runs_from(names, 4, 0) + runs_from(names, 3, 0) + runs_from(
        names,
        2,
        0,
    )
}

/// The sum of the amounts from `i` up to `j`.
pub open spec fn sum_between(amounts: Seq<i64>, i: int, j: int) -> int
    decreases j - i,
{
    if i >= j {
        0
    } else {
        sum_between(amounts, i, j - 1) + amounts[j - 1]
    }
}

/// A sequence with how often it stands in all, and how long its launches run.
/// `at` is where it stands first.
pub struct FoundV {
    pub at: int,
    pub len: int,
    pub reps: int,
    pub total: int,
}

/// Where a sequence stands among those found, at or after `k`.
pub open spec fn found_from(
    names: Seq<Seq<char>>,
    f: Seq<FoundV>,
    at: int,
    len: int,
    k: int,
) -> Option<int>
    decreases f.len() - k,
{
    if k < 0 || k >= f.len() {
        None
    } else if f[k].len == len && same_window(names, f[k].at, at, len) {
        Some(k)
    } else {
        found_from(names, f, at, len, k + 1)
    }
}

/// What was found, with one more run.
pub open spec fn with_run(
    names: Seq<Seq<char>>,
    amounts: Seq<i64>,
    f: Seq<FoundV>,
    r: RunV,
) -> Seq<FoundV> {
    let time = sum_between(amounts, r.at, r.at + r.reps * r.len);
    match found_from(names, f, r.at, r.len, 0) {
        Some(k) => f.update(
            k,
            FoundV {
                at: f[k].at,
                len: f[k].len,
                reps: f[k].reps + r.reps,
                total: f[k].total + time,
            },
        ),
        None => f.push(FoundV { at: r.at, len: r.len, reps: r.reps, total: time }),
    }
}

/// What the first `n` runs make up.
pub open spec fn gathered(
    names: Seq<Seq<char>>,
    amounts: Seq<i64>,
    runs: Seq<RunV>,
    n: int,
) -> Seq<FoundV>
    decreases n,
{
    if n <= 0 {
        Seq::empty()
    } else {
        with_run(names, amounts, gathered(names, amounts, runs, n - 1), runs[n - 1])
    }
}

/// The sequences from the longest running down; equal ones keep their order.
pub open spec fn longest_first(f: Seq<FoundV>) -> Seq<FoundV> {
    groups::picked(f, order::order_of(Seq::new(f.len(), |i: int| -f[i].total)))
}

/// A sequence of kernels that repeats.
#[derive(Debug)]
pub struct Found {
    pub at: usize,
    pub len: usize,
    pub reps: u64,
    pub total: i128,
}

impl View for Found {
    type V = FoundV;

    open spec fn view(&self) -> FoundV {
        FoundV {
            at: self.at as int,
            len: self.len as int,
            reps: self.reps as int,
            total: self.total as int,
        }
    }
}

pub open spec fn found_views(v: Seq<Found>) -> Seq<FoundV> {
    Seq::new(v.len(), |i: int| v[i]@)
}

/// More launches than this do not fit in memory.
pub const MOST_LAUNCHES: u64 = 0x0fff_ffff_ffff_ffff;

/// The numbers stand for the names.
spec fn stand_for(ids: Seq<usize>, names: Seq<Seq<char>>) -> bool {
    &&& ids.len() == names.len()
    &&& forall|i: int, j: int|
        0 <= i < ids.len() && 0 <= j < ids.len() ==> (#[trigger] ids[i] == #[trigger] ids[j]
            <==> names[i] == names[j])
}

fn windows_match(ids: &[usize], i: usize, j: usize, len: usize, names: Ghost<Seq<Seq<char>>>) -> (r:
    bool)
    requires
        stand_for(ids@, names@),
        i + len <= ids@.len(),
        j + len <= ids@.len(),
    ensures
        r == same_window(names@, i as int, j as int, len as int),
{
    let n: usize = ids.len();
    let mut k: usize = 0;
    while k < len
        invariant
            k <= len,
            n == ids@.len(),
            stand_for(ids@, names@),
            i + len <= n,
            j + len <= n,
            forall|m: int| 0 <= m < k ==> names@[i + m] == #[trigger] names@[j + m],
        decreases len - k,
    {
        if ids[i + k] != ids[j + k] {
            assert(names@[i + k] != names@[j + k]);
            return false;
        }
        assert(ids@[i + k] == ids@[j + k]);
        assert(names@[i + k] == names@[j + k]);
        k = k + 1;
    }
    true
}

fn window_is_constant(ids: &[usize], i: usize, len: usize, names: Ghost<Seq<Seq<char>>>) -> (r: bool)
    requires
        stand_for(ids@, names@),
        len > 0,
        i + len <= ids@.len(),
    ensures
        r == is_constant(names@, i as int, len as int),
{
    let n: usize = ids.len();
    let mut k: usize = 0;
    while k < len
        invariant
            k <= len,
            n == ids@.len(),
            stand_for(ids@, names@),
            i + len <= n,
            len > 0,
            forall|m: int| 0 <= m < k ==> #[trigger] names@[i + m] == names@[i as int],
        decreases len - k,
    {
        if ids[i + k] != ids[i] {
            assert(names@[i + k] != names@[i as int]);
            return false;
        }
        assert(ids@[i + k] == ids@[i as int]);
        assert(names@[i + k] == names@[i as int]);
        k = k + 1;
    }
    true
}

proof fn repeats_fit(names: Seq<Seq<char>>, i: int, len: int, j: int)
    requires
        0 <= j,
        len > 0,
    ensures
        0 <= repeats(names, i, len, j),
        j <= names.len() ==> j + repeats(names, i, len, j) * len <= names.len(),
    decreases names.len() - j,
{
    if j + len <= names.len() && same_window(names, i, j, len) {
        repeats_fit(names, i, len, j + len);
        let r = repeats(names, i, len, j + len);
        assert((1 + r) * len == len + r * len) by (nonlinear_arith);
    } else {
        assert(0 * len == 0);
    }
}

proof fn sums_are_small(amounts: Seq<i64>, i: int, j: int)
    requires
        i <= j,
    ensures
        -0x8000_0000_0000_0000 * (j - i) <= sum_between(amounts, i, j) <= 0x8000_0000_0000_0000
            * (j - i),
    decreases j - i,
{
    if i < j {
        sums_are_small(amounts, i, j - 1);
    }
}

fn find_found(f: &[Found], ids: &[usize], at: usize, len: usize, names: Ghost<Seq<Seq<char>>>) -> (r:
    Option<usize>)
    requires
        stand_for(ids@, names@),
        at + len <= ids@.len(),
        forall|k: int| 0 <= k < f@.len() ==> (#[trigger] f@[k]).at + f@[k].len <= ids@.len(),
    ensures
        match r {
            Some(k) => found_from(names@, found_views(f@), at as int, len as int, 0) == Some(
                k as int,
            ) && k < f@.len(),
            None => found_from(names@, found_views(f@), at as int, len as int, 0) is None,
        },
{
    let mut k: usize = 0;
    while k < f.len()
        invariant
            k <= f@.len(),
            stand_for(ids@, names@),
            at + len <= ids@.len(),
            forall|k: int| 0 <= k < f@.len() ==> (#[trigger] f@[k]).at + f@[k].len <= ids@.len(),
            found_from(names@, found_views(f@), at as int, len as int, 0) == found_from(
                names@,
                found_views(f@),
                at as int,
                len as int,
                k as int,
            ),
        decreases f@.len() - k,
    {
        assert(found_views(f@)[k as int] == f@[k as int]@);
        if f[k].len == len && windows_match(ids, f[k].at, at, len, names) {
            return Some(k);
        }
        k = k + 1;
    }
    None
}

/// What was found stays within bounds: all of it was met among the first
/// `scanned` launches.
spec fn within(f: Seq<Found>, n: int, scanned: int) -> bool {
    forall|k: int|
        0 <= k < f.len() ==> {
            &&& (#[trigger] f[k]).at + f[k].len <= n
            &&& f[k].reps <= scanned
            &&& -0x8000_0000_0000_0000 * scanned <= f[k].total <= 0x8000_0000_0000_0000 * scanned
        }
}

proof fn gathered_more(
    names: Seq<Seq<char>>,
    amounts: Seq<i64>,
    before: Seq<RunV>,
    r: RunV,
    rest: Seq<RunV>,
)
    ensures
        gathered(names, amounts, before + (seq![r] + rest), before.len() as int + 1) == with_run(
            names,
            amounts,
            gathered(names, amounts, before, before.len() as int),
            r,
        ),
{
    let all = before + (seq![r] + rest);
    assert(all[before.len() as int] == r);
    gathered_prefix(names, amounts, before, all, before.len() as int);
}

proof fn gathered_prefix(
    names: Seq<Seq<char>>,
    amounts: Seq<i64>,
    a: Seq<RunV>,
    b: Seq<RunV>,
    n: int,
)
    requires
        0 <= n <= a.len(),
        n <= b.len(),
        forall|k: int| 0 <= k < n ==> a[k] == #[trigger] b[k],
    ensures
        gathered(names, amounts, a, n) == gathered(names, amounts, b, n),
    decreases n,
{
    if n > 0 {
        gathered_prefix(names, amounts, a, b, n - 1);
        assert(a[n - 1] == b[n - 1]);
    }
}

/// Adds the runs of `len` kernels to what was found.
fn scan(
    ids: &[usize],
    amounts: &[i64],
    len: usize,
    f: &mut Vec<Found>,
    names: Ghost<Seq<Seq<char>>>,
    before: Ghost<Seq<RunV>>,
    levels: Ghost<int>,
)
    requires
        stand_for(ids@, names@),
        amounts@.len() == ids@.len(),
        ids@.len() <= MOST_LAUNCHES,
        2 <= len <= 5,
        0 <= levels@ < 4,
        found_views(old(f)@) == gathered(names@, amounts@, before@, before@.len() as int),
        within(old(f)@, ids@.len() as int, levels@ * ids@.len()),
    ensures
        ({
            let runs = before@ + runs_from(names@, len as int, 0);
            &&& found_views(final(f)@) == gathered(names@, amounts@, runs, runs.len() as int)
            &&& within(final(f)@, ids@.len() as int, (levels@ + 1) * ids@.len())
        }),
{
    let n: usize = ids.len();
    let ghost whole = before@ + runs_from(names@, len as int, 0);
    let mut i: usize = 0;
    let ghost mut done: Seq<RunV> = before@;
    assert(levels@ * n + 0 == levels@ * n);
    while i <= n && n - i >= 2 * len
        invariant
            i <= n,
            n == ids@.len(),
            n <= MOST_LAUNCHES,
            amounts@.len() == n,
            2 <= len <= 5,
            0 <= levels@ < 4,
            stand_for(ids@, names@),
            whole =~= done + runs_from(names@, len as int, i as int),
            found_views(f@) == gathered(names@, amounts@, done, done.len() as int),
            within(f@, n as int, levels@ * n + i),
        decreases n - i,
    {
        if window_is_constant(ids, i, len, names) {
            i = i + 1;
        } else {
            let mut reps: usize = 1;
            let mut j: usize = i + len;
            proof {
                repeats_fit(names@, i as int, len as int, j as int);
            }
            let ghost total = 1 + repeats(names@, i as int, len as int, i + len);
            while n - j >= len && windows_match(ids, i, j, len, names)
                invariant
                    i + len <= j <= n,
                    n == ids@.len(),
                    n <= MOST_LAUNCHES,
                    2 <= len <= 5,
                    stand_for(ids@, names@),
                    1 <= reps <= j,
                    j == i + reps * len,
                    total == reps + repeats(names@, i as int, len as int, j as int),
                decreases n - j,
            {
                assert((reps + 1) * len == reps * len + len) by (nonlinear_arith);
                reps = reps + 1;
                j = j + len;
            }
            assert(repeats(names@, i as int, len as int, j as int) == 0);
            if reps >= 3 {
                let ghost run = RunV { at: i as int, len: len as int, reps: reps as int };
                let ghost rest = runs_from(names@, len as int, j as int);
                assert(done + runs_from(names@, len as int, i as int) =~= done + (seq![run]
                    + rest));
                let mut time: i128 = 0;
                let mut m: usize = i;
                while m < j
                    invariant
                        i <= m <= j <= n,
                        n == amounts@.len(),
                        n <= MOST_LAUNCHES,
                        time == sum_between(amounts@, i as int, m as int),
                    decreases j - m,
                {
                    proof {
                        sums_are_small(amounts@, i as int, m as int);
                    }
                    time = time + amounts[m] as i128;
                    m = m + 1;
                }
                proof {
                    sums_are_small(amounts@, i as int, j as int);
                    gathered_more(names@, amounts@, done, run, rest);
                    gathered_prefix(
                        names@,
                        amounts@,
                        done + (seq![run] + rest),
                        done.push(run),
                        done.len() as int + 1,
                    );
                }
                let ghost old_f = f@;
                let ghost scanned = levels@ * n + i;
                assert(levels@ * n <= 3 * n) by (nonlinear_arith)
                    requires
                        0 <= levels@ < 4,
                        n >= 0,
                ;
                assert(levels@ * n >= 0) by (nonlinear_arith)
                    requires
                        0 <= levels@ < 4,
                        n >= 0,
                ;
                assert(2 * reps <= reps * len) by (nonlinear_arith)
                    requires
                        len >= 2,
                        reps >= 0,
                ;
                match find_found(f, ids, i, len, names) {
                    Some(k) => {
                        assert(f@[k as int].reps <= scanned);
                        let item = Found {
                            at: f[k].at,
                            len: f[k].len,
                            reps: f[k].reps + reps as u64,
                            total: f[k].total + time,
                        };
                        let ghost iv = item@;
                        f.set(k, item);
                        assert(found_views(f@) =~= found_views(old_f).update(k as int, iv));
                    },
                    None => {
                        let item = Found { at: i, len, reps: reps as u64, total: time };
                        let ghost iv = item@;
                        f.push(item);
                        assert(found_views(f@) =~= found_views(old_f).push(iv));
                    },
                }
                proof {
                    done = done.push(run);
                    assert(whole =~= done + rest);
                    assert forall|k: int| 0 <= k < f@.len() implies {
                        &&& (#[trigger] f@[k]).at + f@[k].len <= n
                        &&& f@[k].reps <= levels@ * n + j
                        &&& -0x8000_0000_0000_0000 * (levels@ * n + j) <= f@[k].total
                            <= 0x8000_0000_0000_0000 * (levels@ * n + j)
                    } by {
                        if k < old_f.len() {
                            assert(old_f[k].reps <= scanned);
                        }
                    }
                }
                i = j;
            } else {
                i = i + 1;
            }
        }
    }
    proof {
        assert(runs_from(names@, len as int, i as int).len() == 0);
        assert(whole =~= done);
        assert((levels@ + 1) * n == levels@ * n + n) by (nonlinear_arith);
    }
}

/// Finds sequences of two to five kernels that repeat at least three times in a
/// row, those that run longest in all first, up to `limit` of them. The
/// launches are given in the order of their starts.
pub fn detect_kernel_sequences(names: &[String], amounts: &[i64], limit: usize) -> (r: Vec<Found>)
    requires
        names@.len() == amounts@.len(),
        names@.len() <= MOST_LAUNCHES,
    ensures
        ({
            let all = text::texts(names@);
            let f = longest_first(
                gathered(all, amounts@, all_runs(all), all_runs(all).len() as int),
            );
            found_views(r@) == (if limit < f.len() {
                f.take(limit as int)
            } else {
                f
            })
        }),
        forall|i: int| 0 <= i < r@.len() ==> (#[trigger] r@[i]).at + r@[i].len <= names@.len(),
{
    let interned = intern(names);
    let ghost all = text::texts(names@);
    let n: usize = names.len();
    proof {
        let d = text::texts(interned.names@);
        assert forall|i: int, j: int| 0 <= i < n && 0 <= j < n implies (
        #[trigger] interned.ids@[i] == #[trigger] interned.ids@[j] <==> all[i] == all[j]) by {
            assert(d[interned.ids@[i] as int] == all[i]);
            assert(d[interned.ids@[j] as int] == all[j]);
        }
        assert(stand_for(interned.ids@, all));
    }
    let mut f: Vec<Found> = Vec::new();
    let ghost none = Seq::<RunV>::empty();
    assert(found_views(f@) =~= gathered(all, amounts@, none, 0));
    let ghost five = none + runs_from(all, 5, 0);
    let ghost four = five + runs_from(all, 4, 0);
    let ghost three = four + runs_from(all, 3, 0);
    scan(&interned.ids, amounts, 5, &mut f, Ghost(all), Ghost(none), Ghost(0));
    scan(&interned.ids, amounts, 4, &mut f, Ghost(all), Ghost(five), Ghost(1));
    scan(&interned.ids, amounts, 3, &mut f, Ghost(all), Ghost(four), Ghost(2));
    scan(&interned.ids, amounts, 2, &mut f, Ghost(all), Ghost(three), Ghost(3));
    assert(three + runs_from(all, 2, 0) =~= all_runs(all));
    let ghost fv = found_views(f@);
    let mut keys: Vec<i128> = Vec::new();
    let mut i: usize = 0;
    while i < f.len()
        invariant
            i <= f@.len(),
            fv == found_views(f@),
            n <= MOST_LAUNCHES,
            within(f@, n as int, 4 * n),
            order::ints(keys@) =~= Seq::new(i as nat, |k: int| -fv[k].total),
        decreases f@.len() - i,
    {
        let ghost before = keys@;
        assert(f@[i as int].total >= -0x8000_0000_0000_0000 * (4 * n));
        keys.push(-f[i].total);
        assert(order::ints(keys@) =~= order::ints(before).push(-fv[i as int].total));
        i = i + 1;
    }
    assert(order::ints(keys@) =~= Seq::new(fv.len(), |k: int| -fv[k].total));
    let p = order(&keys);
    let ghost want = longest_first(fv);
    let mut out: Vec<Found> = Vec::new();
    let mut i: usize = 0;
    while i < p.len() && i < limit
        invariant
            i <= p@.len(),
            i <= limit,
            p@.len() == f@.len(),
            keys@.len() == f@.len(),
            fv == found_views(f@),
            within(f@, n as int, 4 * n),
            want == groups::picked(fv, order::positions(p@)),
            forall|k: int| 0 <= k < p@.len() ==> (#[trigger] p@[k]) < keys@.len(),
            out@.len() == i,
            forall|k: int| 0 <= k < out@.len() ==> (#[trigger] out@[k]).at + out@[k].len <= n,
            found_views(out@) =~= want.take(i as int),
        decreases p@.len() - i,
    {
        let ghost before = out@;
        let item = &f[p[i]];
        assert(order::positions(p@)[i as int] == p@[i as int]);
        assert(f@[p@[i as int] as int].at + f@[p@[i as int] as int].len <= n);
        let copy = Found { at: item.at, len: item.len, reps: item.reps, total: item.total };
        let ghost cv = copy@;
        assert(cv == want[i as int]);
        out.push(copy);
        assert(found_views(out@) =~= found_views(before).push(cv));
        i = i + 1;
    }
    assert(found_views(out@) =~= (if limit < want.len() {
        want.take(limit as int)
    } else {
        want
    }));
    out
}

// ---------------------------------------------------------------------------
// Laws
// ---------------------------------------------------------------------------

/// A run stands three times at least, ends with the last launch at the latest,
/// and is not all of one kernel.
pub open spec fn is_run(names: Seq<Seq<char>>, r: RunV) -> bool {
    &&& 0 <= r.at
    &&& r.len > 0
    &&& r.reps >= 3
    &&& r.at + r.reps * r.len <= names.len()
    &&& !is_constant(names, r.at, r.len)
    &&& r.reps == 1 + repeats(names, r.at, r.len, r.at + r.len)
}

/// What is searched for is what is found.
pub proof fn runs_are_runs(names: Seq<Seq<char>>, len: int, i: int)
    requires
        0 <= i,
    ensures
        forall|k: int|
            0 <= k < runs_from(names, len, i).len() ==> is_run(
                names,
                #[trigger] runs_from(names, len, i)[k],
            ) && runs_from(names, len, i)[k].len == len && runs_from(names, len, i)[k].at >= i,
        forall|k: int|
            0 <= k < runs_from(names, len, i).len() - 1 ==> (#[trigger] runs_from(
                names,
                len,
                i,
            )[k]).at + runs_from(names, len, i)[k].reps * len <= runs_from(names, len, i)[k
                + 1].at,
    decreases names.len() - i,
{
    if len > 0 && i + 2 * len <= names.len() {
        repeats_fit(names, i, len, i + len);
        let reps = 1 + repeats(names, i, len, i + len);
        assert(reps * len == len + repeats(names, i, len, i + len) * len) by (nonlinear_arith)
            requires
                reps == 1 + repeats(names, i, len, i + len),
        ;
        if is_constant(names, i, len) {
            runs_are_runs(names, len, i + 1);
            assert(runs_from(names, len, i) == runs_from(names, len, i + 1));
        } else if reps >= 3 {
            assert(reps * len > 0) by (nonlinear_arith)
                requires
                    reps >= 3,
                    len > 0,
            ;
            runs_are_runs(names, len, i + reps * len);
            let first = RunV { at: i, len, reps };
            let rest = runs_from(names, len, i + reps * len);
            let all = runs_from(names, len, i);
            assert(all == seq![first] + rest);
            assert(is_run(names, first));
            assert forall|k: int| 0 <= k < all.len() implies is_run(names, #[trigger] all[k])
                && all[k].len == len && all[k].at >= i by {
                if k > 0 {
                    assert(all[k] == rest[k - 1]);
                }
            }
            assert forall|k: int| 0 <= k < all.len() - 1 implies (#[trigger] all[k]).at
                + all[k].reps * len <= all[k + 1].at by {
                assert(all[k + 1] == rest[k]);
                if k > 0 {
                    assert(all[k] == rest[k - 1]);
                }
            }
        } else {
            runs_are_runs(names, len, i + 1);
            assert(runs_from(names, len, i) == runs_from(names, len, i + 1));
        }
    } else {
        assert(runs_from(names, len, i).len() == 0);
    }
}

/// Every repetition of a run is the sequence that it begins with.
pub proof fn repetitions_are_alike(names: Seq<Seq<char>>, i: int, len: int, j: int, m: int)
    requires
        0 <= j,
        len > 0,
        0 <= m < repeats(names, i, len, j),
    ensures
        same_window(names, i, j + m * len, len),
    decreases m,
{
    if m == 0 {
        assert(0 * len == 0);
    } else {
        repetitions_are_alike(names, i, len, j + len, m - 1);
        assert(j + len + (m - 1) * len == j + m * len) by (nonlinear_arith);
    }
}

/// From `i` on, the same `len` kernels stand three times in a row, and they are
/// not all one kernel.
pub open spec fn stands_thrice(names: Seq<Seq<char>>, i: int, len: int) -> bool {
    &&& 0 <= i
    &&& i + 3 * len <= names.len()
    &&& forall|k: int| i <= k < i + 2 * len ==> #[trigger] names[k] == names[k + len]
    &&& exists|k: int| i < k < i + len && #[trigger] names[k] != names[i]
}

proof fn thrice_is_a_run(names: Seq<Seq<char>>, i: int, len: int)
    requires
        len > 0,
        stands_thrice(names, i, len),
    ensures
        !is_constant(names, i, len),
        repeats(names, i, len, i + len) >= 2,
{
    let k = choose|k: int| i < k < i + len && #[trigger] names[k] != names[i];
    assert(names[i + (k - i)] != names[i]);
    assert(same_window(names, i, i + len, len)) by {
        assert forall|m: int| 0 <= m < len implies names[i + m] == #[trigger] names[i + len
            + m] by {
            assert(names[i + m] == names[i + m + len]);
        }
    }
    assert(same_window(names, i, i + 2 * len, len)) by {
        assert forall|m: int| 0 <= m < len implies names[i + m] == #[trigger] names[i + 2 * len
            + m] by {
            assert(names[i + m] == names[i + m + len]);
            assert(names[i + m + len] == names[i + m + len + len]);
        }
    }
    repeats_fit(names, i, len, i + 3 * len);
    assert(i + len + len == i + 2 * len);
    assert(i + 2 * len + len == i + 3 * len);
    assert(repeats(names, i, len, i + 2 * len) >= 1);
}

/// The run covers position `i`.
spec fn covers(r: RunV, len: int, i: int) -> bool {
    r.len == len && r.at <= i < r.at + r.reps * len
}

proof fn the_scan_meets(names: Seq<Seq<char>>, len: int, from: int, i: int) -> (k: int)
    requires
        len > 0,
        0 <= from <= i,
        stands_thrice(names, i, len),
    ensures
        0 <= k < runs_from(names, len, from).len(),
        covers(runs_from(names, len, from)[k], len, i),
    decreases names.len() - from,
{
    let all = runs_from(names, len, from);
    repeats_fit(names, from, len, from + len);
    let reps = 1 + repeats(names, from, len, from + len);
    assert(reps * len == len + repeats(names, from, len, from + len) * len) by (nonlinear_arith)
        requires
            reps == 1 + repeats(names, from, len, from + len),
    ;
    if from == i {
        thrice_is_a_run(names, i, len);
    }
    if !is_constant(names, from, len) && reps >= 3 {
        assert(reps * len > 0) by (nonlinear_arith)
            requires
                reps >= 3,
                len > 0,
        ;
        let first = RunV { at: from, len, reps };
        let rest = runs_from(names, len, from + reps * len);
        assert(all == seq![first] + rest);
        assert(all[0] == first);
        if i < from + reps * len {
            0
        } else {
            let k = the_scan_meets(names, len, from + reps * len, i);
            assert(all[k + 1] == rest[k]);
            k + 1
        }
    } else {
        the_scan_meets(names, len, from + 1, i)
    }
}

/// The runs of one length are among all runs.
proof fn among_all_runs(names: Seq<Seq<char>>, len: int, k: int) -> (m: int)
    requires
        2 <= len <= 5,
        0 <= k < runs_from(names, len, 0).len(),
    ensures
        0 <= m < all_runs(names).len(),
        all_runs(names)[m] == runs_from(names, len, 0)[k],
{
    let five = runs_from(names, 5, 0).len() as int;
    let four = five + runs_from(names, 4, 0).len();
    let three = four + runs_from(names, 3, 0).len();
    let m = if len == 5 {
        k
    } else if len == 4 {
        five + k
    } else if len == 3 {
        four + k
    } else {
        three + k
    };
    assert(all_runs(names)[m] == runs_from(names, len, 0)[k]);
    m
}

proof fn all_runs_are_runs(names: Seq<Seq<char>>, m: int)
    requires
        0 <= m < all_runs(names).len(),
    ensures
        is_run(names, all_runs(names)[m]),
        2 <= all_runs(names)[m].len <= 5,
{
    runs_are_runs(names, 5, 0);
    runs_are_runs(names, 4, 0);
    runs_are_runs(names, 3, 0);
    runs_are_runs(names, 2, 0);
    let five = runs_from(names, 5, 0).len() as int;
    let four = five + runs_from(names, 4, 0).len();
    let three = four + runs_from(names, 3, 0).len();
    let r = all_runs(names)[m];
    if m < five {
        assert(r == runs_from(names, 5, 0)[m]);
    } else if m < four {
        assert(r == runs_from(names, 4, 0)[m - five]);
    } else if m < three {
        assert(r == runs_from(names, 3, 0)[m - four]);
    } else {
        assert(r == runs_from(names, 2, 0)[m - three]);
    }
}

/// The run is of the `len` kernels that stand at `at`.
pub open spec fn is_of(names: Seq<Seq<char>>, r: RunV, at: int, len: int) -> bool {
    r.len == len && forall|k: int| 0 <= k < len ==> names[at + k] == #[trigger] names[r.at + k]
}

/// How often the `len` kernels at `at` stand in the first `n` runs.
pub open spec fn times_met(
    names: Seq<Seq<char>>,
    runs: Seq<RunV>,
    at: int,
    len: int,
    n: int,
) -> int
    decreases n,
{
    if n <= 0 {
        0
    } else {
        times_met(names, runs, at, len, n - 1) + (if is_of(names, runs[n - 1], at, len) {
            runs[n - 1].reps
        } else {
            0
        })
    }
}

/// How long the launches of the first `n` runs of the `len` kernels at `at` run.
pub open spec fn time_met(
    names: Seq<Seq<char>>,
    amounts: Seq<i64>,
    runs: Seq<RunV>,
    at: int,
    len: int,
    n: int,
) -> int
    decreases n,
{
    if n <= 0 {
        0
    } else {
        time_met(names, amounts, runs, at, len, n - 1) + (if is_of(names, runs[n - 1], at, len) {
            sum_between(
                amounts,
                runs[n - 1].at,
                runs[n - 1].at + runs[n - 1].reps * runs[n - 1].len,
            )
        } else {
            0
        })
    }
}

proof fn found_from_is(names: Seq<Seq<char>>, f: Seq<FoundV>, at: int, len: int, k: int)
    requires
        0 <= k,
    ensures
        match found_from(names, f, at, len, k) {
            Some(j) => k <= j < f.len() && f[j].len == len && same_window(
                names,
                f[j].at,
                at,
                len,
            ),
            None => forall|j: int|
                k <= j < f.len() ==> !((#[trigger] f[j]).len == len && same_window(
                    names,
                    f[j].at,
                    at,
                    len,
                )),
        },
    decreases f.len() - k,
{
    if k < f.len() && !(f[k].len == len && same_window(names, f[k].at, at, len)) {
        found_from_is(names, f, at, len, k + 1);
    }
}

proof fn alike_through(names: Seq<Seq<char>>, a: int, b: int, c: int, len: int)
    requires
        same_window(names, a, b, len),
        same_window(names, a, c, len),
    ensures
        same_window(names, b, c, len),
        same_window(names, b, a, len),
{
    assert forall|k: int| 0 <= k < len implies names[b + k] == #[trigger] names[c + k] by {
        assert(names[a + k] == names[b + k]);
        assert(names[a + k] == names[c + k]);
    }
    assert forall|k: int| 0 <= k < len implies names[b + k] == #[trigger] names[a + k] by {
        assert(names[a + k] == names[b + k]);
    }
}

proof fn alike_is_mutual(names: Seq<Seq<char>>, a: int, b: int, len: int)
    ensures
        same_window(names, a, b, len) == same_window(names, b, a, len),
{
    if same_window(names, a, b, len) {
        assert(same_window(names, a, a, len));
        alike_through(names, a, b, a, len);
    } else if same_window(names, b, a, len) {
        assert(same_window(names, b, b, len));
        alike_through(names, b, a, b, len);
    }
}

/// Entry `e` is for a run that was met.
spec fn is_entry_of(names: Seq<Seq<char>>, runs: Seq<RunV>, e: FoundV, n: int) -> bool {
    exists|m: int| 0 <= m < n && (#[trigger] runs[m]).at == e.at && runs[m].len == e.len
}

/// What is gathered counts each run once: an entry has all the repetitions of
/// its sequence and all their time, no two entries are of one sequence, and
/// every run has its entry.
proof fn gathering_counts_each_run(
    names: Seq<Seq<char>>,
    amounts: Seq<i64>,
    runs: Seq<RunV>,
    n: int,
)
    requires
        0 <= n <= runs.len(),
    ensures
        ({
            let f = gathered(names, amounts, runs, n);
            &&& forall|k: int|
                0 <= k < f.len() ==> is_entry_of(names, runs, #[trigger] f[k], n) && f[k].reps
                    == times_met(names, runs, f[k].at, f[k].len, n) && f[k].total == time_met(
                    names,
                    amounts,
                    runs,
                    f[k].at,
                    f[k].len,
                    n,
                )
            &&& forall|j: int, k: int|
                0 <= j < k < f.len() && (#[trigger] f[j]).len == (#[trigger] f[k]).len
                    ==> !same_window(names, f[j].at, f[k].at, f[j].len)
            &&& forall|m: int|
                0 <= m < n ==> exists|k: int|
                    0 <= k < f.len() && is_of(names, #[trigger] runs[m], (#[trigger] f[k]).at, f[k].len)
            &&& forall|at: int, len: int|
                (forall|k: int|
                    0 <= k < f.len() ==> !((#[trigger] f[k]).len == len && same_window(
                        names,
                        f[k].at,
                        at,
                        len,
                    ))) ==> #[trigger] times_met(names, runs, at, len, n) == 0 && time_met(
                    names,
                    amounts,
                    runs,
                    at,
                    len,
                    n,
                ) == 0
        }),
    decreases n,
{
    if n > 0 {
        gathering_counts_each_run(names, amounts, runs, n - 1);
        let g = gathered(names, amounts, runs, n - 1);
        let f = gathered(names, amounts, runs, n);
        let r = runs[n - 1];
        let time = sum_between(amounts, r.at, r.at + r.reps * r.len);
        found_from_is(names, g, r.at, r.len, 0);
        let hit = found_from(names, g, r.at, r.len, 0);
        let own = match hit {
            Some(k) => k,
            None => g.len() as int,
        };
        assert(same_window(names, r.at, r.at, r.len));
        assert(f[own].len == r.len && same_window(names, f[own].at, r.at, r.len));
        assert(is_of(names, r, f[own].at, f[own].len));
        assert forall|k: int| 0 <= k < g.len() implies (#[trigger] f[k]).at == g[k].at && f[k].len
            == g[k].len by {}
        assert forall|k: int| 0 <= k < f.len() implies is_entry_of(names, runs, #[trigger] f[k], n)
            && f[k].reps == times_met(names, runs, f[k].at, f[k].len, n) && f[k].total == time_met(
            names,
            amounts,
            runs,
            f[k].at,
            f[k].len,
            n,
        ) by {
            if k < g.len() {
                assert(is_entry_of(names, runs, g[k], n - 1));
                let m = choose|m: int|
                    0 <= m < n - 1 && (#[trigger] runs[m]).at == g[k].at && runs[m].len == g[k].len;
                assert(runs[m].at == f[k].at);
                if k != own && is_of(names, r, f[k].at, f[k].len) {
                    assert(same_window(names, g[k].at, r.at, r.len));
                    match hit {
                        Some(h) => {
                            alike_is_mutual(names, g[h].at, r.at, r.len);
                            alike_is_mutual(names, g[k].at, r.at, r.len);
                            alike_through(names, r.at, g[h].at, g[k].at, r.len);
                            if h < k {
                                assert(g[h].len == g[k].len);
                            } else {
                                alike_is_mutual(names, g[h].at, g[k].at, r.len);
                                assert(g[k].len == g[h].len);
                            }
                        },
                        None => {
                            assert(g[k].len == r.len);
                        },
                    }
                    assert(false);
                }
            } else {
                assert(runs[n - 1].at == f[k].at);
                assert(forall|j: int|
                    0 <= j < g.len() ==> !((#[trigger] g[j]).len == r.len && same_window(
                        names,
                        g[j].at,
                        r.at,
                        r.len,
                    )));
                assert(times_met(names, runs, r.at, r.len, n - 1) == 0);
            }
        }
        assert forall|j: int, k: int|
            0 <= j < k < f.len() && (#[trigger] f[j]).len == (
            #[trigger] f[k]).len implies !same_window(names, f[j].at, f[k].at, f[j].len) by {
            if k < g.len() {
                assert(g[j].len == g[k].len);
            } else {
                assert(g[j].len == r.len);
            }
        }
        assert forall|m: int| 0 <= m < n implies exists|k: int|
            0 <= k < f.len() && is_of(names, #[trigger] runs[m], (#[trigger] f[k]).at, f[k].len) by {
            if m < n - 1 {
                let k = choose|k: int|
                    0 <= k < g.len() && is_of(
                        names,
                        #[trigger] runs[m],
                        (#[trigger] g[k]).at,
                        g[k].len,
                    );
                assert(is_of(names, runs[m], f[k].at, f[k].len));
            } else {
                assert(is_of(names, runs[m], f[own].at, f[own].len));
            }
        }
        assert forall|at: int, len: int|
            (forall|k: int|
                0 <= k < f.len() ==> !((#[trigger] f[k]).len == len && same_window(
                    names,
                    f[k].at,
                    at,
                    len,
                ))) implies #[trigger] times_met(names, runs, at, len, n) == 0 && time_met(
            names,
            amounts,
            runs,
            at,
            len,
            n,
        ) == 0 by {
            assert forall|k: int| 0 <= k < g.len() implies !((#[trigger] g[k]).len == len
                && same_window(names, g[k].at, at, len)) by {
                assert(f[k].len == g[k].len);
            }
            assert(times_met(names, runs, at, len, n - 1) == 0);
            if is_of(names, r, at, len) {
                assert(same_window(names, at, r.at, len));
                alike_is_mutual(names, at, r.at, len);
                alike_is_mutual(names, f[own].at, r.at, len);
                alike_through(names, r.at, f[own].at, at, len);
                assert(f[own].len == len);
            }
        }
    }
}

/// What stands at the positions of an order is what stood there before.
proof fn listed(f: Seq<FoundV>, k: int) -> (j: int)
    requires
        0 <= k < f.len(),
    ensures
        longest_first(f).len() == f.len(),
        0 <= j < f.len(),
        longest_first(f)[j] == f[k],
{
    let keys = Seq::new(f.len(), |i: int| -f[i].total);
    order::there_is_an_order(keys);
    let p = order::order_of(keys);
    assert(p.contains(k));
    choose|j: int| 0 <= j < p.len() && p[j] == k
}

/// Every sequence of two to five kernels that stands three times in a row is
/// found. The position lies in a run of that length (its own, or an earlier one
/// that reaches over it), that run repeats three times at least, and an entry
/// lists the run's kernels with at least its repetitions.
pub proof fn every_repetition_is_found(
    names: Seq<Seq<char>>,
    amounts: Seq<i64>,
    len: int,
    i: int,
) -> (r: (int, int, int))
    requires
        2 <= len <= 5,
        stands_thrice(names, i, len),
    ensures
        ({
            let runs = all_runs(names);
            let f = longest_first(gathered(names, amounts, runs, runs.len() as int));
            let (at, reps, e) = r;
            &&& at <= i < at + reps * len
            &&& reps >= 3
            &&& stands_thrice(names, at, len)
            &&& 0 <= e < f.len()
            &&& f[e].len == len
            &&& forall|k: int| 0 <= k < len ==> names[f[e].at + k] == #[trigger] names[at + k]
            &&& f[e].reps >= reps
        }),
{
    let runs = all_runs(names);
    let n = runs.len() as int;
    let g = gathered(names, amounts, runs, n);
    let k = the_scan_meets(names, len, 0, i);
    let m = among_all_runs(names, len, k);
    let run = runs[m];
    all_runs_are_runs(names, m);
    a_run_stands_thrice(names, run);
    gathering_counts_each_run(names, amounts, runs, n);
    let h = choose|h: int|
        0 <= h < g.len() && is_of(names, #[trigger] runs[m], (#[trigger] g[h]).at, g[h].len);
    assert(g[h].reps == times_met(names, runs, g[h].at, g[h].len, n));
    met_at_least(names, runs, g[h].at, g[h].len, n, m);
    let e = listed(g, h);
    (run.at, run.reps, e)
}

proof fn met_at_least(
    names: Seq<Seq<char>>,
    runs: Seq<RunV>,
    at: int,
    len: int,
    n: int,
    m: int,
)
    requires
        0 <= n <= runs.len(),
        runs == all_runs(names),
        0 <= m,
        m < runs.len(),
        is_of(names, runs[m], at, len),
    ensures
        times_met(names, runs, at, len, n) >= 0,
        m < n ==> times_met(names, runs, at, len, n) >= runs[m].reps,
    decreases n,
{
    if n > 0 {
        met_at_least(names, runs, at, len, n - 1, m);
        all_runs_are_runs(names, n - 1);
    }
}

proof fn a_run_stands_thrice(names: Seq<Seq<char>>, r: RunV)
    requires
        is_run(names, r),
    ensures
        stands_thrice(names, r.at, r.len),
{
    let (i, len) = (r.at, r.len);
    assert(r.reps * len >= 3 * len) by (nonlinear_arith)
        requires
            r.reps >= 3,
            len > 0,
    ;
    repetitions_are_alike(names, i, len, i + len, 0);
    repetitions_are_alike(names, i, len, i + len, 1);
    assert(0 * len == 0 && 1 * len == len);
    assert forall|k: int| i <= k < i + 2 * len implies #[trigger] names[k] == names[k + len] by {
        if k < i + len {
            let m = k - i;
            assert(names[i + m] == names[i + len + m]);
            assert(i + len + m == k + len);
        } else {
            let m = k - i - len;
            assert(names[i + m] == names[i + len + m]);
            assert(names[i + m] == names[i + len + len + m]);
            assert(i + len + m == k);
            assert(i + len + len + m == k + len);
        }
    }
    let k = choose|k: int| 0 <= k < len && #[trigger] names[i + k] != names[i];
    assert(names[i + k] != names[i]);
    assert(k != 0);
}

/// A sequence that begins to repeat where nothing of its length repeated before
/// is found as it stands.
pub proof fn the_first_repetition_is_found(
    names: Seq<Seq<char>>,
    amounts: Seq<i64>,
    len: int,
    i: int,
)
    requires
        2 <= len <= 5,
        stands_thrice(names, i, len),
        forall|j: int| 0 <= j < i ==> !#[trigger] stands_thrice(names, j, len),
    ensures
        ({
            let runs = all_runs(names);
            let f = longest_first(gathered(names, amounts, runs, runs.len() as int));
            exists|e: int|
                0 <= e < f.len() && (#[trigger] f[e]).len == len && f[e].reps >= 3 && forall|k: int|
                    0 <= k < len ==> names[f[e].at + k] == #[trigger] names[i + k]
        }),
{
    let (at, reps, e) = every_repetition_is_found(names, amounts, len, i);
    assert(at == i);
}

/// Nothing is found that does not repeat: an entry is of two to five kernels
/// that stand three times in a row where it says; it counts each run of them
/// once, with the time of all its launches; no two entries are of one sequence;
/// and those that take longest come first.
pub proof fn what_is_found_repeats(names: Seq<Seq<char>>, amounts: Seq<i64>)
    ensures
        ({
            let runs = all_runs(names);
            let n = runs.len() as int;
            let f = longest_first(gathered(names, amounts, runs, n));
            &&& forall|e: int|
                0 <= e < f.len() ==> 2 <= (#[trigger] f[e]).len <= 5 && stands_thrice(
                    names,
                    f[e].at,
                    f[e].len,
                ) && f[e].reps >= 3 && f[e].reps == times_met(names, runs, f[e].at, f[e].len, n)
                    && f[e].total == time_met(names, amounts, runs, f[e].at, f[e].len, n)
            &&& forall|d: int, e: int|
                0 <= d < e < f.len() ==> (#[trigger] f[d]).total >= (#[trigger] f[e]).total
            &&& forall|d: int, e: int|
                0 <= d < f.len() && 0 <= e < f.len() && d != e && (#[trigger] f[d]).len == (
                #[trigger] f[e]).len ==> exists|k: int|
                    0 <= k < f[d].len && names[f[d].at + k] != #[trigger] names[f[e].at + k]
        }),
{
    let runs = all_runs(names);
    let n = runs.len() as int;
    let g = gathered(names, amounts, runs, n);
    let f = longest_first(g);
    let keys = Seq::new(g.len(), |i: int| -g[i].total);
    order::there_is_an_order(keys);
    let p = order::order_of(keys);
    gathering_counts_each_run(names, amounts, runs, n);
    assert forall|e: int| 0 <= e < f.len() implies 2 <= (#[trigger] f[e]).len <= 5
        && stands_thrice(names, f[e].at, f[e].len) && f[e].reps >= 3 && f[e].reps == times_met(
        names,
        runs,
        f[e].at,
        f[e].len,
        n,
    ) && f[e].total == time_met(names, amounts, runs, f[e].at, f[e].len, n) by {
        let k = p[e];
        assert(f[e] == g[k]);
        assert(is_entry_of(names, runs, g[k], n));
        let m = choose|m: int|
            0 <= m < n && (#[trigger] runs[m]).at == g[k].at && runs[m].len == g[k].len;
        all_runs_are_runs(names, m);
        a_run_stands_thrice(names, runs[m]);
        assert(is_of(names, runs[m], g[k].at, g[k].len));
        met_at_least(names, runs, g[k].at, g[k].len, n, m);
    }
    assert forall|d: int, e: int| 0 <= d < e < f.len() implies (#[trigger] f[d]).total >= (
    #[trigger] f[e]).total by {
        assert(order::before(keys, p[d], p[e]));
    }
    assert forall|d: int, e: int|
        0 <= d < f.len() && 0 <= e < f.len() && d != e && (#[trigger] f[d]).len == (
        #[trigger] f[e]).len implies exists|k: int|
        0 <= k < f[d].len && names[f[d].at + k] != #[trigger] names[f[e].at + k] by {
        let (a, b) = (p[d], p[e]);
        if d < e {
            assert(order::before(keys, p[d], p[e]));
        } else {
            assert(order::before(keys, p[e], p[d]));
        }
        assert(f[d] == g[a] && f[e] == g[b]);
        if a > b {
            assert(g[b].len == g[a].len);
            alike_is_mutual(names, g[b].at, g[a].at, g[a].len);
        }
        assert(!same_window(names, f[d].at, f[e].at, f[d].len));
    }
}

proof fn repeats_end(names: Seq<Seq<char>>, i: int, len: int, j: int)
    requires
        0 <= j,
        len > 0,
    ensures
        ({
            let e = j + repeats(names, i, len, j) * len;
            e + len > names.len() || !same_window(names, i, e, len)
        }),
    decreases names.len() - j,
{
    if j + len <= names.len() && same_window(names, i, j, len) {
        repeats_end(names, i, len, j + len);
        let r = repeats(names, i, len, j + len);
        assert((1 + r) * len == len + r * len) by (nonlinear_arith);
    } else {
        assert(0 * len == 0);
    }
}

/// The repetitions of a run are all there are: each of them is the sequence that
/// the run begins with, and what follows the last one is not.
pub proof fn a_run_counts_all_its_repetitions(names: Seq<Seq<char>>, m: int)
    requires
        0 <= m < all_runs(names).len(),
    ensures
        ({
            let r = all_runs(names)[m];
            let end = r.at + r.reps * r.len;
            &&& forall|q: int, k: int|
                0 <= q < r.reps && 0 <= k < r.len ==> names[r.at + k] == #[trigger] names[r.at + q
                    * r.len + k]
            &&& end + r.len > names.len() || exists|k: int|
                0 <= k < r.len && names[r.at + k] != #[trigger] names[end + k]
        }),
{
    all_runs_are_runs(names, m);
    let r = all_runs(names)[m];
    let len = r.len;
    let end = r.at + r.reps * len;
    assert forall|q: int, k: int| 0 <= q < r.reps && 0 <= k < len implies names[r.at + k]
        == #[trigger] names[r.at + q * len + k] by {
        if q == 0 {
            assert(0 * len == 0);
        } else {
            repetitions_are_alike(names, r.at, len, r.at + len, q - 1);
            assert(r.at + len + (q - 1) * len == r.at + q * len) by (nonlinear_arith);
        }
    }
    repeats_end(names, r.at, len, r.at + len);
    assert(len + (r.reps - 1) * len == r.reps * len) by (nonlinear_arith);
}

proof fn close_pairs_are_close(v: Seq<TimedLaunch>, n: int)
    requires
        0 <= n <= v.len(),
    ensures
        ({
            let c = close_pairs(v, n);
            &&& forall|k: int| 0 <= k < c.len() ==> 0 <= #[trigger] c[k] < n && is_close(v, c[k])
            &&& forall|j: int, k: int| 0 <= j < k < c.len() ==> #[trigger] c[j] < #[trigger] c[k]
            &&& forall|i: int| 0 <= i < n && is_close(v, i) ==> #[trigger] c.contains(i)
        }),
    decreases n,
{
    if n > 0 {
        close_pairs_are_close(v, n - 1);
        let b = close_pairs(v, n - 1);
        let c = close_pairs(v, n);
        assert forall|i: int| 0 <= i < n && is_close(v, i) implies #[trigger] c.contains(i) by {
            if i < n - 1 {
                assert(b.contains(i));
                let k = choose|k: int| 0 <= k < b.len() && b[k] == i;
                assert(c[k] == i);
            } else {
                assert(c[b.len() as int] == i);
            }
        }
    }
}

/// Two launches that follow each other on one stream within five microseconds,
/// without overlapping, are a candidate, and no others are. The closest come
/// first, each once; five hundred at most are kept, and none that is left out is
/// closer than one that is kept.
pub proof fn close_launches_are_candidates(v: Seq<TimedLaunch>, i: int)
    requires
        0 <= i < v.len(),
    ensures
        ({
            let r = closest_first(v);
            let close = i + 1 < v.len() && 0 <= v[i + 1].start - (v[i].start + v[i].duration) < 5000
                && v[i + 1].stream == v[i].stream;
            &&& r.len() <= 500
            &&& r.no_duplicates()
            &&& r.contains(i) ==> close
            &&& close && r.len() < 500 ==> r.contains(i)
            &&& forall|k: int| 0 <= k < r.len() ==> 0 <= #[trigger] r[k] < v.len() - 1
            &&& forall|j: int, k: int|
                0 <= j < k < r.len() ==> gap_after(v, #[trigger] r[j]) <= gap_after(
                    v,
                    #[trigger] r[k],
                )
            &&& close && !r.contains(i) ==> forall|k: int|
                0 <= k < r.len() ==> gap_after(v, #[trigger] r[k]) <= gap_after(v, i)
        }),
{
    let n = v.len() as int;
    let c = close_pairs(v, n);
    let keys = Seq::new(c.len(), |i: int| gap_after(v, c[i]));
    order::there_is_an_order(keys);
    let p = order::order_of(keys);
    let all = groups::picked(c, p);
    let r = closest_first(v);
    close_pairs_are_close(v, n);
    assert forall|a: int, b: int| 0 <= a < r.len() && 0 <= b < r.len() && a != b implies r[a]
        != r[b] by {
        if a < b {
            assert(order::before(keys, p[a], p[b]));
        } else {
            assert(order::before(keys, p[b], p[a]));
        }
        if p[a] < p[b] {
            assert(c[p[a]] < c[p[b]]);
        } else {
            assert(c[p[b]] < c[p[a]]);
        }
    }
    assert forall|k: int| 0 <= k < r.len() implies 0 <= #[trigger] r[k] < v.len() - 1 && is_close(
        v,
        r[k],
    ) by {
        assert(r[k] == c[p[k]]);
    }
    assert forall|j: int, k: int| 0 <= j < k < r.len() implies gap_after(v, #[trigger] r[j])
        <= gap_after(v, #[trigger] r[k]) by {
        assert(order::before(keys, p[j], p[k]));
    }
    if is_close(v, i) {
        assert(c.contains(i));
        let a = choose|a: int| 0 <= a < c.len() && c[a] == i;
        assert(p.contains(a));
        let q = choose|q: int| 0 <= q < p.len() && p[q] == a;
        assert(all[q] == i);
        if q < r.len() {
            assert(r[q] == i);
        } else {
            assert forall|k: int| 0 <= k < r.len() implies gap_after(v, #[trigger] r[k])
                <= gap_after(v, i) by {
                assert(order::before(keys, p[k], p[q]));
            }
        }
    }
}

/// How often two kernels follow each other at the first `n` of these places.
pub open spec fn pair_count(
    names: Seq<Seq<char>>,
    at: Seq<int>,
    a: Seq<char>,
    b: Seq<char>,
    n: int,
) -> int
    decreases n,
{
    if n <= 0 {
        0
    } else {
        pair_count(names, at, a, b, n - 1) + (if names[at[n - 1]] == a && names[at[n - 1] + 1] == b {
            1int
        } else {
            0
        })
    }
}

/// How long the device waits between two kernels at the first `n` of these
/// places.
pub open spec fn pair_gap(
    names: Seq<Seq<char>>,
    v: Seq<TimedLaunch>,
    at: Seq<int>,
    a: Seq<char>,
    b: Seq<char>,
    n: int,
) -> int
    decreases n,
{
    if n <= 0 {
        0
    } else {
        pair_gap(names, v, at, a, b, n - 1) + (if names[at[n - 1]] == a && names[at[n - 1] + 1]
            == b {
            v[at[n - 1] + 1].start - (v[at[n - 1]].start + v[at[n - 1]].duration)
        } else {
            0
        })
    }
}

proof fn pair_from_is(t: Seq<PairTotalV>, a: Seq<char>, b: Seq<char>, k: int)
    requires
        0 <= k,
    ensures
        match pair_from(t, a, b, k) {
            Some(j) => k <= j < t.len() && t[j].first == a && t[j].second == b,
            None => forall|j: int|
                k <= j < t.len() ==> !((#[trigger] t[j]).first == a && t[j].second == b),
        },
    decreases t.len() - k,
{
    if k < t.len() && !(t[k].first == a && t[k].second == b) {
        pair_from_is(t, a, b, k + 1);
    }
}

proof fn pairs_are_counted(names: Seq<Seq<char>>, v: Seq<TimedLaunch>, at: Seq<int>, n: int)
    requires
        0 <= n <= at.len(),
    ensures
        ({
            let t = pair_totals(names, v, at, n);
            &&& forall|k: int|
                0 <= k < t.len() ==> (#[trigger] t[k]).count == pair_count(
                    names,
                    at,
                    t[k].first,
                    t[k].second,
                    n,
                ) && t[k].gap == pair_gap(names, v, at, t[k].first, t[k].second, n)
            &&& forall|j: int, k: int|
                0 <= j < k < t.len() ==> !((#[trigger] t[j]).first == (#[trigger] t[k]).first
                    && t[j].second == t[k].second)
            &&& forall|a: Seq<char>, b: Seq<char>|
                (forall|k: int|
                    0 <= k < t.len() ==> !((#[trigger] t[k]).first == a && t[k].second == b))
                    ==> #[trigger] pair_count(names, at, a, b, n) == 0 && pair_gap(
                    names,
                    v,
                    at,
                    a,
                    b,
                    n,
                ) == 0
        }),
    decreases n,
{
    if n > 0 {
        pairs_are_counted(names, v, at, n - 1);
        let s = pair_totals(names, v, at, n - 1);
        let t = pair_totals(names, v, at, n);
        let (a, b) = (names[at[n - 1]], names[at[n - 1] + 1]);
        pair_from_is(s, a, b, 0);
        assert forall|k: int| 0 <= k < t.len() implies (#[trigger] t[k]).count == pair_count(
            names,
            at,
            t[k].first,
            t[k].second,
            n,
        ) && t[k].gap == pair_gap(names, v, at, t[k].first, t[k].second, n) by {
            if k < s.len() {
                assert(s[k].count == pair_count(names, at, s[k].first, s[k].second, n - 1));
                assert(t[k].first == s[k].first && t[k].second == s[k].second);
                if let Some(h) = pair_from(s, a, b, 0) {
                    if k < h {
                        assert(!(s[k].first == s[h].first && s[k].second == s[h].second));
                    } else if h < k {
                        assert(!(s[h].first == s[k].first && s[h].second == s[k].second));
                    }
                }
            } else {
                assert(pair_count(names, at, a, b, n - 1) == 0);
            }
        }
        assert forall|j: int, k: int| 0 <= j < k < t.len() implies !((#[trigger] t[j]).first == (
        #[trigger] t[k]).first && t[j].second == t[k].second) by {
            if k < s.len() {
                assert(!(s[j].first == s[k].first && s[j].second == s[k].second));
            } else {
                assert(!(s[j].first == a && s[j].second == b));
            }
        }
        assert forall|x: Seq<char>, y: Seq<char>|
            (forall|k: int|
                0 <= k < t.len() ==> !((#[trigger] t[k]).first == x && t[k].second
                    == y)) implies #[trigger] pair_count(names, at, x, y, n) == 0 && pair_gap(
            names,
            v,
            at,
            x,
            y,
            n,
        ) == 0 by {
            assert forall|k: int| 0 <= k < s.len() implies !((#[trigger] s[k]).first == x
                && s[k].second == y) by {
                assert(t[k].first == s[k].first && t[k].second == s[k].second);
            }
            assert(pair_count(names, at, x, y, n - 1) == 0);
            let own = match pair_from(s, a, b, 0) {
                Some(h) => h,
                None => s.len() as int,
            };
            assert(t[own].first == a && t[own].second == b);
        }
    }
}

/// Each pair of kernels is listed once, with how often its two kernels follow
/// each other and how long the device waits between them in all; every candidate
/// is in one; and the most frequent come first.
pub proof fn pairs_are_listed_with_all_their_places(
    names: Seq<Seq<char>>,
    v: Seq<TimedLaunch>,
    at: Seq<int>,
)
    ensures
        ({
            let n = at.len() as int;
            let t = most_frequent(pair_totals(names, v, at, n));
            &&& forall|k: int|
                0 <= k < t.len() ==> (#[trigger] t[k]).count == pair_count(
                    names,
                    at,
                    t[k].first,
                    t[k].second,
                    n,
                ) && t[k].gap == pair_gap(names, v, at, t[k].first, t[k].second, n)
            &&& forall|j: int, k: int|
                0 <= j < k < t.len() ==> (#[trigger] t[j]).count >= (#[trigger] t[k]).count && !(
                t[j].first == t[k].first && t[j].second == t[k].second)
            &&& forall|i: int|
                0 <= i < n ==> exists|k: int|
                    0 <= k < t.len() && (#[trigger] t[k]).first == names[#[trigger] at[i]]
                        && t[k].second == names[at[i] + 1]
        }),
{
    let n = at.len() as int;
    let s = pair_totals(names, v, at, n);
    let keys = Seq::new(s.len(), |i: int| -s[i].count);
    order::there_is_an_order(keys);
    let p = order::order_of(keys);
    let t = most_frequent(s);
    pairs_are_counted(names, v, at, n);
    assert forall|k: int| 0 <= k < t.len() implies (#[trigger] t[k]).count == pair_count(
        names,
        at,
        t[k].first,
        t[k].second,
        n,
    ) && t[k].gap == pair_gap(names, v, at, t[k].first, t[k].second, n) by {
        assert(t[k] == s[p[k]]);
    }
    assert forall|j: int, k: int| 0 <= j < k < t.len() implies (#[trigger] t[j]).count >= (
    #[trigger] t[k]).count && !(t[j].first == t[k].first && t[j].second == t[k].second) by {
        assert(order::before(keys, p[j], p[k]));
        let (x, y) = (p[j], p[k]);
        assert(t[j] == s[x] && t[k] == s[y]);
        if x < y {
            assert(!(s[x].first == s[y].first && s[x].second == s[y].second));
        } else {
            assert(!(s[y].first == s[x].first && s[y].second == s[x].second));
        }
    }
    assert forall|i: int| 0 <= i < n implies exists|k: int|
        0 <= k < t.len() && (#[trigger] t[k]).first == names[#[trigger] at[i]] && t[k].second
            == names[at[i] + 1] by {
        let (a, b) = (names[at[i]], names[at[i] + 1]);
        pair_is_met(names, at, i, n);
        let h = choose|h: int| 0 <= h < s.len() && (#[trigger] s[h]).first == a && s[h].second == b;
        assert(p.contains(h));
        let k = choose|k: int| 0 <= k < p.len() && p[k] == h;
        assert(t[k].first == a && t[k].second == b);
    }
}

proof fn pair_is_met(names: Seq<Seq<char>>, at: Seq<int>, i: int, n: int)
    requires
        0 <= i,
        0 <= n,
    ensures
        pair_count(names, at, names[at[i]], names[at[i] + 1], n) >= 0,
        i < n ==> pair_count(names, at, names[at[i]], names[at[i] + 1], n) > 0,
    decreases n,
{
    if n > 0 {
        pair_is_met(names, at, i, n - 1);
    }
}

} // verus!
