//! The recordings of Nsight Systems: which tables are read, and what their rows
//! stand for. Times are integers of nanoseconds.

use vstd::prelude::*;

use crate::intervals::Span;
use crate::text;
use crate::text::{extend_str, join_strings, string_of};

verus! {

/// The first table at or after `k` that is there.
pub open spec fn table_from(there: Seq<bool>, n: int, k: int) -> Option<int>
    decreases n - k,
{
    if k < 0 || k >= n || k >= there.len() {
        None
    } else if there[k] {
        Some(k)
    } else {
        table_from(there, n, k + 1)
    }
}

/// Why no table is read.
pub open spec fn no_table_text(candidates: Seq<Seq<char>>) -> Seq<char> {
    "no matching table (tried: "@ + text::join(candidates, ", "@) + ")"@
}

/// The first of the candidates that the recording holds. `there` says of each
/// whether it does.
pub fn find_table(candidates: &[String], there: &[bool]) -> (r: Result<String, String>)
    requires
        candidates@.len() == there@.len(),
    ensures
        ({
            let found = table_from(there@, candidates@.len() as int, 0);
            match r {
                Ok(name) => found is Some && name@ == candidates@[found->0]@,
                Err(e) => found is None && e@ == no_table_text(text::texts(candidates@)),
            }
        }),
{
    let mut k: usize = 0;
    while k < candidates.len()
        invariant
            k <= candidates@.len(),
            candidates@.len() == there@.len(),
            table_from(there@, candidates@.len() as int, 0) == table_from(
                there@,
                candidates@.len() as int,
                k as int,
            ),
        decreases candidates@.len() - k,
    {
        if there[k] {
            return Ok(candidates[k].clone());
        }
        k = k + 1;
    }
    let mut out: Vec<char> = Vec::new();
    extend_str(&mut out, "no matching table (tried: ");
    extend_str(&mut out, join_strings(candidates, ", ").as_str());
    extend_str(&mut out, ")");
    assert(out@ =~= no_table_text(text::texts(candidates@)));
    Err(string_of(&out))
}

/// What a recording is read for.
#[derive(Debug, Clone, Copy, PartialEq, Eq, Structural)]
pub enum Wanted {
    Kernels,
    Transfers,
    Regions,
    Device,
    RuntimeCalls,
    RuntimeNames,
}

/// The tables that may hold it, in the order in which they are tried.
pub fn candidates(what: Wanted) -> (r: Vec<String>)
    ensures
        text::texts(r@) == match what {
            Wanted::Kernels => seq![
                "CUPTI_ACTIVITY_KIND_KERNEL"@,
                "CUPTI_ACTIVITY_KIND_CONCURRENT_KERNEL"@,
            ],
            Wanted::Transfers => seq!["CUPTI_ACTIVITY_KIND_MEMCPY"@],
            Wanted::Regions => seq!["NVTX_EVENTS"@],
            Wanted::Device => seq!["TARGET_INFO_CUDA_GPU"@, "TARGET_INFO_GPU"@],
            Wanted::RuntimeCalls => seq!["CUPTI_ACTIVITY_KIND_RUNTIME"@],
            Wanted::RuntimeNames => seq!["StringIds"@],
        },
{
    let mut out: Vec<String> = Vec::new();
    match what {
        Wanted::Kernels => {
            out.push("CUPTI_ACTIVITY_KIND_KERNEL".to_owned());
            out.push("CUPTI_ACTIVITY_KIND_CONCURRENT_KERNEL".to_owned());
            assert(text::texts(out@) =~= seq![
                "CUPTI_ACTIVITY_KIND_KERNEL"@,
                "CUPTI_ACTIVITY_KIND_CONCURRENT_KERNEL"@,
            ]);
        },
        Wanted::Transfers => {
            out.push("CUPTI_ACTIVITY_KIND_MEMCPY".to_owned());
            assert(text::texts(out@) =~= seq!["CUPTI_ACTIVITY_KIND_MEMCPY"@]);
        },
        Wanted::Regions => {
            out.push("NVTX_EVENTS".to_owned());
            assert(text::texts(out@) =~= seq!["NVTX_EVENTS"@]);
        },
        Wanted::Device => {
            out.push("TARGET_INFO_CUDA_GPU".to_owned());
            out.push("TARGET_INFO_GPU".to_owned());
            assert(text::texts(out@) =~= seq!["TARGET_INFO_CUDA_GPU"@, "TARGET_INFO_GPU"@]);
        },
        Wanted::RuntimeCalls => {
            out.push("CUPTI_ACTIVITY_KIND_RUNTIME".to_owned());
            assert(text::texts(out@) =~= seq!["CUPTI_ACTIVITY_KIND_RUNTIME"@]);
        },
        Wanted::RuntimeNames => {
            out.push("StringIds".to_owned());
            assert(text::texts(out@) =~= seq!["StringIds"@]);
        },
    }
    out
}

/// Whether the calls of the runtime stand in for the kernels: only where the
/// recording has no kernels, and has the calls and their names.
pub fn runtime_stands_in(has_kernels: bool, has_calls: bool, has_names: bool) -> (r: bool)
    ensures
        r == (!has_kernels && has_calls && has_names),
{
    !has_kernels && has_calls && has_names
}

/// The name under which a copy's kind is kept.
pub fn copy_kind(kind: i32) -> (r: &'static str)
    ensures
        r@ == if kind == 1 {
            "H2D"@
        } else if kind == 2 {
            "D2H"@
        } else if kind == 3 {
            "D2D"@
        } else {
            "Peer"@
        },
{
    if kind == 1 {
        "H2D"
    } else if kind == 2 {
        "D2H"
    } else if kind == 3 {
        "D2D"
    } else {
        "Peer"
    }
}

/// How long something took.
pub fn duration(start: i64, end: i64) -> (r: i64)
    requires
        i64::MIN <= end - start <= i64::MAX,
    ensures
        r == end - start,
{
    end - start
}

/// `t` is the time from the first start to the last end.
pub open spec fn is_wall_time(spans: Seq<Span>, t: int) -> bool {
    if spans.len() == 0 {
        t == 0
    } else {
        exists|first: int, last: int|
            {
                &&& 0 <= first < spans.len()
                &&& 0 <= last < spans.len()
                &&& forall|i: int|
                    0 <= i < spans.len() ==> spans[first].start <= (#[trigger] spans[i]).start
                        && spans[i].start + spans[i].duration <= spans[last].start
                        + spans[last].duration
                &&& t == #[trigger] spans[last].start + spans[last].duration - #[trigger] spans[first].start
            }
    }
}

/// The time that the launches span.
pub fn wall_time(spans: &[Span]) -> (r: i128)
    ensures
        is_wall_time(spans@, r as int),
{
    if spans.len() == 0 {
        return 0;
    }
    let mut first: usize = 0;
    let mut last: usize = 0;
    let mut i: usize = 1;
    while i < spans.len()
        invariant
            1 <= i <= spans@.len(),
            first < i,
            last < i,
            forall|k: int|
                0 <= k < i ==> spans@[first as int].start <= (#[trigger] spans@[k]).start
                    && spans@[k].start + spans@[k].duration <= spans@[last as int].start
                    + spans@[last as int].duration,
        decreases spans@.len() - i,
    {
        if spans[i].start < spans[first].start {
            first = i;
        }
        if spans[i].start as i128 + spans[i].duration as i128 > spans[last].start as i128
            + spans[last].duration as i128 {
            last = i;
        }
        i = i + 1;
    }
    spans[last].start as i128 + spans[last].duration as i128 - spans[first].start as i128
}

/// There is one time that the launches span.
pub proof fn wall_time_is_one(spans: Seq<Span>, s: int, t: int)
    requires
        is_wall_time(spans, s),
        is_wall_time(spans, t),
    ensures
        s == t,
{
}

/// The first candidate that is there is found, whatever stands behind it; none
/// is found where none is there.
pub proof fn the_first_table_is_read(there: Seq<bool>, k: int)
    requires
        0 <= k <= there.len(),
        forall|i: int| 0 <= i < k ==> !#[trigger] there[i],
        k < there.len() ==> there[k],
    ensures
        table_from(there, there.len() as int, 0) == if k < there.len() {
            Some(k)
        } else {
            None
        },
{
    first_table_from(there, 0, k);
}

proof fn first_table_from(there: Seq<bool>, i: int, k: int)
    requires
        0 <= i <= k <= there.len(),
        forall|j: int| i <= j < k ==> !#[trigger] there[j],
        k < there.len() ==> there[k],
    ensures
        table_from(there, there.len() as int, i) == if k < there.len() {
            Some(k)
        } else {
            None
        },
    decreases k - i,
{
    if i < k {
        first_table_from(there, i + 1, k);
    }
}

/// Where no table is read, every one that was tried is named.
pub proof fn every_table_that_was_tried_is_named(candidates: Seq<Seq<char>>, k: int)
    requires
        0 <= k < candidates.len(),
    ensures
        text::contains(no_table_text(candidates), candidates[k]),
        text::starts_with(no_table_text(candidates), "no matching table (tried: "@),
{
    let j = text::join(candidates, ", "@);
    text::join_holds_each_part(candidates, ", "@, k);
    text::what_is_found_stands_there(j, candidates[k]);
    let (a, b) = choose|a: Seq<char>, b: Seq<char>| j == #[trigger] (a + candidates[k] + b);
    let t = no_table_text(candidates);
    let before = "no matching table (tried: "@;
    assert(t == (before + a) + candidates[k] + (b + ")"@));
    text::what_is_found_stands_there(t, candidates[k]);
    assert(t.subrange(0, before.len() as int) == before);
}

/// From the start of any launch to the end of any other it is no longer than
/// the time that the launches span. One launch spans what it takes.
pub proof fn the_wall_time_reaches_from_first_to_last(spans: Seq<Span>, t: int, i: int, j: int)
    requires
        is_wall_time(spans, t),
        0 <= i < spans.len(),
        0 <= j < spans.len(),
    ensures
        spans[j].start + spans[j].duration - spans[i].start <= t,
        spans.len() == 1 ==> t == spans[0].duration,
{
}

} // verus!
