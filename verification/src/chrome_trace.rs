//! The events of a trace that the framework's profiler writes.

use vstd::prelude::*;

use crate::json;
use crate::json::{json_text, Json, JsonV};
use crate::number;
use crate::number::{is_at_most, is_finite, is_less};
use crate::text;
use crate::text::{
    chars_of, decimal_chars, extend_chars, extend_str, same_text, string_of, trim_chars,
};

verus! {

/// How many events a trace may hold.
pub const MAX_TRACE_EVENTS: usize = 1_000_000;

/// An event as it stands in the trace. Times are the bits of numbers of
/// microseconds.
#[derive(Debug)]
pub struct TraceEvent {
    pub name: String,
    pub cat: String,
    pub ph: String,
    pub ts: Option<u64>,
    pub dur: Option<u64>,
    /// The rounded sum of `ts` and `dur`, where both are there.
    pub end: u64,
    /// The rounded difference of `end` and `ts`, where both are there.
    pub window: u64,
    pub args: Option<Json>,
}

/// What is wrong with a field.
#[derive(Debug, Clone, Copy, PartialEq, Eq, Structural)]
pub enum Fault {
    NotAnArray,
    NotThree,
    NotAnInteger,
    ExceedsU32,
    ExceedsI64,
}

/// Why a trace is refused.
#[derive(Debug)]
pub enum TraceError {
    EmptyName,
    ArgsNotObject,
    Field(String, Fault),
    MissingTs,
    MissingDur,
    /// The bits of the two times.
    InvalidTiming(u64, u64),
    EndOverflows,
    NothingSupported,
    TooManyEvents(usize),
}

#[verifier::ext_equal]
pub enum TraceErrorV {
    EmptyName,
    ArgsNotObject,
    Field(Seq<char>, Fault),
    MissingTs,
    MissingDur,
    InvalidTiming(u64, u64),
    EndOverflows,
    NothingSupported,
    TooManyEvents(usize),
}

impl View for TraceError {
    type V = TraceErrorV;

    open spec fn view(&self) -> TraceErrorV {
        match self {
            TraceError::EmptyName => TraceErrorV::EmptyName,
            TraceError::ArgsNotObject => TraceErrorV::ArgsNotObject,
            TraceError::Field(key, fault) => TraceErrorV::Field(key@, *fault),
            TraceError::MissingTs => TraceErrorV::MissingTs,
            TraceError::MissingDur => TraceErrorV::MissingDur,
            TraceError::InvalidTiming(ts, dur) => TraceErrorV::InvalidTiming(*ts, *dur),
            TraceError::EndOverflows => TraceErrorV::EndOverflows,
            TraceError::NothingSupported => TraceErrorV::NothingSupported,
            TraceError::TooManyEvents(n) => TraceErrorV::TooManyEvents(*n),
        }
    }
}

pub open spec fn fault_text(fault: Fault) -> Seq<char> {
    match fault {
        Fault::NotAnArray => " must be an array"@,
        Fault::NotThree => " must contain three integers"@,
        Fault::NotAnInteger => " must be a non-negative integer"@,
        Fault::ExceedsU32 => " exceeds u32::MAX"@,
        Fault::ExceedsI64 => " exceeds SQLite integer range"@,
    }
}

/// What is shown of an error. An invalid timing is shown without its values.
pub open spec fn error_text(e: TraceErrorV) -> Seq<char> {
    match e {
        TraceErrorV::EmptyName => "Chrome trace supported event has an empty name"@,
        TraceErrorV::ArgsNotObject => "Chrome trace event args must be an object"@,
        TraceErrorV::Field(key, fault) => "Chrome trace field "@ + key + fault_text(fault),
        TraceErrorV::MissingTs => "Chrome trace event is missing ts"@,
        TraceErrorV::MissingDur => "Chrome trace event is missing dur"@,
        TraceErrorV::InvalidTiming(_, _) => "Chrome trace event has invalid timing"@,
        TraceErrorV::EndOverflows => "Chrome trace event timing overflows its end timestamp"@,
        TraceErrorV::NothingSupported => "Chrome trace contains no supported complete events"@,
        TraceErrorV::TooManyEvents(n) => "Chrome trace contains "@ + text::decimal(n as nat)
            + " events; maximum is 1000000"@,
    }
}

impl TraceError {
    pub fn message(&self) -> (r: String)
        ensures
            r@ == error_text(self@),
    {
        match self {
            TraceError::EmptyName => "Chrome trace supported event has an empty name".to_owned(),
            TraceError::ArgsNotObject => "Chrome trace event args must be an object".to_owned(),
            TraceError::Field(key, fault) => {
                let mut out: Vec<char> = Vec::new();
                extend_str(&mut out, "Chrome trace field ");
                extend_str(&mut out, key.as_str());
                extend_str(
                    &mut out,
                    match fault {
                        Fault::NotAnArray => " must be an array",
                        Fault::NotThree => " must contain three integers",
                        Fault::NotAnInteger => " must be a non-negative integer",
                        Fault::ExceedsU32 => " exceeds u32::MAX",
                        Fault::ExceedsI64 => " exceeds SQLite integer range",
                    },
                );
                assert(out@ =~= "Chrome trace field "@ + key@ + fault_text(*fault));
                string_of(&out)
            },
            TraceError::MissingTs => "Chrome trace event is missing ts".to_owned(),
            TraceError::MissingDur => "Chrome trace event is missing dur".to_owned(),
            TraceError::InvalidTiming(_, _) => "Chrome trace event has invalid timing".to_owned(),
            TraceError::EndOverflows => "Chrome trace event timing overflows its end timestamp".to_owned(),
            TraceError::NothingSupported => "Chrome trace contains no supported complete events".to_owned(),
            TraceError::TooManyEvents(n) => {
                let mut out: Vec<char> = Vec::new();
                extend_str(&mut out, "Chrome trace contains ");
                extend_chars(&mut out, &decimal_chars(*n as u64));
                extend_str(&mut out, " events; maximum is 1000000");
                assert(out@ =~= "Chrome trace contains "@ + text::decimal(*n as nat)
                    + " events; maximum is 1000000"@);
                string_of(&out)
            },
        }
    }
}

// ---------------------------------------------------------------------------
// Fields
// ---------------------------------------------------------------------------

/// An integer up to a limit.
pub open spec fn integer_field(v: JsonV, key: Seq<char>, max: int, over: Fault) -> Result<
    int,
    TraceErrorV,
> {
    match json::u64_of(Some(v)) {
        Some(n) => if n <= max {
            Ok(n)
        } else {
            Err(TraceErrorV::Field(key, over))
        },
        None => Err(TraceErrorV::Field(key, Fault::NotAnInteger)),
    }
}

pub fn parse_u32(value: &Json, key: &str) -> (r: Result<u32, TraceError>)
    ensures
        match r {
            Ok(n) => integer_field(value.view(), key@, u32::MAX as int, Fault::ExceedsU32) == Ok::<
                int,
                TraceErrorV,
            >(n as int),
            Err(e) => integer_field(value.view(), key@, u32::MAX as int, Fault::ExceedsU32)
                == Err::<int, TraceErrorV>(e@),
        },
{
    match value.as_u64() {
        Some(n) => if n <= u32::MAX as u64 {
            Ok(n as u32)
        } else {
            Err(TraceError::Field(key.to_owned(), Fault::ExceedsU32))
        },
        None => Err(TraceError::Field(key.to_owned(), Fault::NotAnInteger)),
    }
}

pub fn parse_i64(value: &Json, key: &str) -> (r: Result<i64, TraceError>)
    ensures
        match r {
            Ok(n) => integer_field(value.view(), key@, i64::MAX as int, Fault::ExceedsI64) == Ok::<
                int,
                TraceErrorV,
            >(n as int),
            Err(e) => integer_field(value.view(), key@, i64::MAX as int, Fault::ExceedsI64)
                == Err::<int, TraceErrorV>(e@),
        },
{
    match value.as_u64() {
        Some(n) => if n <= i64::MAX as u64 {
            Ok(n as i64)
        } else {
            Err(TraceError::Field(key.to_owned(), Fault::ExceedsI64))
        },
        None => Err(TraceError::Field(key.to_owned(), Fault::NotAnInteger)),
    }
}

/// Three dimensions, or the first fault in them.
pub open spec fn three(
    x: Result<int, TraceErrorV>,
    y: Result<int, TraceErrorV>,
    z: Result<int, TraceErrorV>,
) -> Result<Option<(int, int, int)>, TraceErrorV> {
    match (x, y, z) {
        (Err(e), _, _) => Err(e),
        (Ok(_), Err(e), _) => Err(e),
        (Ok(_), Ok(_), Err(e)) => Err(e),
        (Ok(a), Ok(b), Ok(c)) => Ok(Some((a, b, c))),
    }
}

pub open spec fn dim_field(v: JsonV, key: Seq<char>) -> Result<int, TraceErrorV> {
    integer_field(v, key, u32::MAX as int, Fault::ExceedsU32)
}

/// The three dimensions of a grid or a block: an array under one key, or else
/// three fields.
pub open spec fn tuple_field(
    args: Option<JsonV>,
    array_key: Seq<char>,
    x_key: Seq<char>,
    y_key: Seq<char>,
    z_key: Seq<char>,
) -> Result<Option<(int, int, int)>, TraceErrorV> {
    match args {
        None => Ok(None),
        Some(args) => match json::field(args, array_key) {
            Some(value) => match json::array_of(Some(value)) {
                None => Err(TraceErrorV::Field(array_key, Fault::NotAnArray)),
                Some(items) => if items.len() < 3 {
                    Err(TraceErrorV::Field(array_key, Fault::NotThree))
                } else {
                    three(
                        dim_field(items[0], array_key + "[0]"@),
                        dim_field(items[1], array_key + "[1]"@),
                        dim_field(items[2], array_key + "[2]"@),
                    )
                },
            },
            None => match (
                json::field(args, x_key),
                json::field(args, y_key),
                json::field(args, z_key),
            ) {
                (Some(x), Some(y), Some(z)) => three(
                    dim_field(x, x_key),
                    dim_field(y, y_key),
                    dim_field(z, z_key),
                ),
                _ => Ok(None),
            },
        },
    }
}

pub open spec fn args_view(args: Option<Json>) -> Option<JsonV> {
    match args {
        Some(j) => Some(j.view()),
        None => None,
    }
}

/// What a result holds, over the views of its parts.
pub open spec fn tuple_view(r: Result<Option<(u32, u32, u32)>, TraceError>) -> Result<
    Option<(int, int, int)>,
    TraceErrorV,
> {
    match r {
        Ok(Some(t)) => Ok(Some((t.0 as int, t.1 as int, t.2 as int))),
        Ok(None) => Ok(None),
        Err(e) => Err(e@),
    }
}

fn indexed(key: &str, suffix: &str) -> (r: String)
    ensures
        r@ == key@ + suffix@,
{
    let mut out: Vec<char> = Vec::new();
    extend_str(&mut out, key);
    extend_str(&mut out, suffix);
    assert(out@ =~= key@ + suffix@);
    string_of(&out)
}

fn parse_three(x: &Json, x_key: &str, y: &Json, y_key: &str, z: &Json, z_key: &str) -> (r: Result<
    Option<(u32, u32, u32)>,
    TraceError,
>)
    ensures
        tuple_view(r) == three(
            dim_field(x.view(), x_key@),
            dim_field(y.view(), y_key@),
            dim_field(z.view(), z_key@),
        ),
{
    match parse_u32(x, x_key) {
        Ok(a) => match parse_u32(y, y_key) {
            Ok(b) => match parse_u32(z, z_key) {
                Ok(c) => Ok(Some((a, b, c))),
                Err(e) => Err(e),
            },
            Err(e) => Err(e),
        },
        Err(e) => Err(e),
    }
}

pub fn extract_tuple(
    args: &Option<Json>,
    array_key: &str,
    x_key: &str,
    y_key: &str,
    z_key: &str,
) -> (r: Result<Option<(u32, u32, u32)>, TraceError>)
    ensures
        tuple_view(r) == tuple_field(args_view(*args), array_key@, x_key@, y_key@, z_key@),
{
    let args = match args {
        Some(a) => a,
        None => {
            return Ok(None);
        },
    };
    if let Some(value) = args.get(array_key) {
        let items = match value.as_array() {
            Some(items) => items,
            None => {
                return Err(TraceError::Field(array_key.to_owned(), Fault::NotAnArray));
            },
        };
        proof {
            json::item_views_are_views(items@);
        }
        if items.len() < 3 {
            return Err(TraceError::Field(array_key.to_owned(), Fault::NotThree));
        }
        return parse_three(
            &items[0],
            indexed(array_key, "[0]").as_str(),
            &items[1],
            indexed(array_key, "[1]").as_str(),
            &items[2],
            indexed(array_key, "[2]").as_str(),
        );
    }
    match (args.get(x_key), args.get(y_key), args.get(z_key)) {
        (Some(x), Some(y), Some(z)) => parse_three(x, x_key, y, y_key, z, z_key),
        _ => Ok(None),
    }
}

// ---------------------------------------------------------------------------
// Validation
// ---------------------------------------------------------------------------

pub open spec fn is_op_category(cat: Seq<char>) -> bool {
    cat == "cpu_op"@ || cat == "user_annotation"@ || cat == "Operator"@
}

/// A complete event of a kind that is kept. Others may lack their times.
pub open spec fn is_supported(e: TraceEvent) -> bool {
    e.ph@ == "X"@ && (e.cat@ == "kernel"@ || is_op_category(e.cat@))
}

fn op_category(cat: &str) -> (r: bool)
    ensures
        r == is_op_category(cat@),
{
    same_text(cat, "cpu_op") || same_text(cat, "user_annotation") || same_text(cat, "Operator")
}

/// The times of an event, or which of them is missing.
pub open spec fn timing(e: TraceEvent) -> Result<(u64, u64), TraceErrorV> {
    match (e.ts, e.dur) {
        (None, _) => Err(TraceErrorV::MissingTs),
        (Some(_), None) => Err(TraceErrorV::MissingDur),
        (Some(ts), Some(dur)) => Ok((ts, dur)),
    }
}

pub fn event_timing(e: &TraceEvent) -> (r: Result<(u64, u64), TraceError>)
    ensures
        match r {
            Ok(t) => timing(*e) == Ok::<(u64, u64), TraceErrorV>(t),
            Err(err) => timing(*e) == Err::<(u64, u64), TraceErrorV>(err@),
        },
{
    match e.ts {
        None => Err(TraceError::MissingTs),
        Some(ts) => match e.dur {
            None => Err(TraceError::MissingDur),
            Some(dur) => Ok((ts, dur)),
        },
    }
}

pub open spec fn grid_of(e: TraceEvent) -> Result<Option<(int, int, int)>, TraceErrorV> {
    tuple_field(args_view(e.args), "grid"@, "grid_x"@, "grid_y"@, "grid_z"@)
}

pub open spec fn block_of(e: TraceEvent) -> Result<Option<(int, int, int)>, TraceErrorV> {
    tuple_field(args_view(e.args), "block"@, "block_x"@, "block_y"@, "block_z"@)
}

/// What is wrong with an event that is kept: its name, its arguments, the
/// dimensions of a kernel, its times, in this order.
pub open spec fn event_fault(e: TraceEvent) -> Option<TraceErrorV> {
    if text::trim(e.name@).len() == 0 {
        Some(TraceErrorV::EmptyName)
    } else if e.args matches Some(a) && !(a.view() is Object) {
        Some(TraceErrorV::ArgsNotObject)
    } else if e.cat@ == "kernel"@ && grid_of(e) is Err {
        Some(grid_of(e)->Err_0)
    } else if e.cat@ == "kernel"@ && block_of(e) is Err {
        Some(block_of(e)->Err_0)
    } else {
        match timing(e) {
            Err(err) => Some(err),
            Ok((ts, dur)) => if !number::finite(ts) || number::units(ts) < 0 || !number::finite(
                dur,
            ) || number::units(dur) < 0 {
                Some(TraceErrorV::InvalidTiming(ts, dur))
            } else if !number::finite(e.end) {
                Some(TraceErrorV::EndOverflows)
            } else {
                None
            },
        }
    }
}

fn check_event(e: &TraceEvent) -> (r: Option<TraceError>)
    ensures
        match r {
            Some(err) => event_fault(*e) == Some(err@),
            None => event_fault(*e) is None,
        },
{
    if trim_chars(&chars_of(e.name.as_str())).len() == 0 {
        return Some(TraceError::EmptyName);
    }
    if let Some(a) = &e.args {
        match a {
            Json::Object(_) => {},
            _ => {
                return Some(TraceError::ArgsNotObject);
            },
        }
    }
    if same_text(e.cat.as_str(), "kernel") {
        if let Err(err) = extract_tuple(&e.args, "grid", "grid_x", "grid_y", "grid_z") {
            return Some(err);
        }
        if let Err(err) = extract_tuple(&e.args, "block", "block_x", "block_y", "block_z") {
            return Some(err);
        }
    }
    match event_timing(e) {
        Err(err) => Some(err),
        Ok((ts, dur)) => {
            proof {
                number::zero_is_zero();
            }
            if !is_finite(ts) || is_less(ts, 0) || !is_finite(dur) || is_less(dur, 0) {
                Some(TraceError::InvalidTiming(ts, dur))
            } else if !is_finite(e.end) {
                Some(TraceError::EndOverflows)
            } else {
                None
            }
        },
    }
}

/// The first fault among the first `n` events.
pub open spec fn first_fault(events: Seq<TraceEvent>, n: int) -> Option<TraceErrorV>
    decreases n,
{
    if n <= 0 || n > events.len() {
        None
    } else {
        match first_fault(events, n - 1) {
            Some(e) => Some(e),
            None => if is_supported(events[n - 1]) {
                event_fault(events[n - 1])
            } else {
                None
            },
        }
    }
}

/// What is wrong with a trace: too many events, an event that is kept and is
/// not valid, or none to keep.
pub open spec fn trace_fault(events: Seq<TraceEvent>) -> Option<TraceErrorV> {
    if events.len() > MAX_TRACE_EVENTS {
        Some(TraceErrorV::TooManyEvents(events.len() as usize))
    } else {
        match first_fault(events, events.len() as int) {
            Some(e) => Some(e),
            None => if forall|i: int|
                0 <= i < events.len() ==> !is_supported(#[trigger] events[i]) {
                Some(TraceErrorV::NothingSupported)
            } else {
                None
            },
        }
    }
}

proof fn a_fault_stays(events: Seq<TraceEvent>, n: int, m: int)
    requires
        0 <= n <= m <= events.len(),
        first_fault(events, n) is Some,
    ensures
        first_fault(events, m) == first_fault(events, n),
    decreases m - n,
{
    if n < m {
        a_fault_stays(events, n, m - 1);
    }
}

/// Checks the events that are kept, so that no missing time becomes a zero.
pub fn validate_supported_events(events: &[TraceEvent]) -> (r: Result<(), TraceError>)
    ensures
        match r {
            Ok(_) => trace_fault(events@) is None,
            Err(e) => trace_fault(events@) == Some(e@),
        },
{
    let n: usize = events.len();
    if n > MAX_TRACE_EVENTS {
        return Err(TraceError::TooManyEvents(n));
    }
    let mut supported: bool = false;
    let mut i: usize = 0;
    while i < n
        invariant
            i <= n,
            n == events@.len(),
            n <= MAX_TRACE_EVENTS,
            first_fault(events@, i as int) is None,
            supported == exists|k: int| 0 <= k < i && is_supported(#[trigger] events@[k]),
        decreases n - i,
    {
        let e = &events[i];
        if same_text(e.ph.as_str(), "X") && (same_text(e.cat.as_str(), "kernel") || op_category(
            e.cat.as_str(),
        )) {
            assert(is_supported(events@[i as int]));
            if let Some(err) = check_event(e) {
                proof {
                    a_fault_stays(events@, i + 1, n as int);
                }
                return Err(err);
            }
            supported = true;
        } else {
            assert(!is_supported(events@[i as int]));
        }
        i = i + 1;
    }
    if supported {
        Ok(())
    } else {
        Err(TraceError::NothingSupported)
    }
}

/// Every event that is kept from a trace that was accepted has both its times,
/// and neither is negative.
pub proof fn kept_events_have_times(events: Seq<TraceEvent>, i: int)
    requires
        trace_fault(events) is None,
        0 <= i < events.len(),
        is_supported(events[i]),
    ensures
        timing(events[i]) is Ok,
        number::units(timing(events[i])->Ok_0.0) >= 0,
        number::units(timing(events[i])->Ok_0.1) >= 0,
        number::finite(events[i].end),
{
    if first_fault(events, i + 1) is Some {
        a_fault_stays(events, i + 1, events.len() as int);
    }
    if first_fault(events, i) is Some {
        a_fault_stays(events, i, events.len() as int);
    }
}

// ---------------------------------------------------------------------------
// Kernels
// ---------------------------------------------------------------------------

/// A launch as the trace has it.
#[derive(Debug)]
pub struct TracedLaunch {
    pub duration: u64,
    pub start: u64,
    pub grid: Option<(u32, u32, u32)>,
    pub block: Option<(u32, u32, u32)>,
    pub stream: Option<u32>,
    pub correlation: Option<i64>,
}

/// A field under its first name, or else under its second one.
pub open spec fn either_field(
    args: Option<JsonV>,
    key: Seq<char>,
    other: Seq<char>,
    max: int,
    over: Fault,
) -> Result<Option<int>, TraceErrorV> {
    match args {
        None => Ok(None),
        Some(a) => match json::field(a, key) {
            Some(v) => match integer_field(v, key, max, over) {
                Ok(n) => Ok(Some(n)),
                Err(e) => Err(e),
            },
            None => match json::field(a, other) {
                Some(v) => match integer_field(v, other, max, over) {
                    Ok(n) => Ok(Some(n)),
                    Err(e) => Err(e),
                },
                None => Ok(None),
            },
        },
    }
}

pub open spec fn stream_of(e: TraceEvent) -> Result<Option<int>, TraceErrorV> {
    either_field(
        args_view(e.args),
        "stream"@,
        "stream_id"@,
        u32::MAX as int,
        Fault::ExceedsU32,
    )
}

pub open spec fn correlation_of(e: TraceEvent) -> Result<Option<int>, TraceErrorV> {
    either_field(
        args_view(e.args),
        "correlation"@,
        "external id"@,
        i64::MAX as int,
        Fault::ExceedsI64,
    )
}

fn value_for<'a>(args: &'a Option<Json>, key: &str) -> (r: Option<&'a Json>)
    ensures
        json::opt_view(r) == match args_view(*args) {
            Some(a) => json::field(a, key@),
            None => None,
        },
{
    match args {
        Some(a) => a.get(key),
        None => None,
    }
}

fn read_stream(args: &Option<Json>) -> (r: Result<Option<u32>, TraceError>)
    ensures
        ({
            let want = either_field(
                args_view(*args),
                "stream"@,
                "stream_id"@,
                u32::MAX as int,
                Fault::ExceedsU32,
            );
            match r {
                Ok(Some(n)) => want == Ok::<Option<int>, TraceErrorV>(Some(n as int)),
                Ok(None) => want == Ok::<Option<int>, TraceErrorV>(None),
                Err(e) => want == Err::<Option<int>, TraceErrorV>(e@),
            }
        }),
{
    let found = match value_for(args, "stream") {
        Some(v) => parse_u32(v, "stream"),
        None => match value_for(args, "stream_id") {
            Some(v) => parse_u32(v, "stream_id"),
            None => {
                return Ok(None);
            },
        },
    };
    match found {
        Ok(n) => Ok(Some(n)),
        Err(e) => Err(e),
    }
}

fn read_correlation(args: &Option<Json>) -> (r: Result<Option<i64>, TraceError>)
    ensures
        ({
            let want = either_field(
                args_view(*args),
                "correlation"@,
                "external id"@,
                i64::MAX as int,
                Fault::ExceedsI64,
            );
            match r {
                Ok(Some(n)) => want == Ok::<Option<int>, TraceErrorV>(Some(n as int)),
                Ok(None) => want == Ok::<Option<int>, TraceErrorV>(None),
                Err(e) => want == Err::<Option<int>, TraceErrorV>(e@),
            }
        }),
{
    let found = match value_for(args, "correlation") {
        Some(v) => parse_i64(v, "correlation"),
        None => match value_for(args, "external id") {
            Some(v) => parse_i64(v, "external id"),
            None => {
                return Ok(None);
            },
        },
    };
    match found {
        Ok(n) => Ok(Some(n)),
        Err(e) => Err(e),
    }
}

/// The first fault of a kernel event: its times, its grid, its block, its
/// stream, its correlation.
pub open spec fn launch_fault(e: TraceEvent) -> Option<TraceErrorV> {
    if timing(e) is Err {
        Some(timing(e)->Err_0)
    } else if grid_of(e) is Err {
        Some(grid_of(e)->Err_0)
    } else if block_of(e) is Err {
        Some(block_of(e)->Err_0)
    } else if stream_of(e) is Err {
        Some(stream_of(e)->Err_0)
    } else if correlation_of(e) is Err {
        Some(correlation_of(e)->Err_0)
    } else {
        None
    }
}

pub open spec fn is_kernel_event(e: TraceEvent) -> bool {
    e.ph@ == "X"@ && e.cat@ == "kernel"@
}

pub open spec fn dims_view(d: Option<(u32, u32, u32)>) -> Option<(int, int, int)> {
    match d {
        Some(t) => Some((t.0 as int, t.1 as int, t.2 as int)),
        None => None,
    }
}

pub open spec fn launch_matches(l: TracedLaunch, e: TraceEvent) -> bool {
    &&& timing(e) == Ok::<(u64, u64), TraceErrorV>((l.start, l.duration))
    &&& grid_of(e) == Ok::<_, TraceErrorV>(dims_view(l.grid))
    &&& block_of(e) == Ok::<_, TraceErrorV>(dims_view(l.block))
    &&& stream_of(e) == Ok::<_, TraceErrorV>(match l.stream {
        Some(n) => Some(n as int),
        None => None,
    })
    &&& correlation_of(e) == Ok::<_, TraceErrorV>(match l.correlation {
        Some(n) => Some(n as int),
        None => None,
    })
}

/// The launch that an event stands for; none where it is not a complete kernel
/// event.
pub fn kernel_launch(e: &TraceEvent) -> (r: Result<Option<TracedLaunch>, TraceError>)
    ensures
        match r {
            Ok(None) => !is_kernel_event(*e),
            Ok(Some(l)) => is_kernel_event(*e) && launch_fault(*e) is None && launch_matches(l, *e),
            Err(err) => is_kernel_event(*e) && launch_fault(*e) == Some(err@),
        },
{
    if !same_text(e.ph.as_str(), "X") || !same_text(e.cat.as_str(), "kernel") {
        return Ok(None);
    }
    let (start, duration) = match event_timing(e) {
        Ok(t) => t,
        Err(err) => {
            return Err(err);
        },
    };
    let grid = match extract_tuple(&e.args, "grid", "grid_x", "grid_y", "grid_z") {
        Ok(g) => g,
        Err(err) => {
            return Err(err);
        },
    };
    let block = match extract_tuple(&e.args, "block", "block_x", "block_y", "block_z") {
        Ok(b) => b,
        Err(err) => {
            return Err(err);
        },
    };
    let stream = match read_stream(&e.args) {
        Ok(s) => s,
        Err(err) => {
            return Err(err);
        },
    };
    let correlation = match read_correlation(&e.args) {
        Ok(c) => c,
        Err(err) => {
            return Err(err);
        },
    };
    Ok(Some(TracedLaunch { duration, start, grid, block, stream, correlation }))
}

// ---------------------------------------------------------------------------
// Operators
// ---------------------------------------------------------------------------

/// One call of an operator. `window` is how long it took.
#[derive(Debug)]
pub struct OpInvocation {
    pub name: String,
    pub start: u64,
    pub end: u64,
    pub window: u64,
    pub module: Option<String>,
    pub input_shapes: Option<String>,
}

pub open spec fn is_op_event(e: TraceEvent) -> bool {
    e.ph@ == "X"@ && is_op_category(e.cat@)
}

pub open spec fn arg_text(e: TraceEvent, key: Seq<char>) -> Option<Seq<char>> {
    match args_view(e.args) {
        Some(a) => json::str_of(json::field(a, key)),
        None => None,
    }
}

/// The module that an operator belongs to.
pub open spec fn module_of(e: TraceEvent) -> Option<Seq<char>> {
    if arg_text(e, "Python module id"@) is Some {
        arg_text(e, "Python module id"@)
    } else {
        arg_text(e, "module"@)
    }
}

/// The shapes that an operator was called with, as they stand in the trace.
pub open spec fn shapes_of(e: TraceEvent) -> Option<JsonV> {
    match args_view(e.args) {
        Some(a) => match json::field(a, "Input Dims"@) {
            Some(v) => Some(v),
            None => json::field(a, "input_shapes"@),
        },
        None => None,
    }
}

fn read_module(args: &Option<Json>) -> (r: Option<String>)
    ensures
        text::opt_text(r) == ({
            let text_at = |key: Seq<char>|
                match args_view(*args) {
                    Some(a) => json::str_of(json::field(a, key)),
                    None => None,
                };
            if text_at("Python module id"@) is Some {
                text_at("Python module id"@)
            } else {
                text_at("module"@)
            }
        }),
{
    match args {
        Some(a) => match a.get_str("Python module id") {
            Some(s) => Some(s.to_owned()),
            None => match a.get_str("module") {
                Some(s) => Some(s.to_owned()),
                None => None,
            },
        },
        None => None,
    }
}

/// What an event says of the call that it stands for.
pub open spec fn invocation_matches(op: OpInvocation, e: TraceEvent) -> bool {
    &&& timing(e) is Ok
    &&& op.name@ == e.name@
    &&& op.start == timing(e)->Ok_0.0
    &&& op.end == e.end
    &&& op.window == e.window
    &&& text::opt_text(op.module) == module_of(e)
    &&& op.input_shapes is Some <==> shapes_of(e) is Some
    &&& shapes_of(e) is Some && json::is_plain(shapes_of(e)->0) ==> op.input_shapes->0@
        == json::json_text_of(shapes_of(e)->0)
}

/// The call that an event stands for; none where it is not a complete event of
/// an operator.
pub fn op_invocation(e: &TraceEvent) -> (r: Result<Option<OpInvocation>, TraceError>)
    ensures
        match r {
            Ok(None) => !is_op_event(*e),
            Ok(Some(op)) => is_op_event(*e) && invocation_matches(op, *e),
            Err(err) => is_op_event(*e) && timing(*e) == Err::<(u64, u64), TraceErrorV>(err@),
        },
{
    if !same_text(e.ph.as_str(), "X") || !op_category(e.cat.as_str()) {
        return Ok(None);
    }
    let (start, _) = match event_timing(e) {
        Ok(t) => t,
        Err(err) => {
            return Err(err);
        },
    };
    let shapes = match value_for(&e.args, "Input Dims") {
        Some(v) => Some(v),
        None => value_for(&e.args, "input_shapes"),
    };
    let input_shapes = match shapes {
        Some(v) => Some(json_text(v)),
        None => None,
    };
    Ok(
        Some(
            OpInvocation {
                name: e.name.clone(),
                start,
                end: e.end,
                window: e.window,
                module: read_module(&e.args),
                input_shapes,
            },
        ),
    )
}

/// A moment lies in the time of a call.
pub open spec fn covers(op: OpInvocation, moment: u64) -> bool {
    number::units(op.start) <= number::units(moment) <= number::units(op.end)
}

/// The shortest call that a moment lies in; the first one where several are
/// equally short.
pub open spec fn is_innermost(ops: Seq<OpInvocation>, moment: u64, i: int) -> bool {
    &&& 0 <= i < ops.len()
    &&& covers(ops[i], moment)
    &&& forall|j: int|
        0 <= j < ops.len() && covers(#[trigger] ops[j], moment) ==> number::units(ops[i].window)
            < number::units(ops[j].window) || (number::units(ops[i].window) == number::units(
            ops[j].window,
        ) && i <= j)
}

/// The innermost call at a moment is `found`; none where the moment lies in none.
pub open spec fn is_call_at(ops: Seq<OpInvocation>, moment: u64, found: Option<usize>) -> bool {
    match found {
        Some(i) => is_innermost(ops, moment, i as int),
        None => forall|i: int| 0 <= i < ops.len() ==> !covers(#[trigger] ops[i], moment),
    }
}

/// The call that a kernel belongs to, by the moment at which it starts.
pub fn innermost_op(ops: &[OpInvocation], moment: u64) -> (r: Option<usize>)
    ensures
        is_call_at(ops@, moment, r),
{
    let mut best: Option<usize> = None;
    let mut k: usize = 0;
    while k < ops.len()
        invariant
            k <= ops@.len(),
            match best {
                Some(i) => i < k && is_innermost(ops@.take(k as int), moment, i as int),
                None => forall|i: int| 0 <= i < k ==> !covers(#[trigger] ops@[i], moment),
            },
        decreases ops@.len() - k,
    {
        let ghost seen = ops@.take(k as int);
        let ghost next = ops@.take(k + 1);
        assert(forall|j: int| 0 <= j < k ==> next[j] == seen[j]);
        assert(next[k as int] == ops@[k as int]);
        if is_at_most(ops[k].start, moment) && is_at_most(moment, ops[k].end) {
            match best {
                Some(i) => {
                    assert(seen[i as int] == ops@[i as int]);
                    if is_less(ops[k].window, ops[i].window) {
                        assert(is_innermost(next, moment, k as int)) by {
                            assert forall|j: int|
                                0 <= j < next.len() && covers(#[trigger] next[j], moment) implies (
                            number::units(next[k as int].window) < number::units(next[j].window)
                                || (number::units(next[k as int].window) == number::units(
                                next[j].window,
                            ) && k <= j)) by {
                                if j < k {
                                    assert(next[j] == seen[j]);
                                }
                            }
                        }
                        best = Some(k);
                    } else {
                        assert(is_innermost(next, moment, i as int)) by {
                            assert forall|j: int|
                                0 <= j < next.len() && covers(#[trigger] next[j], moment) implies (
                            number::units(next[i as int].window) < number::units(next[j].window)
                                || (number::units(next[i as int].window) == number::units(
                                next[j].window,
                            ) && i <= j)) by {
                                if j < k {
                                    assert(next[j] == seen[j]);
                                }
                            }
                        }
                    }
                },
                None => {
                    assert(is_innermost(next, moment, k as int)) by {
                        assert forall|j: int|
                            0 <= j < next.len() && covers(#[trigger] next[j], moment) implies j
                            == k by {
                            if j < k {
                                assert(next[j] == ops@[j]);
                            }
                        }
                    }
                    best = Some(k);
                },
            }
        } else {
            assert(!covers(ops@[k as int], moment));
            if let Some(i) = best {
                assert(is_innermost(next, moment, i as int)) by {
                    assert forall|j: int|
                        0 <= j < next.len() && covers(#[trigger] next[j], moment) implies (
                    number::units(next[i as int].window) < number::units(next[j].window) || (
                    number::units(next[i as int].window) == number::units(next[j].window) && i
                        <= j)) by {
                        assert(next[j] == seen[j]);
                    }
                }
            }
        }
        k = k + 1;
    }
    assert(ops@.take(k as int) =~= ops@);
    best
}

/// A kernel belongs to one call at most.
pub proof fn the_innermost_call_is_one(ops: Seq<OpInvocation>, moment: u64, i: int, j: int)
    requires
        is_innermost(ops, moment, i),
        is_innermost(ops, moment, j),
    ensures
        i == j,
{
}

// ---------------------------------------------------------------------------
// The whole trace
// ---------------------------------------------------------------------------

/// Where the kernel events stand among the first `n` events.
pub open spec fn kernel_positions(events: Seq<TraceEvent>, n: int) -> Seq<int>
    decreases n,
{
    if n <= 0 {
        Seq::empty()
    } else if is_kernel_event(events[n - 1]) {
        kernel_positions(events, n - 1).push(n - 1)
    } else {
        kernel_positions(events, n - 1)
    }
}

/// The first fault of a kernel event among the first `n` events.
pub open spec fn first_launch_fault(events: Seq<TraceEvent>, n: int) -> Option<TraceErrorV>
    decreases n,
{
    if n <= 0 {
        None
    } else {
        match first_launch_fault(events, n - 1) {
            Some(e) => Some(e),
            None => if is_kernel_event(events[n - 1]) {
                launch_fault(events[n - 1])
            } else {
                None
            },
        }
    }
}

proof fn a_launch_fault_stays(events: Seq<TraceEvent>, n: int, m: int)
    requires
        n <= m,
        first_launch_fault(events, n) is Some,
    ensures
        first_launch_fault(events, m) == first_launch_fault(events, n),
    decreases m - n,
{
    if n < m && m > 0 {
        a_launch_fault_stays(events, n, m - 1);
    }
}

/// The launches of a trace, each with the name of its kernel, in the order of
/// the events.
pub fn kernel_launches(events: &[TraceEvent]) -> (r: Result<
    Vec<(String, TracedLaunch)>,
    TraceError,
>)
    ensures
        ({
            let p = kernel_positions(events@, events@.len() as int);
            match r {
                Ok(v) => {
                    &&& first_launch_fault(events@, events@.len() as int) is None
                    &&& v@.len() == p.len()
                    &&& forall|k: int|
                        0 <= k < p.len() ==> (#[trigger] v@[k]).0@ == events@[p[k]].name@
                            && launch_matches(v@[k].1, events@[p[k]])
                },
                Err(e) => first_launch_fault(events@, events@.len() as int) == Some(e@),
            }
        }),
{
    let mut out: Vec<(String, TracedLaunch)> = Vec::new();
    let n: usize = events.len();
    let mut i: usize = 0;
    while i < n
        invariant
            i <= n,
            n == events@.len(),
            first_launch_fault(events@, i as int) is None,
            out@.len() == kernel_positions(events@, i as int).len(),
            forall|k: int|
                0 <= k < out@.len() ==> (#[trigger] out@[k]).0@ == events@[kernel_positions(
                    events@,
                    i as int,
                )[k]].name@ && launch_matches(
                    out@[k].1,
                    events@[kernel_positions(events@, i as int)[k]],
                ),
        decreases n - i,
    {
        match kernel_launch(&events[i]) {
            Ok(Some(l)) => {
                out.push((events[i].name.clone(), l));
            },
            Ok(None) => {},
            Err(e) => {
                proof {
                    assert(first_launch_fault(events@, i + 1) == Some(e@));
                    a_launch_fault_stays(events@, i + 1, n as int);
                }
                return Err(e);
            },
        }
        i = i + 1;
    }
    Ok(out)
}

/// Where the events of operators stand among the first `n` events.
pub open spec fn op_positions(events: Seq<TraceEvent>, n: int) -> Seq<int>
    decreases n,
{
    if n <= 0 {
        Seq::empty()
    } else if is_op_event(events[n - 1]) {
        op_positions(events, n - 1).push(n - 1)
    } else {
        op_positions(events, n - 1)
    }
}

/// The first fault of an operator's event among the first `n` events.
pub open spec fn first_op_fault(events: Seq<TraceEvent>, n: int) -> Option<TraceErrorV>
    decreases n,
{
    if n <= 0 {
        None
    } else {
        match first_op_fault(events, n - 1) {
            Some(e) => Some(e),
            None => if is_op_event(events[n - 1]) && timing(events[n - 1]) is Err {
                Some(timing(events[n - 1])->Err_0)
            } else {
                None
            },
        }
    }
}

proof fn an_op_fault_stays(events: Seq<TraceEvent>, n: int, m: int)
    requires
        n <= m,
        first_op_fault(events, n) is Some,
    ensures
        first_op_fault(events, m) == first_op_fault(events, n),
    decreases m - n,
{
    if n < m && m > 0 {
        an_op_fault_stays(events, n, m - 1);
    }
}

/// The calls of operators in a trace, in the order of the events. Each call is
/// kept: one operator may be called more than once.
pub fn op_invocations(events: &[TraceEvent]) -> (r: Result<Vec<OpInvocation>, TraceError>)
    ensures
        ({
            let p = op_positions(events@, events@.len() as int);
            match r {
                Ok(v) => {
                    &&& first_op_fault(events@, events@.len() as int) is None
                    &&& v@.len() == p.len()
                    &&& forall|k: int|
                        0 <= k < p.len() ==> invocation_matches(#[trigger] v@[k], events@[p[k]])
                },
                Err(e) => first_op_fault(events@, events@.len() as int) == Some(e@),
            }
        }),
{
    let mut out: Vec<OpInvocation> = Vec::new();
    let n: usize = events.len();
    let mut i: usize = 0;
    while i < n
        invariant
            i <= n,
            n == events@.len(),
            first_op_fault(events@, i as int) is None,
            out@.len() == op_positions(events@, i as int).len(),
            forall|k: int|
                0 <= k < out@.len() ==> invocation_matches(
                    #[trigger] out@[k],
                    events@[op_positions(events@, i as int)[k]],
                ),
        decreases n - i,
    {
        match op_invocation(&events[i]) {
            Ok(Some(op)) => {
                out.push(op);
            },
            Ok(None) => {},
            Err(e) => {
                proof {
                    assert(first_op_fault(events@, i + 1) == Some(e@));
                    an_op_fault_stays(events@, i + 1, n as int);
                }
                return Err(e);
            },
        }
        i = i + 1;
    }
    Ok(out)
}

/// The call that each of the launches belongs to, by the moments at which they
/// start.
pub fn ops_of_launches(ops: &[OpInvocation], starts: &[u64]) -> (r: Vec<Option<usize>>)
    ensures
        r@.len() == starts@.len(),
        forall|k: int|
            0 <= k < r@.len() ==> is_call_at(ops@, starts@[k], #[trigger] r@[k]),
{
    let mut out: Vec<Option<usize>> = Vec::new();
    let mut k: usize = 0;
    while k < starts.len()
        invariant
            k <= starts@.len(),
            out@.len() == k,
            forall|j: int|
                0 <= j < k ==> is_call_at(ops@, starts@[j], #[trigger] out@[j]),
        decreases starts@.len() - k,
    {
        out.push(innermost_op(ops, starts[k]));
        k = k + 1;
    }
    out
}

// ---------------------------------------------------------------------------
// Laws
// ---------------------------------------------------------------------------

/// An integer from zero up to the limit is taken as it is. One beyond it, one
/// that is negative and anything else is refused under the name of its field.
pub proof fn integers_are_taken_up_to_the_limit(
    n: int,
    s: Seq<char>,
    key: Seq<char>,
    max: int,
    over: Fault,
)
    requires
        0 <= max <= u64::MAX,
    ensures
        0 <= n <= max ==> integer_field(JsonV::Int(n), key, max, over) == Ok::<int, TraceErrorV>(n),
        max < n <= u64::MAX ==> integer_field(JsonV::Int(n), key, max, over) == Err::<
            int,
            TraceErrorV,
        >(TraceErrorV::Field(key, over)),
        n < 0 || n > u64::MAX ==> integer_field(JsonV::Int(n), key, max, over) == Err::<
            int,
            TraceErrorV,
        >(TraceErrorV::Field(key, Fault::NotAnInteger)),
        integer_field(JsonV::Str(s), key, max, over) == Err::<int, TraceErrorV>(
            TraceErrorV::Field(key, Fault::NotAnInteger),
        ),
        integer_field(JsonV::Real(s), key, max, over) == Err::<int, TraceErrorV>(
            TraceErrorV::Field(key, Fault::NotAnInteger),
        ),
{
}

/// A number that can be a dimension.
pub open spec fn fits(n: int) -> bool {
    0 <= n <= u32::MAX
}

/// Three numbers in an array are the dimensions, in their order, whatever
/// follows them; and the array counts before the single fields.
pub proof fn dimensions_stand_in_an_array(
    m: Map<Seq<char>, JsonV>,
    keys: (Seq<char>, Seq<char>, Seq<char>, Seq<char>),
    a: int,
    b: int,
    c: int,
    more: Seq<JsonV>,
)
    requires
        m.contains_pair(
            keys.0,
            JsonV::Array(seq![JsonV::Int(a), JsonV::Int(b), JsonV::Int(c)] + more),
        ),
    ensures
        fits(a) && fits(b) && fits(c) ==> tuple_field(
            Some(JsonV::Object(m)),
            keys.0,
            keys.1,
            keys.2,
            keys.3,
        ) == Ok::<_, TraceErrorV>(Some((a, b, c))),
        !(fits(a) && fits(b) && fits(c)) ==> tuple_field(
            Some(JsonV::Object(m)),
            keys.0,
            keys.1,
            keys.2,
            keys.3,
        ) is Err,
{
    let items = seq![JsonV::Int(a), JsonV::Int(b), JsonV::Int(c)] + more;
    assert(items[0] == JsonV::Int(a));
    assert(items[1] == JsonV::Int(b));
    assert(items[2] == JsonV::Int(c));
}

/// Without the array the three fields are the dimensions, each under its own
/// name. Without one of them, or without arguments, there are none.
pub proof fn dimensions_stand_in_three_fields(
    m: Map<Seq<char>, JsonV>,
    keys: (Seq<char>, Seq<char>, Seq<char>, Seq<char>),
    a: int,
    b: int,
    c: int,
)
    requires
        !m.dom().contains(keys.0),
    ensures
        m.contains_pair(keys.1, JsonV::Int(a)) && m.contains_pair(keys.2, JsonV::Int(b))
            && m.contains_pair(keys.3, JsonV::Int(c)) && fits(a) && fits(b) && fits(c)
            ==> tuple_field(Some(JsonV::Object(m)), keys.0, keys.1, keys.2, keys.3) == Ok::<
            _,
            TraceErrorV,
        >(Some((a, b, c))),
        !(m.dom().contains(keys.1) && m.dom().contains(keys.2) && m.dom().contains(keys.3))
            ==> tuple_field(Some(JsonV::Object(m)), keys.0, keys.1, keys.2, keys.3) == Ok::<
            Option<(int, int, int)>,
            TraceErrorV,
        >(None),
        tuple_field(None, keys.0, keys.1, keys.2, keys.3) == Ok::<
            Option<(int, int, int)>,
            TraceErrorV,
        >(None),
{
}

/// A grid and a block are read under their own names.
pub proof fn grids_and_blocks_have_their_names(e: TraceEvent)
    ensures
        grid_of(e) == tuple_field(args_view(e.args), "grid"@, "grid_x"@, "grid_y"@, "grid_z"@),
        block_of(e) == tuple_field(args_view(e.args), "block"@, "block_x"@, "block_y"@, "block_z"@),
{
}

/// A number under its first name counts; the second name is looked at only
/// where the first is not there.
pub proof fn the_first_name_of_a_field_counts(
    m: Map<Seq<char>, JsonV>,
    key: Seq<char>,
    other: Seq<char>,
    n: int,
    max: int,
    over: Fault,
)
    requires
        0 <= n <= max <= u64::MAX,
    ensures
        m.contains_pair(key, JsonV::Int(n)) ==> either_field(
            Some(JsonV::Object(m)),
            key,
            other,
            max,
            over,
        ) == Ok::<Option<int>, TraceErrorV>(Some(n)),
        !m.dom().contains(key) && m.contains_pair(other, JsonV::Int(n)) ==> either_field(
            Some(JsonV::Object(m)),
            key,
            other,
            max,
            over,
        ) == Ok::<Option<int>, TraceErrorV>(Some(n)),
        !m.dom().contains(key) && !m.dom().contains(other) ==> either_field(
            Some(JsonV::Object(m)),
            key,
            other,
            max,
            over,
        ) == Ok::<Option<int>, TraceErrorV>(None),
{
}

/// A stream is a small number and a correlation a large one, each under either
/// of two names.
pub proof fn streams_and_correlations_have_their_names(e: TraceEvent, m: Map<Seq<char>, JsonV>, n: int)
    requires
        args_view(e.args) == Some(JsonV::Object(m)),
        n >= 0,
    ensures
        m.contains_pair("stream"@, JsonV::Int(n)) && n <= u32::MAX ==> stream_of(e) == Ok::<
            Option<int>,
            TraceErrorV,
        >(Some(n)),
        !m.dom().contains("stream"@) && m.contains_pair("stream_id"@, JsonV::Int(n)) && n
            <= u32::MAX ==> stream_of(e) == Ok::<Option<int>, TraceErrorV>(Some(n)),
        m.contains_pair("correlation"@, JsonV::Int(n)) && n <= i64::MAX ==> correlation_of(e)
            == Ok::<Option<int>, TraceErrorV>(Some(n)),
        !m.dom().contains("correlation"@) && m.contains_pair("external id"@, JsonV::Int(n)) && n
            <= i64::MAX ==> correlation_of(e) == Ok::<Option<int>, TraceErrorV>(Some(n)),
        m.contains_pair("stream"@, JsonV::Int(n)) && n > u32::MAX ==> stream_of(e) is Err,
        m.contains_pair("correlation"@, JsonV::Int(n)) && n > i64::MAX ==> correlation_of(e) is Err,
{
}

/// An event that is kept passes where it has a name, arguments that are an
/// object if there are any, dimensions that can be read if it is a kernel, and
/// both times, finite and not negative; and only there.
pub proof fn an_event_passes_where_it_is_whole(e: TraceEvent)
    ensures
        event_fault(e) is None <==> {
            &&& text::trim(e.name@).len() > 0
            &&& e.args is None || e.args->0.view() is Object
            &&& e.cat@ == "kernel"@ ==> grid_of(e) is Ok && block_of(e) is Ok
            &&& e.ts is Some
            &&& e.dur is Some
            &&& number::finite(e.ts->0)
            &&& number::units(e.ts->0) >= 0
            &&& number::finite(e.dur->0)
            &&& number::units(e.dur->0) >= 0
            &&& number::finite(e.end)
        },
        e.ts is None && text::trim(e.name@).len() > 0 && e.args is None ==> event_fault(e) == Some(
            TraceErrorV::MissingTs,
        ),
        e.ts is Some && e.dur is None && text::trim(e.name@).len() > 0 && e.args is None
            ==> event_fault(e) == Some(TraceErrorV::MissingDur),
{
}

/// The first event that is kept and does not pass refuses the trace, with its
/// own fault; events that are not kept refuse nothing.
pub proof fn the_first_fault_refuses_a_trace(events: Seq<TraceEvent>, n: int, i: int)
    requires
        0 <= i <= n <= events.len(),
        forall|j: int|
            0 <= j < i ==> !is_supported(#[trigger] events[j]) || event_fault(events[j]) is None,
        i < n ==> is_supported(events[i]) && event_fault(events[i]) is Some,
    ensures
        first_fault(events, n) == if i < n {
            event_fault(events[i])
        } else {
            None
        },
    decreases n,
{
    if n > 0 {
        if i < n {
            the_first_fault_refuses_a_trace(events, n - 1, i);
        } else {
            the_first_fault_refuses_a_trace(events, n - 1, n - 1);
        }
    }
}

/// A trace passes where it is not too long, holds an event that is kept, and
/// every such event passes; and only there.
pub proof fn a_trace_passes_where_its_events_do(events: Seq<TraceEvent>)
    ensures
        trace_fault(events) is None <==> {
            &&& events.len() <= MAX_TRACE_EVENTS
            &&& exists|i: int| 0 <= i < events.len() && is_supported(#[trigger] events[i])
            &&& forall|i: int|
                0 <= i < events.len() && is_supported(#[trigger] events[i]) ==> event_fault(
                    events[i],
                ) is None
        },
{
    passing_events(events, events.len() as int);
}

proof fn passing_events(events: Seq<TraceEvent>, n: int)
    requires
        0 <= n <= events.len(),
    ensures
        first_fault(events, n) is None <==> forall|i: int|
            0 <= i < n && is_supported(#[trigger] events[i]) ==> event_fault(events[i]) is None,
    decreases n,
{
    if n > 0 {
        passing_events(events, n - 1);
        if first_fault(events, n) is None {
            assert forall|i: int| 0 <= i < n && is_supported(#[trigger] events[i]) implies event_fault(
                events[i],
            ) is None by {
                if i < n - 1 {
                    assert(first_fault(events, n - 1) is None);
                }
            }
        } else if first_fault(events, n - 1) is None {
            assert(is_supported(events[n - 1]));
        }
    }
}

/// Complete events of kernels and of operators are kept, and no others.
pub proof fn kernels_and_operators_are_kept(e: TraceEvent)
    ensures
        is_supported(e) <==> is_kernel_event(e) || is_op_event(e),
        is_kernel_event(e) <==> e.ph@ == "X"@ && e.cat@ == "kernel"@,
        is_op_event(e) <==> e.ph@ == "X"@ && (e.cat@ == "cpu_op"@ || e.cat@ == "user_annotation"@
            || e.cat@ == "Operator"@),
{
}

/// Every kernel event gives a launch, in the order of the events, and no other
/// event does.
pub proof fn every_kernel_event_is_a_launch(events: Seq<TraceEvent>, n: int, i: int)
    requires
        0 <= n <= events.len(),
    ensures
        kernel_positions(events, n).contains(i) <==> 0 <= i < n && is_kernel_event(events[i]),
        forall|a: int, b: int|
            0 <= a < b < kernel_positions(events, n).len() ==> #[trigger] kernel_positions(
                events,
                n,
            )[a] < #[trigger] kernel_positions(events, n)[b],
        forall|a: int|
            0 <= a < kernel_positions(events, n).len() ==> 0 <= #[trigger] kernel_positions(
                events,
                n,
            )[a] < n,
    decreases n,
{
    if n > 0 {
        every_kernel_event_is_a_launch(events, n - 1, i);
        let p = kernel_positions(events, n - 1);
        let q = kernel_positions(events, n);
        if is_kernel_event(events[n - 1]) {
            assert(q == p.push(n - 1));
            assert(q[q.len() - 1] == n - 1);
            if p.contains(i) {
                let k = choose|k: int| 0 <= k < p.len() && p[k] == i;
                assert(q[k] == i);
            }
        }
    }
}

/// Every event of an operator gives a call, in the order of the events, and no
/// other event does.
pub proof fn every_operator_event_is_a_call(events: Seq<TraceEvent>, n: int, i: int)
    requires
        0 <= n <= events.len(),
    ensures
        op_positions(events, n).contains(i) <==> 0 <= i < n && is_op_event(events[i]),
        forall|a: int, b: int|
            0 <= a < b < op_positions(events, n).len() ==> #[trigger] op_positions(events, n)[a]
                < #[trigger] op_positions(events, n)[b],
        forall|a: int|
            0 <= a < op_positions(events, n).len() ==> 0 <= #[trigger] op_positions(events, n)[a]
                < n,
    decreases n,
{
    if n > 0 {
        every_operator_event_is_a_call(events, n - 1, i);
        let p = op_positions(events, n - 1);
        let q = op_positions(events, n);
        if is_op_event(events[n - 1]) {
            assert(q == p.push(n - 1));
            assert(q[q.len() - 1] == n - 1);
            if p.contains(i) {
                let k = choose|k: int| 0 <= k < p.len() && p[k] == i;
                assert(q[k] == i);
            }
        }
    }
}

/// Launches are refused where, and only where, one of the kernel events lacks a
/// time or has a field that cannot be read.
pub proof fn launches_are_refused_for_a_fault(events: Seq<TraceEvent>, n: int)
    requires
        0 <= n <= events.len(),
    ensures
        first_launch_fault(events, n) is None <==> forall|i: int|
            0 <= i < n && is_kernel_event(#[trigger] events[i]) ==> {
                &&& events[i].ts is Some
                &&& events[i].dur is Some
                &&& grid_of(events[i]) is Ok
                &&& block_of(events[i]) is Ok
                &&& stream_of(events[i]) is Ok
                &&& correlation_of(events[i]) is Ok
            },
        first_op_fault(events, n) is None <==> forall|i: int|
            0 <= i < n && is_op_event(#[trigger] events[i]) ==> events[i].ts is Some
                && events[i].dur is Some,
    decreases n,
{
    if n > 0 {
        launches_are_refused_for_a_fault(events, n - 1);
        let e = events[n - 1];
        if first_launch_fault(events, n) is Some && first_launch_fault(events, n - 1) is None {
            assert(is_kernel_event(e) && launch_fault(e) is Some);
        }
        if first_op_fault(events, n) is Some && first_op_fault(events, n - 1) is None {
            assert(is_op_event(e) && timing(e) is Err);
        }
    }
}

/// A launch starts and lasts as its event says.
pub proof fn a_launch_keeps_its_times(l: TracedLaunch, e: TraceEvent)
    requires
        launch_matches(l, e),
    ensures
        e.ts == Some(l.start),
        e.dur == Some(l.duration),
{
}

/// A call keeps what its event says: the name, the start, and the module and
/// the shapes under either of their names.
pub proof fn a_call_keeps_what_its_event_says(
    op: OpInvocation,
    e: TraceEvent,
    m: Map<Seq<char>, JsonV>,
    s: Seq<char>,
    v: JsonV,
)
    requires
        invocation_matches(op, e),
        args_view(e.args) == Some(JsonV::Object(m)),
    ensures
        op.name@ == e.name@,
        e.ts == Some(op.start),
        op.end == e.end,
        op.window == e.window,
        m.contains_pair("Python module id"@, JsonV::Str(s)) ==> text::opt_text(op.module) == Some(s),
        !m.dom().contains("Python module id"@) && m.contains_pair("module"@, JsonV::Str(s))
            ==> text::opt_text(op.module) == Some(s),
        m.contains_pair("Input Dims"@, v) && json::is_plain(v) ==> text::opt_text(op.input_shapes)
            == Some(json::json_text_of(v)),
        !m.dom().contains("Input Dims"@) && m.contains_pair("input_shapes"@, v) && json::is_plain(v)
            ==> text::opt_text(op.input_shapes) == Some(json::json_text_of(v)),
        !m.dom().contains("Input Dims"@) && !m.dom().contains("input_shapes"@)
            ==> op.input_shapes is None,
{
}

/// A field that is refused is named with what is wrong with it.
pub proof fn a_refused_field_is_named(key: Seq<char>, n: usize)
    ensures
        error_text(TraceErrorV::Field(key, Fault::NotAnArray)) == "Chrome trace field "@ + key
            + " must be an array"@,
        error_text(TraceErrorV::Field(key, Fault::NotThree)) == "Chrome trace field "@ + key
            + " must contain three integers"@,
        error_text(TraceErrorV::Field(key, Fault::NotAnInteger)) == "Chrome trace field "@ + key
            + " must be a non-negative integer"@,
        error_text(TraceErrorV::Field(key, Fault::ExceedsU32)) == "Chrome trace field "@ + key
            + " exceeds u32::MAX"@,
        error_text(TraceErrorV::Field(key, Fault::ExceedsI64)) == "Chrome trace field "@ + key
            + " exceeds SQLite integer range"@,
        error_text(TraceErrorV::TooManyEvents(n)) == "Chrome trace contains "@ + text::decimal(
            n as nat,
        ) + " events; maximum is 1000000"@,
{
}

/// A kernel belongs to a call that runs at its start, both ends included, and
/// no other such call is shorter; it belongs to none only where none runs.
pub proof fn a_kernel_belongs_to_the_shortest_call(
    ops: Seq<OpInvocation>,
    moment: u64,
    found: Option<usize>,
    j: int,
)
    requires
        is_call_at(ops, moment, found),
        0 <= j < ops.len(),
        number::units(ops[j].start) <= number::units(moment),
        number::units(moment) <= number::units(ops[j].end),
    ensures
        found is Some,
        found->0 < ops.len(),
        number::units(ops[found->0 as int].start) <= number::units(moment) <= number::units(
            ops[found->0 as int].end,
        ),
        number::units(ops[found->0 as int].window) <= number::units(ops[j].window),
        number::units(ops[found->0 as int].window) == number::units(ops[j].window) ==> found->0
            <= j,
{
    assert(covers(ops[j], moment));
}

/// Dimensions that do not stand in an array, or are fewer than three, are
/// refused under the name of the field, and a number that does not fit under
/// its place in it.
pub proof fn dimensions_that_cannot_be_read_are_refused(
    m: Map<Seq<char>, JsonV>,
    keys: (Seq<char>, Seq<char>, Seq<char>, Seq<char>),
    items: Seq<JsonV>,
    n: int,
    s: Seq<char>,
)
    ensures
        m.contains_pair(keys.0, JsonV::Str(s)) || m.contains_pair(keys.0, JsonV::Int(n))
            || m.contains_pair(keys.0, JsonV::Null) ==> tuple_field(
            Some(JsonV::Object(m)),
            keys.0,
            keys.1,
            keys.2,
            keys.3,
        ) == Err::<Option<(int, int, int)>, TraceErrorV>(
            TraceErrorV::Field(keys.0, Fault::NotAnArray),
        ),
        m.contains_pair(keys.0, JsonV::Array(items)) && items.len() < 3 ==> tuple_field(
            Some(JsonV::Object(m)),
            keys.0,
            keys.1,
            keys.2,
            keys.3,
        ) == Err::<Option<(int, int, int)>, TraceErrorV>(
            TraceErrorV::Field(keys.0, Fault::NotThree),
        ),
        m.contains_pair(keys.0, JsonV::Array(items)) && items.len() >= 3 && items[0] == JsonV::Int(
            n,
        ) && u32::MAX < n <= u64::MAX ==> tuple_field(
            Some(JsonV::Object(m)),
            keys.0,
            keys.1,
            keys.2,
            keys.3,
        ) == Err::<Option<(int, int, int)>, TraceErrorV>(
            TraceErrorV::Field(keys.0 + "[0]"@, Fault::ExceedsU32),
        ),
{
}

} // verus!
