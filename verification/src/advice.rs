//! What the profile suggests: verdicts on kernels and operators, and what to
//! collect or to try next. Times are integers of nanoseconds.

use vstd::prelude::*;

use crate::arguments;
use crate::arguments::escape_regex;
use crate::text;
use crate::text::{chars_of, ends_with_chars, join_strings};

verus! {

// ---------------------------------------------------------------------------
// Verdicts
// ---------------------------------------------------------------------------

/// What keeps the occupancy of a kernel down: registers, where a thread has
/// more than 64, or shared memory, where a block has more than 48 KB, or else
/// the size of the block.
pub fn limiting_factor(registers: Option<i64>, shared: Option<i64>) -> (r: &'static str)
    ensures
        r@ == if registers matches Some(n) && n > 64 {
            "registers"@
        } else if shared matches Some(n) && n > 49152 {
            "shared mem"@
        } else {
            "block size"@
        },
{
    let r: i64 = match registers {
        Some(n) => n,
        None => 0,
    };
    let s: i64 = match shared {
        Some(n) => n,
        None => 0,
    };
    if r > 64 {
        "registers"
    } else if s > 49152 {
        "shared mem"
    } else {
        "block size"
    }
}

/// How far kernels overlap.
#[derive(Debug, Clone, Copy, PartialEq, Eq, Structural)]
pub enum Parallelism {
    Serial,
    Light,
    Moderate,
    High,
}

/// The time of all kernels is below 1.05 times, 1.5 times or 2.5 times the time
/// in which any ran.
pub open spec fn parallelism(kernels: int, active: int) -> Parallelism {
    if 100 * kernels < 105 * active {
        Parallelism::Serial
    } else if 2 * kernels < 3 * active {
        Parallelism::Light
    } else if 2 * kernels < 5 * active {
        Parallelism::Moderate
    } else {
        Parallelism::High
    }
}

/// How far kernels overlap; nothing is said where none ran.
pub fn parallelism_verdict(kernels: i64, active: i64) -> (r: Option<Parallelism>)
    ensures
        r == if active > 0 && kernels > 0 {
            Some(parallelism(kernels as int, active as int))
        } else {
            None
        },
{
    if active <= 0 || kernels <= 0 {
        return None;
    }
    let k: i128 = kernels as i128;
    let a: i128 = active as i128;
    Some(
        if 100 * k < 105 * a {
            Parallelism::Serial
        } else if 2 * k < 3 * a {
            Parallelism::Light
        } else if 2 * k < 5 * a {
            Parallelism::Moderate
        } else {
            Parallelism::High
        },
    )
}

impl Parallelism {
    pub fn text(&self) -> (r: &'static str)
        ensures
            r@ == match self {
                Parallelism::Serial => "serial — no overlap"@,
                Parallelism::Light => "light overlap"@,
                Parallelism::Moderate => "moderate overlap"@,
                Parallelism::High => "high overlap"@,
            },
    {
        match self {
            Parallelism::Serial => "serial — no overlap",
            Parallelism::Light => "light overlap",
            Parallelism::Moderate => "moderate overlap",
            Parallelism::High => "high overlap",
        }
    }
}

/// More streams could help: one stream at most is used, and the device is idle
/// more than ten times.
pub fn more_streams_could_help(streams: usize, gaps: usize) -> (r: bool)
    ensures
        r == (streams <= 1 && gaps > 10),
{
    streams <= 1 && gaps > 10
}

/// Kernels run shorter than it takes to launch them, at five microseconds for
/// each launch.
pub fn overhead_exceeds(launches: i64, time: i64) -> (r: bool)
    ensures
        r == (5000 * launches > time),
{
    5000 * launches as i128 > time as i128
}

/// Times up to this long are as good as none.
pub const NO_TIME: i64 = 10;

/// What bounds an operator.
#[derive(Debug, Clone, Copy, PartialEq, Eq, Structural)]
pub enum OpBound {
    Overhead,
    Cpu,
    Gpu,
    Balanced,
}

pub open spec fn at_least(n: int, least: int) -> int {
    if n < least {
        least
    } else {
        n
    }
}

/// An operator without time on the device is overhead. It is bound by the host
/// where it takes over ten times as long there, and by the device where it
/// takes over twice as long there.
pub open spec fn op_bound(cpu: int, gpu: int) -> OpBound {
    if gpu < NO_TIME {
        OpBound::Overhead
    } else if cpu > 10 * gpu {
        OpBound::Cpu
    } else if gpu > 2 * at_least(cpu, NO_TIME as int) {
        OpBound::Gpu
    } else {
        OpBound::Balanced
    }
}

pub fn classify_op(cpu: i64, gpu: i64) -> (r: OpBound)
    ensures
        r == op_bound(cpu as int, gpu as int),
{
    let c: i128 = cpu as i128;
    let g: i128 = gpu as i128;
    if gpu < NO_TIME {
        OpBound::Overhead
    } else if c > 10 * g {
        OpBound::Cpu
    } else if g > 2 * (if cpu < NO_TIME {
        NO_TIME as i128
    } else {
        c
    }) {
        OpBound::Gpu
    } else {
        OpBound::Balanced
    }
}

/// What bounds all operators together: the host, where they take over ten times
/// as long there, or the device, where they take less than half as long on the
/// host.
pub open spec fn workload_bound(cpu: int, gpu: int) -> OpBound {
    let g = at_least(gpu, NO_TIME as int);
    if cpu > 10 * g {
        OpBound::Cpu
    } else if 2 * cpu < g {
        OpBound::Gpu
    } else {
        OpBound::Balanced
    }
}

pub fn classify_workload(cpu: i64, gpu: i64) -> (r: OpBound)
    ensures
        r == workload_bound(cpu as int, gpu as int),
{
    let g: i128 = if gpu < NO_TIME {
        NO_TIME as i128
    } else {
        gpu as i128
    };
    if cpu as i128 > 10 * g {
        OpBound::Cpu
    } else if 2 * (cpu as i128) < g {
        OpBound::Gpu
    } else {
        OpBound::Balanced
    }
}

/// How an operator's times compare.
pub open spec fn assessment(cpu: int, gpu: int) -> Seq<char> {
    if gpu < NO_TIME {
        "pure overhead"@
    } else if cpu > 100 * gpu {
        "CPU-bound"@
    } else if cpu > 10 * gpu {
        "CPU-heavy"@
    } else if cpu > 2 * gpu {
        "balanced"@
    } else if 2 * cpu > gpu {
        "GPU-heavy"@
    } else {
        "GPU-bound"@
    }
}

pub fn assess_op(cpu: i64, gpu: i64) -> (r: &'static str)
    ensures
        r@ == assessment(cpu as int, gpu as int),
{
    let c: i128 = cpu as i128;
    let g: i128 = gpu as i128;
    if gpu < NO_TIME {
        "pure overhead"
    } else if c > 100 * g {
        "CPU-bound"
    } else if c > 10 * g {
        "CPU-heavy"
    } else if c > 2 * g {
        "balanced"
    } else if 2 * c > g {
        "GPU-heavy"
    } else {
        "GPU-bound"
    }
}

// ---------------------------------------------------------------------------
// Layers
// ---------------------------------------------------------------------------

/// Which layers a session has, and what it profiled.
#[derive(Debug)]
pub struct Layers {
    pub nsys: bool,
    pub ncu: bool,
    pub torch: bool,
    pub target: String,
}

pub open spec fn is_script(target: Seq<char>) -> bool {
    text::ends_with(target, ".py"@)
}

/// The layers that could be collected and are not there.
pub open spec fn missing(l: Layers) -> Seq<Seq<char>> {
    (if l.nsys {
        Seq::empty()
    } else {
        seq!["nsys"@]
    }) + (if l.ncu {
        Seq::empty()
    } else {
        seq!["ncu"@]
    }) + (if l.torch || !is_script(l.target@) {
        Seq::empty()
    } else {
        seq!["torch"@]
    })
}

fn script(target: &str) -> (r: bool)
    ensures
        r == is_script(target@),
{
    ends_with_chars(&chars_of(target), &chars_of(".py"))
}

fn push_text(out: &mut Vec<String>, s: &str)
    ensures
        text::texts(final(out)@) == text::texts(old(out)@).push(s@),
{
    let ghost start = out@;
    out.push(s.to_owned());
    assert(text::texts(out@) =~= text::texts(start).push(s@));
}

pub fn missing_layers(l: &Layers) -> (r: Vec<String>)
    ensures
        text::texts(r@) == missing(*l),
{
    let mut out: Vec<String> = Vec::new();
    if !l.nsys {
        push_text(&mut out, "nsys");
    }
    if !l.ncu {
        push_text(&mut out, "ncu");
    }
    if !l.torch && script(l.target.as_str()) {
        push_text(&mut out, "torch");
    }
    assert(text::texts(out@) =~= missing(*l));
    out
}

/// All layers that apply are there.
pub open spec fn is_complete(l: Layers) -> bool {
    l.nsys && l.ncu && (l.torch || !is_script(l.target@))
}

/// A session is complete when nothing is missing.
pub proof fn complete_means_nothing_missing(l: Layers)
    ensures
        is_complete(l) <==> missing(l).len() == 0,
{
}

// ---------------------------------------------------------------------------
// Suggestions
// ---------------------------------------------------------------------------

/// A kernel with its time.
#[derive(Debug)]
pub struct KernelTime {
    pub name: String,
    pub time: i64,
}

/// What is known of a session.
#[derive(Debug)]
pub struct Facts {
    pub layers: Layers,
    pub kernels: usize,
    /// The phases that failed, each with its error.
    pub failures: Vec<(String, String)>,
    /// The kernels that take most time.
    pub top: Vec<String>,
    /// Kernels whose times vary by more than three tenths of their mean.
    pub varying: Vec<String>,
    pub kernel_time: i64,
    pub transfer_time: i64,
    /// How many kernels take less than ten microseconds on average.
    pub tiny: usize,
    pub dominant: Option<KernelTime>,
}

/// One thing to look at.
#[derive(Debug)]
pub enum Suggestion {
    Failed(String, String),
    NoTimeline,
    /// These kernels lack metrics; the expression selects them.
    NoMetrics(usize, String),
    NoOpMapping,
    Varies(String),
    TransfersDominate,
    ManyTinyKernels(usize),
    OneKernelDominates(String),
}

#[verifier::ext_equal]
pub enum SuggestionV {
    Failed(Seq<char>, Seq<char>),
    NoTimeline,
    NoMetrics(usize, Seq<char>),
    NoOpMapping,
    Varies(Seq<char>),
    TransfersDominate,
    ManyTinyKernels(usize),
    OneKernelDominates(Seq<char>),
}

impl View for Suggestion {
    type V = SuggestionV;

    open spec fn view(&self) -> SuggestionV {
        match self {
            Suggestion::Failed(phase, error) => SuggestionV::Failed(phase@, error@),
            Suggestion::NoTimeline => SuggestionV::NoTimeline,
            Suggestion::NoMetrics(n, regex) => SuggestionV::NoMetrics(*n, regex@),
            Suggestion::NoOpMapping => SuggestionV::NoOpMapping,
            Suggestion::Varies(name) => SuggestionV::Varies(name@),
            Suggestion::TransfersDominate => SuggestionV::TransfersDominate,
            Suggestion::ManyTinyKernels(n) => SuggestionV::ManyTinyKernels(*n),
            Suggestion::OneKernelDominates(name) => SuggestionV::OneKernelDominates(name@),
        }
    }
}

pub open spec fn suggestion_views(v: Seq<Suggestion>) -> Seq<SuggestionV> {
    Seq::new(v.len(), |i: int| v[i]@)
}

pub open spec fn failed(f: Seq<(String, String)>) -> Seq<SuggestionV> {
    Seq::new(f.len(), |i: int| SuggestionV::Failed(f[i].0@, f[i].1@))
}

pub open spec fn varies(names: Seq<String>) -> Seq<SuggestionV> {
    Seq::new(names.len(), |i: int| SuggestionV::Varies(names[i]@))
}

/// An expression that selects these kernels.
pub open spec fn selection(names: Seq<String>) -> Seq<char> {
    text::join(
        Seq::new(names.len(), |i: int| arguments::escaped(names[i]@)),
        "|"@,
    )
}

/// One suggestion, where it applies.
pub open spec fn if_so(applies: bool, s: SuggestionV) -> Seq<SuggestionV> {
    if applies {
        seq![s]
    } else {
        Seq::empty()
    }
}

/// A kernel that takes more than half of all time.
pub open spec fn dominates(k: Option<KernelTime>, kernel_time: int) -> bool {
    k matches Some(d) && kernel_time > 0 && 2 * d.time > kernel_time
}

/// What the times suggest.
pub open spec fn from_times(f: Facts) -> Seq<SuggestionV> {
    if f.layers.nsys {
        if_so(
            f.kernel_time > 0 && f.transfer_time > 0 && f.transfer_time > 5 * f.kernel_time,
            SuggestionV::TransfersDominate,
        ) + if_so(f.tiny > 10, SuggestionV::ManyTinyKernels(f.tiny)) + if_so(
            dominates(f.dominant, f.kernel_time as int),
            SuggestionV::OneKernelDominates(f.dominant->0.name@),
        )
    } else {
        Seq::empty()
    }
}

/// What the kernels and the layers suggest.
pub open spec fn from_kernels(f: Facts) -> Seq<SuggestionV> {
    if f.kernels == 0 {
        Seq::empty()
    } else {
        if_so(!f.layers.nsys, SuggestionV::NoTimeline) + if_so(
            !f.layers.ncu && f.top@.len() > 0,
            SuggestionV::NoMetrics(f.top@.len() as usize, selection(f.top@)),
        ) + if_so(
            !f.layers.torch && is_script(f.layers.target@),
            SuggestionV::NoOpMapping,
        ) + varies(f.varying@) + from_times(f)
    }
}

/// What to say at the end.
#[derive(Debug, Clone, Copy, PartialEq, Eq, Structural)]
pub enum Conclusion {
    NoProfile,
    NoKernels,
    Incomplete,
    AllLayers,
}

#[derive(Debug)]
pub struct Advice {
    pub suggestions: Vec<Suggestion>,
    pub conclusion: Conclusion,
}

fn push_suggestion(out: &mut Vec<Suggestion>, s: Suggestion)
    ensures
        suggestion_views(final(out)@) == suggestion_views(old(out)@) + seq![s@],
{
    let ghost before = out@;
    let ghost sv = s@;
    out.push(s);
    assert(suggestion_views(out@) =~= suggestion_views(before) + seq![sv]);
}

fn select(names: &[String]) -> (r: String)
    ensures
        r@ == selection(names@),
{
    let ghost want = Seq::new(names@.len(), |i: int| arguments::escaped(names@[i]@));
    let mut parts: Vec<String> = Vec::new();
    let mut i: usize = 0;
    while i < names.len()
        invariant
            i <= names@.len(),
            want == Seq::new(names@.len(), |i: int| arguments::escaped(names@[i]@)),
            text::texts(parts@) =~= want.take(i as int),
        decreases names@.len() - i,
    {
        let ghost before = parts@;
        parts.push(escape_regex(names[i].as_str()));
        assert(text::texts(parts@) =~= text::texts(before).push(want[i as int]));
        i = i + 1;
    }
    assert(text::texts(parts@) =~= want);
    join_strings(&parts, "|")
}

/// Adds what the times suggest.
fn push_times(out: &mut Vec<Suggestion>, f: &Facts)
    ensures
        suggestion_views(final(out)@) == suggestion_views(old(out)@) + from_times(*f),
{
    let ghost start = suggestion_views(out@);
    if !f.layers.nsys {
        assert(start + from_times(*f) =~= start);
        return;
    }
    if f.kernel_time > 0 && f.transfer_time > 0 && f.transfer_time as i128 > 5
        * f.kernel_time as i128 {
        push_suggestion(out, Suggestion::TransfersDominate);
    }
    if f.tiny > 10 {
        push_suggestion(out, Suggestion::ManyTinyKernels(f.tiny));
    }
    if let Some(d) = &f.dominant {
        if f.kernel_time > 0 && 2 * d.time as i128 > f.kernel_time as i128 {
            push_suggestion(out, Suggestion::OneKernelDominates(d.name.clone()));
        }
    }
    assert(suggestion_views(out@) =~= start + from_times(*f));
}

/// What to collect or to try next, in the order in which it is numbered.
pub fn suggest(f: &Facts) -> (r: Advice)
    ensures
        suggestion_views(r.suggestions@) == failed(f.failures@) + from_kernels(*f),
        r.conclusion == if f.kernels == 0 {
            if f.failures@.len() == 0 {
                Conclusion::NoProfile
            } else {
                Conclusion::NoKernels
            }
        } else if is_complete(f.layers) {
            Conclusion::AllLayers
        } else {
            Conclusion::Incomplete
        },
{
    let mut out: Vec<Suggestion> = Vec::new();
    let mut i: usize = 0;
    while i < f.failures.len()
        invariant
            i <= f.failures@.len(),
            suggestion_views(out@) =~= failed(f.failures@).take(i as int),
        decreases f.failures@.len() - i,
    {
        push_suggestion(
            &mut out,
            Suggestion::Failed(f.failures[i].0.clone(), f.failures[i].1.clone()),
        );
        i = i + 1;
    }
    assert(suggestion_views(out@) =~= failed(f.failures@));
    if f.kernels == 0 {
        assert(failed(f.failures@) + from_kernels(*f) =~= failed(f.failures@));
        let conclusion = if f.failures.len() == 0 {
            Conclusion::NoProfile
        } else {
            Conclusion::NoKernels
        };
        return Advice { suggestions: out, conclusion };
    }
    if !f.layers.nsys {
        push_suggestion(&mut out, Suggestion::NoTimeline);
    }
    if !f.layers.ncu && f.top.len() > 0 {
        push_suggestion(&mut out, Suggestion::NoMetrics(f.top.len(), select(&f.top)));
    }
    let python = script(f.layers.target.as_str());
    if !f.layers.torch && python {
        push_suggestion(&mut out, Suggestion::NoOpMapping);
    }
    let ghost head = suggestion_views(out@);
    let mut i: usize = 0;
    assert(head + varies(f.varying@).take(0) =~= head);
    while i < f.varying.len()
        invariant
            i <= f.varying@.len(),
            suggestion_views(out@) =~= head + varies(f.varying@).take(i as int),
        decreases f.varying@.len() - i,
    {
        push_suggestion(&mut out, Suggestion::Varies(f.varying[i].clone()));
        i = i + 1;
        assert(suggestion_views(out@) =~= head + varies(f.varying@).take(i as int));
    }
    assert(varies(f.varying@).take(i as int) =~= varies(f.varying@));
    push_times(&mut out, f);
    assert(suggestion_views(out@) =~= failed(f.failures@) + from_kernels(*f));
    let conclusion = if f.layers.nsys && f.layers.ncu && (f.layers.torch || !python) {
        Conclusion::AllLayers
    } else {
        Conclusion::Incomplete
    };
    Advice { suggestions: out, conclusion }
}

// ---------------------------------------------------------------------------
// Laws
// ---------------------------------------------------------------------------

/// The verdict on overlap changes where the kernels' time is 1.05 times, 1.5
/// times and 2.5 times the time in which any ran, and takes in those points.
pub proof fn overlap_is_judged_by_the_ratio(kernels: int, active: int)
    requires
        active > 0,
    ensures
        parallelism(kernels, active) == Parallelism::Serial <==> 100 * kernels < 105 * active,
        parallelism(kernels, active) == Parallelism::Light <==> 105 * active <= 100 * kernels && 10
            * kernels < 15 * active,
        parallelism(kernels, active) == Parallelism::Moderate <==> 15 * active <= 10 * kernels && 10
            * kernels < 25 * active,
        parallelism(kernels, active) == Parallelism::High <==> 25 * active <= 10 * kernels,
{
}

/// The verdict depends on the ratio alone.
pub proof fn overlap_does_not_depend_on_the_scale(kernels: int, active: int, n: int)
    requires
        active > 0,
        n > 0,
    ensures
        parallelism(n * kernels, n * active) == parallelism(kernels, active),
{
    assert(100 * (n * kernels) < 105 * (n * active) <==> 100 * kernels < 105 * active)
        by (nonlinear_arith)
        requires
            n > 0,
    ;
    assert(2 * (n * kernels) < 3 * (n * active) <==> 2 * kernels < 3 * active) by (nonlinear_arith)
        requires
            n > 0,
    ;
    assert(2 * (n * kernels) < 5 * (n * active) <==> 2 * kernels < 5 * active) by (nonlinear_arith)
        requires
            n > 0,
    ;
}

/// An operator is overhead without time on the device, bound by the host where
/// the host takes over ten times as long, bound by the device where the device
/// takes over twice as long, and balanced between.
pub proof fn an_operator_is_bound_by_the_longer_side(cpu: int, gpu: int)
    requires
        cpu >= 10,
    ensures
        op_bound(cpu, gpu) == OpBound::Overhead <==> gpu < 10,
        gpu >= 10 ==> (op_bound(cpu, gpu) == OpBound::Cpu <==> cpu > 10 * gpu),
        gpu >= 10 ==> (op_bound(cpu, gpu) == OpBound::Gpu <==> gpu > 2 * cpu),
        gpu >= 10 ==> (op_bound(cpu, gpu) == OpBound::Balanced <==> gpu <= 2 * cpu && cpu <= 10
            * gpu),
{
}

/// An operator that takes almost no time on the host is judged as if it took
/// the least time that counts.
pub proof fn a_short_host_time_counts_as_the_least(cpu: int, gpu: int)
    requires
        0 <= cpu < 10,
    ensures
        op_bound(cpu, gpu) == op_bound(10, gpu) || gpu < 10,
        gpu > 20 ==> op_bound(cpu, gpu) == OpBound::Gpu,
        10 <= gpu <= 20 ==> op_bound(cpu, gpu) == OpBound::Balanced,
{
}

/// All operators together are bound by the host where it takes over ten times
/// as long, by the device where the host takes less than half as long, and
/// balanced between.
pub proof fn a_workload_is_bound_by_the_longer_side(cpu: int, gpu: int)
    ensures
        gpu >= 10 ==> (workload_bound(cpu, gpu) == OpBound::Cpu <==> cpu > 10 * gpu),
        gpu >= 10 ==> (workload_bound(cpu, gpu) == OpBound::Gpu <==> 2 * cpu < gpu),
        gpu >= 10 ==> (workload_bound(cpu, gpu) == OpBound::Balanced <==> gpu <= 2 * cpu && cpu
            <= 10 * gpu),
        gpu < 10 ==> workload_bound(cpu, gpu) == workload_bound(cpu, 10),
{
}

/// How an operator's times compare, from all on the device to all on the host.
pub proof fn assessments_go_by_the_ratio(cpu: int, gpu: int)
    ensures
        gpu < 10 ==> assessment(cpu, gpu) == "pure overhead"@,
        gpu >= 10 && cpu > 100 * gpu ==> assessment(cpu, gpu) == "CPU-bound"@,
        gpu >= 10 && 10 * gpu < cpu <= 100 * gpu ==> assessment(cpu, gpu) == "CPU-heavy"@,
        gpu >= 10 && 2 * gpu < cpu <= 10 * gpu ==> assessment(cpu, gpu) == "balanced"@,
        gpu >= 10 && gpu < 2 * cpu && cpu <= 2 * gpu ==> assessment(cpu, gpu) == "GPU-heavy"@,
        gpu >= 10 && 2 * cpu <= gpu ==> assessment(cpu, gpu) == "GPU-bound"@,
{
}

/// Each layer is missing where it was not collected. The framework's layer
/// applies to scripts alone.
pub proof fn a_layer_is_missing_where_it_was_not_collected(l: Layers)
    ensures
        missing(l).contains("nsys"@) <==> !l.nsys,
        missing(l).contains("ncu"@) <==> !l.ncu,
        missing(l).contains("torch"@) <==> !l.torch && text::ends_with(l.target@, ".py"@),
        missing(l).len() <= 3,
        is_complete(l) <==> l.nsys && l.ncu && (l.torch || !text::ends_with(l.target@, ".py"@)),
{
    reveal_strlit("nsys");
    reveal_strlit("ncu");
    reveal_strlit("torch");
    let m = missing(l);
    assert("nsys"@.len() == 4 && "ncu"@.len() == 3 && "torch"@.len() == 5);
    if !l.nsys {
        assert(m[0] == "nsys"@);
    }
    if !l.ncu {
        assert(m[if l.nsys {
            0int
        } else {
            1int
        }] == "ncu"@);
    }
    if !l.torch && is_script(l.target@) {
        assert(m[m.len() - 1] == "torch"@);
    }
}

/// The list suggests this.
pub open spec fn suggests(v: Seq<SuggestionV>, s: SuggestionV) -> bool {
    exists|i: int| 0 <= i < v.len() && #[trigger] v[i] == s
}

proof fn joined_suggestions(a: Seq<SuggestionV>, b: Seq<SuggestionV>, s: SuggestionV)
    ensures
        suggests(a + b, s) <==> suggests(a, s) || suggests(b, s),
{
    if suggests(a, s) {
        let i = choose|i: int| 0 <= i < a.len() && #[trigger] a[i] == s;
        assert((a + b)[i] == s);
    }
    if suggests(b, s) {
        let i = choose|i: int| 0 <= i < b.len() && #[trigger] b[i] == s;
        assert((a + b)[a.len() + i] == s);
    }
    if suggests(a + b, s) {
        let i = choose|i: int| 0 <= i < (a + b).len() && #[trigger] (a + b)[i] == s;
        if i < a.len() {
            assert(a[i] == s);
        } else {
            assert(b[i - a.len()] == s);
        }
    }
}

proof fn one_suggestion(applies: bool, t: SuggestionV, s: SuggestionV)
    ensures
        suggests(if_so(applies, t), s) <==> applies && s == t,
{
    if applies {
        assert(if_so(applies, t)[0] == t);
    }
}

/// Transfers dominate where they take more than five times as long as the
/// kernels, many kernels are tiny where more than ten are, and one kernel
/// dominates where it takes more than half of their time; and only with a
/// timeline.
pub proof fn times_suggest_what_dominates(f: Facts)
    ensures
        suggests(from_times(f), SuggestionV::TransfersDominate) <==> f.layers.nsys && f.kernel_time
            > 0 && f.transfer_time > 5 * f.kernel_time,
        suggests(from_times(f), SuggestionV::ManyTinyKernels(f.tiny)) <==> f.layers.nsys && f.tiny
            > 10,
        f.dominant is Some ==> (suggests(
            from_times(f),
            SuggestionV::OneKernelDominates(f.dominant->0.name@),
        ) <==> f.layers.nsys && f.kernel_time > 0 && 2 * f.dominant->0.time > f.kernel_time),
{
    let d = SuggestionV::OneKernelDominates(f.dominant->0.name@);
    let m = SuggestionV::ManyTinyKernels(f.tiny);
    let t = SuggestionV::TransfersDominate;
    let has_t = f.kernel_time > 0 && f.transfer_time > 0 && f.transfer_time > 5 * f.kernel_time;
    let has_m = f.tiny > 10;
    let has_d = dominates(f.dominant, f.kernel_time as int);
    let first = if_so(has_t, t) + if_so(has_m, m);
    joined_suggestions(if_so(has_t, t), if_so(has_m, m), t);
    joined_suggestions(if_so(has_t, t), if_so(has_m, m), m);
    joined_suggestions(if_so(has_t, t), if_so(has_m, m), d);
    joined_suggestions(first, if_so(has_d, d), t);
    joined_suggestions(first, if_so(has_d, d), m);
    joined_suggestions(first, if_so(has_d, d), d);
    one_suggestion(has_t, t, t);
    one_suggestion(has_t, t, m);
    one_suggestion(has_t, t, d);
    one_suggestion(has_m, m, t);
    one_suggestion(has_m, m, m);
    one_suggestion(has_m, m, d);
    one_suggestion(has_d, d, t);
    one_suggestion(has_d, d, m);
    one_suggestion(has_d, d, d);
}

/// Each layer that is missing is suggested where there are kernels; so is every
/// kernel that varies, and what the times suggest.
pub proof fn kernels_suggest_what_is_missing(f: Facts, s: SuggestionV, i: int)
    requires
        f.kernels > 0,
    ensures
        suggests(from_kernels(f), SuggestionV::NoTimeline) <==> !f.layers.nsys,
        suggests(from_kernels(f), SuggestionV::NoOpMapping) <==> !f.layers.torch && is_script(
            f.layers.target@,
        ),
        suggests(
            from_kernels(f),
            SuggestionV::NoMetrics(f.top@.len() as usize, selection(f.top@)),
        ) <==> !f.layers.ncu && f.top@.len() > 0,
        0 <= i < f.varying@.len() ==> suggests(
            from_kernels(f),
            SuggestionV::Varies(f.varying@[i]@),
        ),
        suggests(from_times(f), s) ==> suggests(from_kernels(f), s),
{
    let n = SuggestionV::NoTimeline;
    let m = SuggestionV::NoMetrics(f.top@.len() as usize, selection(f.top@));
    let o = SuggestionV::NoOpMapping;
    let has_n = !f.layers.nsys;
    let has_m = !f.layers.ncu && f.top@.len() > 0;
    let has_o = !f.layers.torch && is_script(f.layers.target@);
    let a = if_so(has_n, n) + if_so(has_m, m);
    let b = a + if_so(has_o, o);
    let c = b + varies(f.varying@);
    if 0 <= i < f.varying@.len() {
        let x = SuggestionV::Varies(f.varying@[i]@);
        assert(varies(f.varying@)[i] == x);
        joined_suggestions(b, varies(f.varying@), x);
        joined_suggestions(c, from_times(f), x);
    }
    assert forall|x: SuggestionV| x == n || x == m || x == o implies !suggests(from_times(f), x)
        && !suggests(varies(f.varying@), x) by {
        no_layer_among_times(f, x);
    }
    assert forall|x: SuggestionV|
        suggests(from_kernels(f), x) <==> ({
            ||| has_n && x == n
            ||| has_m && x == m
            ||| has_o && x == o
            ||| suggests(varies(f.varying@), x)
            ||| suggests(from_times(f), x)
        }) by {
        one_suggestion(has_n, n, x);
        one_suggestion(has_m, m, x);
        one_suggestion(has_o, o, x);
        joined_suggestions(if_so(has_n, n), if_so(has_m, m), x);
        joined_suggestions(a, if_so(has_o, o), x);
        joined_suggestions(b, varies(f.varying@), x);
        joined_suggestions(c, from_times(f), x);
    }
}

proof fn no_layer_among_times(f: Facts, x: SuggestionV)
    requires
        x is NoTimeline || x is NoMetrics || x is NoOpMapping,
    ensures
        !suggests(from_times(f), x),
        !suggests(varies(f.varying@), x),
{
    let d = SuggestionV::OneKernelDominates(f.dominant->0.name@);
    let m = SuggestionV::ManyTinyKernels(f.tiny);
    let t = SuggestionV::TransfersDominate;
    let has_t = f.kernel_time > 0 && f.transfer_time > 0 && f.transfer_time > 5 * f.kernel_time;
    let has_m = f.tiny > 10;
    let has_d = dominates(f.dominant, f.kernel_time as int);
    joined_suggestions(if_so(has_t, t), if_so(has_m, m), x);
    joined_suggestions(if_so(has_t, t) + if_so(has_m, m), if_so(has_d, d), x);
    one_suggestion(has_t, t, x);
    one_suggestion(has_m, m, x);
    one_suggestion(has_d, d, x);
}

/// Every failure is suggested first, with its phase and its error, in its
/// order; without kernels nothing else is.
pub proof fn failures_come_first(f: Facts, i: int)
    requires
        0 <= i < f.failures@.len(),
    ensures
        (failed(f.failures@) + from_kernels(f))[i] == SuggestionV::Failed(
            f.failures@[i].0@,
            f.failures@[i].1@,
        ),
        f.kernels == 0 ==> failed(f.failures@) + from_kernels(f) == failed(f.failures@),
{
}

/// The expression that selects kernels names every one of them.
pub proof fn a_selection_names_every_kernel(names: Seq<String>, k: int)
    requires
        0 <= k < names.len(),
    ensures
        text::contains(selection(names), arguments::escaped(names[k]@)),
        names.len() == 1 ==> selection(names) == arguments::escaped(names[0]@),
{
    let parts = Seq::new(names.len(), |i: int| arguments::escaped(names[i]@));
    text::join_holds_each_part(parts, "|"@, k);
    assert(parts[k] == arguments::escaped(names[k]@));
}

} // verus!
