//! What a collection runs: the target, the profilers and their arguments.

use vstd::prelude::*;

use crate::deps::{BundledToolkit, ToolkitAnchor, ToolkitRoot};
use crate::text;
use crate::text::{
    chars_of, ends_with_chars, extend_chars, extend_str, find_chars, join_strings, string_of,
};

verus! {

// ---------------------------------------------------------------------------
// The toolkit
// ---------------------------------------------------------------------------

/// Where Nsight Systems is installed. Its helpers stand in a directory beside
/// the one that holds the `nsys` binary, and a distribution may put the two
/// under different prefixes.
pub fn nsight_systems() -> (r: BundledToolkit)
    ensures
        r.name@ == "nsight-systems"@,
        r.bin_subdir@ == "host-linux-x64"@,
        r.anchor is Some,
        r.anchor->0.bin@ == "nsys"@,
        r.anchor->0.walk_up == 3,
        r.roots@.len() == 4,
        r.roots@[0].path@ == "/usr/lib/nsight-systems"@,
        r.roots@[0].max_depth == 0,
        r.roots@[0].dir_filter@.len() == 0,
        r.roots@[1].path@ == "/usr/lib/x86_64-linux-gnu/nsight-systems"@,
        r.roots@[1].max_depth == 0,
        r.roots@[1].dir_filter@.len() == 0,
        r.roots@[2].path@ == "/opt/nvidia/nsight-systems"@,
        r.roots@[2].max_depth == 1,
        r.roots@[2].dir_filter@.len() == 0,
        r.roots@[3].path@ == "/usr/local"@,
        r.roots@[3].max_depth == 2,
        r.roots@[3].dir_filter@ == seq!["cuda", "nsight-systems"],
{
    BundledToolkit {
        name: "nsight-systems",
        bin_subdir: "host-linux-x64",
        roots: &[
            ToolkitRoot { path: "/usr/lib/nsight-systems", max_depth: 0, dir_filter: &[] },
            ToolkitRoot {
                path: "/usr/lib/x86_64-linux-gnu/nsight-systems",
                max_depth: 0,
                dir_filter: &[],
            },
            ToolkitRoot { path: "/opt/nvidia/nsight-systems", max_depth: 1, dir_filter: &[] },
            ToolkitRoot {
                path: "/usr/local",
                max_depth: 2,
                dir_filter: &["cuda", "nsight-systems"],
            },
        ],
        anchor: Some(ToolkitAnchor { bin: "nsys", walk_up: 3 }),
    }
}

// ---------------------------------------------------------------------------
// The target
// ---------------------------------------------------------------------------

/// How many bytes of each end of a file its fingerprint reads.
pub const FINGERPRINT_BYTES: u64 = 4096;

pub open spec fn byte_sum(b: Seq<u8>) -> nat
    decreases b.len(),
{
    if b.len() == 0 {
        0
    } else {
        byte_sum(b.drop_last()) + b.last() as nat
    }
}

/// `n` in hexadecimal digits, without leading zeros.
pub open spec fn hexadecimal(n: nat) -> Seq<char>
    decreases n,
{
    if n < 16 {
        seq![text::hex_digit(n as int, false)]
    } else {
        hexadecimal(n / 16).push(text::hex_digit((n % 16) as int, false))
    }
}

fn hexadecimal_chars(n: u64) -> (r: Vec<char>)
    ensures
        r@ == hexadecimal(n as nat),
    decreases n,
{
    let digit: u8 = (n % 16) as u8;
    let c: char = if digit < 10 {
        ('0' as u8 + digit) as char
    } else {
        ('a' as u8 + (digit - 10)) as char
    };
    if n < 16 {
        let mut v: Vec<char> = Vec::new();
        v.push(c);
        assert(v@ =~= hexadecimal(n as nat));
        v
    } else {
        let mut v = hexadecimal_chars(n / 16);
        v.push(c);
        v
    }
}

fn sum_of(b: &[u8]) -> (r: u64)
    requires
        b@.len() <= FINGERPRINT_BYTES,
    ensures
        r == byte_sum(b@),
{
    let n: usize = b.len();
    let mut sum: u64 = 0;
    let mut i: usize = 0;
    while i < n
        invariant
            i <= n,
            n == b@.len(),
            n <= FINGERPRINT_BYTES,
            sum == byte_sum(b@.take(i as int)),
            sum <= 255 * i,
        decreases n - i,
    {
        assert(b@.take(i + 1).drop_last() =~= b@.take(i as int));
        sum = sum + b[i] as u64;
        i = i + 1;
    }
    assert(b@.take(n as int) =~= b@);
    sum
}

/// How many bytes are read from the start of a file of `size` bytes, and how
/// many from its end. The end is read where it is not the start itself.
pub open spec fn fingerprint_reads(size: int) -> (int, int) {
    (
        if size < FINGERPRINT_BYTES {
            size
        } else {
            FINGERPRINT_BYTES as int
        },
        if size > FINGERPRINT_BYTES {
            FINGERPRINT_BYTES as int
        } else {
            0
        },
    )
}

pub fn fingerprint_lengths(size: u64) -> (r: (u64, u64))
    ensures
        (r.0 as int, r.1 as int) == fingerprint_reads(size as int),
{
    (
        if size < FINGERPRINT_BYTES {
            size
        } else {
            FINGERPRINT_BYTES
        },
        if size > FINGERPRINT_BYTES {
            FINGERPRINT_BYTES
        } else {
            0
        },
    )
}

/// A fingerprint by which two runs are seen to have had one target: the file's
/// size and the sums of the bytes at its two ends.
pub fn target_fingerprint(size: u64, head: &[u8], tail: &[u8]) -> (r: String)
    requires
        (head@.len() as int, tail@.len() as int) == fingerprint_reads(size as int),
    ensures
        r@ == hexadecimal(size as nat) + ":"@ + hexadecimal(byte_sum(head@)) + ":"@ + hexadecimal(
            byte_sum(tail@),
        ),
{
    let mut out: Vec<char> = Vec::new();
    extend_chars(&mut out, &hexadecimal_chars(size));
    extend_str(&mut out, ":");
    extend_chars(&mut out, &hexadecimal_chars(sum_of(head)));
    extend_str(&mut out, ":");
    extend_chars(&mut out, &hexadecimal_chars(sum_of(tail)));
    assert(out@ =~= hexadecimal(size as nat) + ":"@ + hexadecimal(byte_sum(head@)) + ":"@
        + hexadecimal(byte_sum(tail@)));
    string_of(&out)
}

/// What kind of program is profiled.
#[derive(Debug, Clone, Copy, PartialEq, Eq, Structural)]
pub enum TargetKind {
    Binary,
    CudaSource,
    Python,
    PythonTorch,
    PythonTriton,
}

/// The kind of a target whose name is `target` and whose text is `content`.
pub open spec fn target_kind(target: Seq<char>, content: Seq<char>) -> TargetKind {
    if text::ends_with(target, ".cu"@) {
        TargetKind::CudaSource
    } else if !text::ends_with(target, ".py"@) {
        TargetKind::Binary
    } else if text::contains(content, "import triton"@) || text::contains(
        content,
        "from triton"@,
    ) {
        TargetKind::PythonTriton
    } else if text::contains(content, "import torch"@) || text::contains(content, "from torch"@) {
        TargetKind::PythonTorch
    } else {
        TargetKind::Python
    }
}

/// The kind of a target. `content` is the text of the file, empty where it
/// cannot be read.
pub fn detect_target(target: &str, content: &str) -> (r: TargetKind)
    ensures
        r == target_kind(target@, content@),
{
    let name = chars_of(target);
    if ends_with_chars(&name, &chars_of(".cu")) {
        return TargetKind::CudaSource;
    }
    if !ends_with_chars(&name, &chars_of(".py")) {
        return TargetKind::Binary;
    }
    let content = chars_of(content);
    if find_chars(&content, &chars_of("import triton"), 0).is_some() || find_chars(
        &content,
        &chars_of("from triton"),
        0,
    ).is_some() {
        TargetKind::PythonTriton
    } else if find_chars(&content, &chars_of("import torch"), 0).is_some() || find_chars(
        &content,
        &chars_of("from torch"),
        0,
    ).is_some() {
        TargetKind::PythonTorch
    } else {
        TargetKind::Python
    }
}

/// The flags for `nvcc`. `-G` already gives line numbers.
pub fn cuda_compile_flags<'a>(output: &'a str, source: &'a str) -> (r: [&'a str; 5])
    ensures
        r@ == seq!["-g", "-G", "-o", output, source],
{
    ["-g", "-G", "-o", output, source]
}

// ---------------------------------------------------------------------------
// The phases
// ---------------------------------------------------------------------------

/// What one collection does, in this order.
#[derive(Debug, Clone, Copy, PartialEq, Eq, Structural)]
pub enum Phase {
    /// The source is compiled first, and the result is the target.
    Compile,
    Timeline,
    DeepMetrics,
    TorchOps,
    ProtonOps,
    OpTimes,
}

/// Deep metrics are collected only of kernels that the timeline found, and
/// operators only of a script that uses a framework.
pub open spec fn phases(kind: TargetKind, found_kernels: bool) -> Seq<Phase> {
    let compile = if kind == TargetKind::CudaSource {
        seq![Phase::Compile]
    } else {
        Seq::empty()
    };
    let deep = if found_kernels {
        seq![Phase::DeepMetrics]
    } else {
        Seq::empty()
    };
    let ops = match kind {
        TargetKind::PythonTorch => seq![Phase::TorchOps],
        TargetKind::PythonTriton => seq![Phase::ProtonOps],
        _ => Seq::empty(),
    };
    compile + seq![Phase::Timeline] + deep + ops + seq![Phase::OpTimes]
}

/// The phase that follows the first `done` phases.
pub fn next_phase(kind: TargetKind, found_kernels: bool, done: usize) -> (r: Option<Phase>)
    ensures
        match r {
            Some(p) => done < phases(kind, found_kernels).len() && p == phases(
                kind,
                found_kernels,
            )[done as int],
            None => done >= phases(kind, found_kernels).len(),
        },
{
    let mut plan: Vec<Phase> = Vec::new();
    if kind == TargetKind::CudaSource {
        plan.push(Phase::Compile);
    }
    plan.push(Phase::Timeline);
    if found_kernels {
        plan.push(Phase::DeepMetrics);
    }
    match kind {
        TargetKind::PythonTorch => {
            plan.push(Phase::TorchOps);
        },
        TargetKind::PythonTriton => {
            plan.push(Phase::ProtonOps);
        },
        _ => {},
    }
    plan.push(Phase::OpTimes);
    assert(plan@ =~= phases(kind, found_kernels));
    if done < plan.len() {
        Some(plan[done])
    } else {
        None
    }
}

/// The layer that a phase fills.
pub fn layer_of(phase: Phase) -> (r: Option<&'static str>)
    ensures
        match (phase, r) {
            (Phase::Timeline, Some(s)) => s@ == "nsys"@,
            (Phase::DeepMetrics, Some(s)) => s@ == "ncu"@,
            (Phase::TorchOps, Some(s)) => s@ == "torch"@,
            (Phase::ProtonOps, Some(s)) => s@ == "proton"@,
            (Phase::Compile, None) => true,
            (Phase::OpTimes, None) => true,
            _ => false,
        },
{
    match phase {
        Phase::Timeline => Some("nsys"),
        Phase::DeepMetrics => Some("ncu"),
        Phase::TorchOps => Some("torch"),
        Phase::ProtonOps => Some("proton"),
        Phase::Compile => None,
        Phase::OpTimes => None,
    }
}

// ---------------------------------------------------------------------------
// Timeline
// ---------------------------------------------------------------------------

fn push_all(out: &mut Vec<String>, args: &[String])
    ensures
        text::texts(final(out)@) == text::texts(old(out)@) + text::texts(args@),
{
    let ghost start = out@;
    let mut i: usize = 0;
    assert(text::texts(out@) =~= text::texts(start) + text::texts(args@).take(0));
    while i < args.len()
        invariant
            i <= args@.len(),
            text::texts(out@) == text::texts(start) + text::texts(args@).take(i as int),
        decreases args@.len() - i,
    {
        let ghost before = out@;
        out.push(args[i].clone());
        assert(text::texts(out@) =~= text::texts(before).push(args@[i as int]@));
        i = i + 1;
        assert(text::texts(out@) =~= text::texts(start) + text::texts(args@).take(i as int));
    }
    assert(text::texts(args@).take(i as int) =~= text::texts(args@));
}

fn push_text(out: &mut Vec<String>, s: &str)
    ensures
        text::texts(final(out)@) == text::texts(old(out)@).push(s@),
{
    let ghost start = out@;
    out.push(s.to_owned());
    assert(text::texts(out@) =~= text::texts(start).push(s@));
}

/// A script runs under the interpreter.
pub open spec fn is_script(kind: TargetKind) -> bool {
    kind == TargetKind::Python || kind == TargetKind::PythonTorch || kind
        == TargetKind::PythonTriton
}

/// The arguments of `nsys` that record a run of the target. Allocations are
/// recorded too.
pub fn nsys_profile_arguments(
    trace_base: &str,
    kind: TargetKind,
    target: &str,
    args: &[String],
) -> (r: Vec<String>)
    ensures
        text::texts(r@) == seq![
            "profile"@,
            "-o"@,
            trace_base@,
            "--force-overwrite=true"@,
            "--cuda-memory-usage=true"@,
        ] + (if is_script(kind) {
            seq!["python3"@]
        } else {
            Seq::empty()
        }) + seq![target@] + text::texts(args@),
{
    let mut out: Vec<String> = Vec::new();
    push_text(&mut out, "profile");
    push_text(&mut out, "-o");
    push_text(&mut out, trace_base);
    push_text(&mut out, "--force-overwrite=true");
    push_text(&mut out, "--cuda-memory-usage=true");
    match kind {
        TargetKind::Python | TargetKind::PythonTorch | TargetKind::PythonTriton => {
            push_text(&mut out, "python3");
        },
        _ => {},
    }
    push_text(&mut out, target);
    push_all(&mut out, args);
    assert(text::texts(out@) =~= seq![
        "profile"@,
        "-o"@,
        trace_base@,
        "--force-overwrite=true"@,
        "--cuda-memory-usage=true"@,
    ] + (if is_script(kind) {
        seq!["python3"@]
    } else {
        Seq::empty()
    }) + seq![target@] + text::texts(args@));
    out
}

/// The arguments of `nsys` that export a recording.
pub fn nsys_export_arguments(sqlite: &str, recording: &str) -> (r: Vec<String>)
    ensures
        text::texts(r@) == seq![
            "export"@,
            "--type"@,
            "sqlite"@,
            "--output"@,
            sqlite@,
            "--force-overwrite=true"@,
            recording@,
        ],
{
    let mut out: Vec<String> = Vec::new();
    push_text(&mut out, "export");
    push_text(&mut out, "--type");
    push_text(&mut out, "sqlite");
    push_text(&mut out, "--output");
    push_text(&mut out, sqlite);
    push_text(&mut out, "--force-overwrite=true");
    push_text(&mut out, recording);
    assert(text::texts(out@) =~= seq![
        "export"@,
        "--type"@,
        "sqlite"@,
        "--output"@,
        sqlite@,
        "--force-overwrite=true"@,
        recording@,
    ]);
    out
}

/// What follows a recording that ended without an error.
#[derive(Debug, Clone, Copy, PartialEq, Eq, Structural)]
pub enum AfterRecording {
    Export,
    /// The recorder left its raw stream and did not import it.
    Import,
    ImporterMissing,
    NothingProduced,
}

/// Some versions of the recorder leave the raw stream behind and still report
/// success. The stream is then imported, once.
pub open spec fn after_recording(
    report: bool,
    stream: bool,
    importer: bool,
    imported: bool,
) -> AfterRecording {
    if report {
        AfterRecording::Export
    } else if imported || !stream {
        AfterRecording::NothingProduced
    } else if importer {
        AfterRecording::Import
    } else {
        AfterRecording::ImporterMissing
    }
}

pub fn decide_after_recording(
    report: bool,
    stream: bool,
    importer: bool,
    imported: bool,
) -> (r: AfterRecording)
    ensures
        r == after_recording(report, stream, importer, imported),
{
    if report {
        AfterRecording::Export
    } else if imported || !stream {
        AfterRecording::NothingProduced
    } else if importer {
        AfterRecording::Import
    } else {
        AfterRecording::ImporterMissing
    }
}

/// An import is asked for only where there is no report, and never twice.
pub proof fn a_stream_is_imported_once(report: bool, stream: bool, importer: bool)
    ensures
        after_recording(report, stream, importer, true) != AfterRecording::Import,
        after_recording(report, stream, importer, false) == AfterRecording::Import ==> !report
            && stream && importer,
{
}

// ---------------------------------------------------------------------------
// Deep metrics
// ---------------------------------------------------------------------------

/// What selects the kernels that `ncu` measures.
pub open spec fn kernel_selection(names: Seq<Seq<char>>) -> Seq<char> {
    "regex:"@ + text::join(names, "|"@)
}

/// The arguments of `ncu` that measure the named kernels.
pub fn ncu_arguments(names: &[String], target: &str, args: &[String]) -> (r: Vec<String>)
    ensures
        text::texts(r@) == seq![
            "--set"@,
            "full"@,
            "--csv"@,
            "--kernel-name"@,
            kernel_selection(text::texts(names@)),
            target@,
        ] + text::texts(args@),
{
    let mut selection: Vec<char> = Vec::new();
    extend_str(&mut selection, "regex:");
    extend_str(&mut selection, join_strings(names, "|").as_str());
    assert(selection@ =~= kernel_selection(text::texts(names@)));
    let mut out: Vec<String> = Vec::new();
    push_text(&mut out, "--set");
    push_text(&mut out, "full");
    push_text(&mut out, "--csv");
    push_text(&mut out, "--kernel-name");
    push_text(&mut out, string_of(&selection).as_str());
    push_text(&mut out, target);
    push_all(&mut out, args);
    assert(text::texts(out@) =~= seq![
        "--set"@,
        "full"@,
        "--csv"@,
        "--kernel-name"@,
        kernel_selection(text::texts(names@)),
        target@,
    ] + text::texts(args@));
    out
}

// ---------------------------------------------------------------------------
// Operators
// ---------------------------------------------------------------------------

/// One character of a Python string in single quotes.
pub open spec fn python_char(c: char) -> Seq<char> {
    if c == '\\' {
        seq!['\\', '\\']
    } else if c == '\'' {
        seq!['\\', '\'']
    } else if c == '\n' {
        seq!['\\', 'n']
    } else if c == '\r' {
        seq!['\\', 'r']
    } else {
        seq![c]
    }
}

pub open spec fn python_chars(s: Seq<char>) -> Seq<char>
    decreases s.len(),
{
    if s.len() == 0 {
        Seq::empty()
    } else {
        python_chars(s.drop_last()) + python_char(s.last())
    }
}

/// `s` as a Python string literal.
pub open spec fn python_literal(s: Seq<char>) -> Seq<char> {
    seq!['\''] + python_chars(s) + seq!['\'']
}

/// `s` as a Python string literal in single quotes.
pub fn escape_python_str(s: &str) -> (r: String)
    ensures
        r@ == python_literal(s@),
{
    let v = chars_of(s);
    let mut out: Vec<char> = Vec::new();
    out.push('\'');
    let mut i: usize = 0;
    assert(out@ =~= seq!['\''] + python_chars(v@.take(0)));
    while i < v.len()
        invariant
            i <= v@.len(),
            out@ == seq!['\''] + python_chars(v@.take(i as int)),
        decreases v@.len() - i,
    {
        assert(v@.take(i + 1).drop_last() =~= v@.take(i as int));
        let ghost before = out@;
        let c = v[i];
        if c == '\\' {
            out.push('\\');
            out.push('\\');
        } else if c == '\'' {
            out.push('\\');
            out.push('\'');
        } else if c == '\n' {
            out.push('\\');
            out.push('n');
        } else if c == '\r' {
            out.push('\\');
            out.push('r');
        } else {
            out.push(c);
        }
        assert(out@ =~= before + python_char(c));
        i = i + 1;
        assert(out@ =~= seq!['\''] + python_chars(v@.take(i as int)));
    }
    assert(v@.take(i as int) =~= v@);
    out.push('\'');
    assert(out@ =~= python_literal(s@));
    string_of(&out)
}

/// What Python reads from the inside of a literal in single quotes, up to the
/// closing quote, and what follows that quote. A line break may not stand in
/// one.
pub open spec fn python_read(t: Seq<char>) -> Option<(Seq<char>, Seq<char>)>
    decreases t.len(),
{
    if t.len() == 0 || t[0] == '\n' || t[0] == '\r' {
        None
    } else if t[0] == '\'' {
        Some((Seq::empty(), t.skip(1)))
    } else if t[0] == '\\' {
        if t.len() < 2 {
            None
        } else {
            let c = if t[1] == 'n' {
                Some('\n')
            } else if t[1] == 'r' {
                Some('\r')
            } else if t[1] == '\\' || t[1] == '\'' {
                Some(t[1])
            } else {
                None
            };
            match (c, python_read(t.skip(2))) {
                (Some(c), Some((s, rest))) => Some((seq![c] + s, rest)),
                _ => None,
            }
        }
    } else {
        match python_read(t.skip(1)) {
            Some((s, rest)) => Some((seq![t[0]] + s, rest)),
            None => None,
        }
    }
}

proof fn python_chars_from_front(s: Seq<char>)
    requires
        s.len() > 0,
    ensures
        python_chars(s) == python_char(s[0]) + python_chars(s.skip(1)),
    decreases s.len(),
{
    if s.len() == 1 {
        assert(s.drop_last() =~= Seq::empty());
        assert(s.skip(1) =~= Seq::empty());
        assert(python_chars(s) =~= python_char(s[0]) + python_chars(s.skip(1)));
    } else {
        python_chars_from_front(s.drop_last());
        assert(s.drop_last().skip(1) =~= s.skip(1).drop_last());
        assert(python_chars(s) =~= python_char(s[0]) + python_chars(s.skip(1)));
    }
}

proof fn python_reads(s: Seq<char>, rest: Seq<char>)
    ensures
        python_read(python_chars(s) + seq!['\''] + rest) == Some((s, rest)),
    decreases s.len(),
{
    let t = python_chars(s) + seq!['\''] + rest;
    if s.len() == 0 {
        assert(t.skip(1) =~= rest);
        assert(s =~= Seq::empty());
    } else {
        python_chars_from_front(s);
        python_reads(s.skip(1), rest);
        let next = python_chars(s.skip(1)) + seq!['\''] + rest;
        assert(t =~= python_char(s[0]) + next);
        assert(seq![s[0]] + s.skip(1) =~= s);
        if python_char(s[0]).len() == 2 {
            assert(t.skip(2) =~= next);
        } else {
            assert(t.skip(1) =~= next);
        }
    }
}

/// Whatever a name holds, Python reads it back from its literal, and nothing
/// of it is read as code.
pub proof fn literals_read_back(s: Seq<char>, rest: Seq<char>)
    ensures
        python_read((python_literal(s) + rest).skip(1)) == Some((s, rest)),
{
    python_reads(s, rest);
    assert((python_literal(s) + rest).skip(1) =~= python_chars(s) + seq!['\''] + rest);
}

pub open spec fn literals(names: Seq<Seq<char>>) -> Seq<Seq<char>> {
    Seq::new(names.len(), |i: int| python_literal(names[i]))
}

/// The script that runs the target under the framework's profiler and writes
/// the trace.
pub open spec fn torch_script(
    target: Seq<char>,
    args: Seq<Seq<char>>,
    trace: Seq<char>,
) -> Seq<char> {
    "import sys, runpy\nsys.argv = ["@ + text::join(literals(seq![target] + args), ", "@)
        + "]\nimport torch\nfrom torch.profiler import profile, ProfilerActivity\nwith profile(\n    activities=[ProfilerActivity.CPU, ProfilerActivity.CUDA],\n    record_shapes=True,\n    with_stack=True,\n) as prof:\n    runpy.run_path("@
        + python_literal(target) + ", run_name='__main__')\nprof.export_chrome_trace("@
        + python_literal(trace) + ")\n"@
}

pub fn torch_wrapper(target: &str, args: &[String], trace: &str) -> (r: String)
    ensures
        r@ == torch_script(target@, text::texts(args@), trace@),
{
    let mut argv: Vec<String> = Vec::new();
    let ghost names = seq![target@] + text::texts(args@);
    argv.push(escape_python_str(target));
    let mut i: usize = 0;
    assert(text::texts(argv@) =~= literals(names).take(1));
    while i < args.len()
        invariant
            i <= args@.len(),
            names == seq![target@] + text::texts(args@),
            text::texts(argv@) == literals(names).take(i + 1),
        decreases args@.len() - i,
    {
        let ghost before = argv@;
        argv.push(escape_python_str(args[i].as_str()));
        assert(names[i + 1] == args@[i as int]@);
        assert(text::texts(argv@) =~= text::texts(before).push(python_literal(names[i + 1])));
        i = i + 1;
        assert(text::texts(argv@) =~= literals(names).take(i + 1));
    }
    assert(literals(names).take(i + 1) =~= literals(names));
    let mut out: Vec<char> = Vec::new();
    extend_str(&mut out, "import sys, runpy\nsys.argv = [");
    extend_str(&mut out, join_strings(&argv, ", ").as_str());
    extend_str(
        &mut out,
        "]\nimport torch\nfrom torch.profiler import profile, ProfilerActivity\nwith profile(\n    activities=[ProfilerActivity.CPU, ProfilerActivity.CUDA],\n    record_shapes=True,\n    with_stack=True,\n) as prof:\n    runpy.run_path(",
    );
    extend_str(&mut out, escape_python_str(target).as_str());
    extend_str(&mut out, ", run_name='__main__')\nprof.export_chrome_trace(");
    extend_str(&mut out, escape_python_str(trace).as_str());
    extend_str(&mut out, ")\n");
    assert(out@ =~= torch_script(target@, text::texts(args@), trace@));
    string_of(&out)
}

// ---------------------------------------------------------------------------
// Laws
// ---------------------------------------------------------------------------

/// Each byte counts once in a sum, whatever its place.
pub proof fn every_byte_counts(a: Seq<u8>, b: Seq<u8>, c: u8)
    ensures
        byte_sum(a + b) == byte_sum(a) + byte_sum(b),
        byte_sum(a.push(c)) == byte_sum(a) + c,
        byte_sum(Seq::empty()) == 0,
    decreases b.len(),
{
    assert(a.push(c).drop_last() == a);
    if b.len() > 0 {
        every_byte_counts(a, b.drop_last(), c);
        assert((a + b).drop_last() == a + b.drop_last());
        assert((a + b).last() == b.last());
    } else {
        assert(a + b == a);
    }
}

/// A number in hexadecimal digits is read back, and has no leading zero.
pub proof fn hexadecimal_is_read_back(n: nat)
    ensures
        text::hex_number(hexadecimal(n)) == n,
        hexadecimal(n).len() > 0,
        n > 0 ==> hexadecimal(n)[0] != '0',
        !hexadecimal(n).contains(':'),
    decreases n,
{
    let s = hexadecimal(n);
    if n < 16 {
        assert(s.drop_last() == Seq::<char>::empty());
        assert(text::hex_number(Seq::<char>::empty()) == 0);
        assert(s.last() == text::hex_digit(n as int, false));
    } else {
        let rest = hexadecimal(n / 16);
        hexadecimal_is_read_back(n / 16);
        assert(s.drop_last() == rest);
        assert(s.last() == text::hex_digit((n % 16) as int, false));
        assert(s[0] == rest[0]);
        if s.contains(':') {
            let k = choose|k: int| 0 <= k < s.len() && s[k] == ':';
            if k < rest.len() {
                assert(rest[k] == ':');
            }
        }
    }
}

/// A file up to the limit is read once, as a whole; of a longer one both ends
/// are read, each up to the limit.
pub proof fn both_ends_of_a_file_are_read(size: int)
    requires
        size >= 0,
    ensures
        size <= 4096 ==> fingerprint_reads(size) == (size, 0int),
        size > 4096 ==> fingerprint_reads(size) == (4096int, 4096int),
{
}

/// Targets are told apart by their size: two files of different sizes have
/// different fingerprints, whatever they hold.
pub proof fn sizes_are_told_apart(m: nat, n: nat, a: Seq<char>, b: Seq<char>)
    requires
        hexadecimal(m) + ":"@ + a == hexadecimal(n) + ":"@ + b,
    ensures
        m == n,
{
    reveal_strlit(":");
    hexadecimal_is_read_back(m);
    hexadecimal_is_read_back(n);
    let p = hexadecimal(m);
    let q = hexadecimal(n);
    let s = p + ":"@ + a;
    let t = q + ":"@ + b;
    assert(s[p.len() as int] == ':');
    assert(t[q.len() as int] == ':');
    if p.len() < q.len() {
        assert(t[p.len() as int] == q[p.len() as int]);
    }
    if q.len() < p.len() {
        assert(s[q.len() as int] == p[q.len() as int]);
    }
    assert(s.take(p.len() as int) == p);
    assert(t.take(q.len() as int) == q);
}

/// The name tells a source, a script and a binary apart, and what a script
/// imports tells its kind.
pub proof fn names_and_imports_tell_the_kind(stem: Seq<char>, content: Seq<char>)
    ensures
        target_kind(stem + ".cu"@, content) == TargetKind::CudaSource,
        is_script(target_kind(stem + ".py"@, content)),
        target_kind(stem + ".py"@, content) == TargetKind::PythonTriton <==> text::contains(
            content,
            "import triton"@,
        ) || text::contains(content, "from triton"@),
        target_kind(stem + ".py"@, content) == TargetKind::PythonTorch <==> (text::contains(
            content,
            "import torch"@,
        ) || text::contains(content, "from torch"@)) && !text::contains(content, "import triton"@)
            && !text::contains(content, "from triton"@),
        !text::ends_with(stem, ".cu"@) && !text::ends_with(stem, ".py"@) ==> target_kind(
            stem,
            content,
        ) == TargetKind::Binary,
{
    reveal_strlit(".cu");
    reveal_strlit(".py");
    let c = stem + ".cu"@;
    let p = stem + ".py"@;
    assert(c.subrange(c.len() - 3, c.len() as int) == ".cu"@);
    assert(p.subrange(p.len() - 3, p.len() as int) == ".py"@);
    if text::ends_with(p, ".cu"@) {
        assert(p.subrange(p.len() - 3, p.len() as int)[1] == 'p');
        assert(".cu"@[1] == 'c');
    }
}

/// A source is compiled first. Every target has its timeline and, at the end,
/// the times of its operators; between them come the metrics of kernels that
/// were found, and the operators of a script that uses a framework.
pub proof fn a_collection_goes_through_its_phases(kind: TargetKind, found: bool)
    ensures
        phases(kind, found).contains(Phase::Compile) <==> kind == TargetKind::CudaSource,
        kind == TargetKind::CudaSource ==> phases(kind, found)[0] == Phase::Compile
            && phases(kind, found)[1] == Phase::Timeline,
        kind != TargetKind::CudaSource ==> phases(kind, found)[0] == Phase::Timeline,
        phases(kind, found).contains(Phase::DeepMetrics) <==> found,
        phases(kind, found).contains(Phase::TorchOps) <==> kind == TargetKind::PythonTorch,
        phases(kind, found).contains(Phase::ProtonOps) <==> kind == TargetKind::PythonTriton,
        phases(kind, found).last() == Phase::OpTimes,
        phases(kind, found).len() <= 4,
{
    let p = phases(kind, found);
    let a = if kind == TargetKind::CudaSource {
        1int
    } else {
        0
    };
    assert(p[a] == Phase::Timeline);
    if kind == TargetKind::CudaSource {
        assert(p[0] == Phase::Compile);
    }
    if found {
        assert(p[a + 1] == Phase::DeepMetrics);
    }
    if kind == TargetKind::PythonTorch {
        assert(p[p.len() - 2] == Phase::TorchOps);
    }
    if kind == TargetKind::PythonTriton {
        assert(p[p.len() - 2] == Phase::ProtonOps);
    }
}

/// What selects kernels names each of them.
pub proof fn every_kernel_is_selected(names: Seq<Seq<char>>, k: int)
    requires
        0 <= k < names.len(),
    ensures
        text::contains(kernel_selection(names), names[k]),
        text::starts_with(kernel_selection(names), "regex:"@),
        names.len() == 1 ==> kernel_selection(names) == "regex:"@ + names[0],
{
    let j = text::join(names, "|"@);
    text::join_holds_each_part(names, "|"@, k);
    text::what_is_found_stands_there(j, names[k]);
    let (a, b) = choose|a: Seq<char>, b: Seq<char>| j == #[trigger] (a + names[k] + b);
    let s = kernel_selection(names);
    assert(s == ("regex:"@ + a) + names[k] + b);
    text::what_is_found_stands_there(s, names[k]);
    assert(s.subrange(0, "regex:"@.len() as int) == "regex:"@);
}

/// The script hands the target and each argument to the program, runs the
/// target, and writes the trace where it is asked for.
pub proof fn the_script_runs_the_target(
    target: Seq<char>,
    args: Seq<Seq<char>>,
    trace: Seq<char>,
    k: int,
)
    requires
        0 <= k < args.len(),
    ensures
        text::contains(torch_script(target, args, trace), python_literal(args[k])),
        text::contains(
            torch_script(target, args, trace),
            "prof.export_chrome_trace("@ + python_literal(trace) + ")"@,
        ),
        text::contains(
            torch_script(target, args, trace),
            python_literal(target) + ", run_name='__main__')"@,
        ),
{
    reveal_strlit(", run_name='__main__')\nprof.export_chrome_trace(");
    reveal_strlit(", run_name='__main__')");
    reveal_strlit("\nprof.export_chrome_trace(");
    reveal_strlit("\n");
    reveal_strlit("prof.export_chrome_trace(");
    reveal_strlit(")\n");
    reveal_strlit(")");
    let s = torch_script(target, args, trace);
    let lits = literals(seq![target] + args);
    let before = "import sys, runpy\nsys.argv = ["@;
    let middle =
        "]\nimport torch\nfrom torch.profiler import profile, ProfilerActivity\nwith profile(\n    activities=[ProfilerActivity.CPU, ProfilerActivity.CUDA],\n    record_shapes=True,\n    with_stack=True,\n) as prof:\n    runpy.run_path("@;
    let j = text::join(lits, ", "@);
    let t = python_literal(target);
    let w = python_literal(trace);
    let run = ", run_name='__main__')"@;
    let export = "prof.export_chrome_trace("@;
    assert(lits[k + 1] == python_literal(args[k])) by {
        assert((seq![target] + args)[k + 1] == args[k]);
    }
    text::join_holds_each_part(lits, ", "@, k + 1);
    text::what_is_found_stands_there(j, lits[k + 1]);
    let (a, b) = choose|a: Seq<char>, b: Seq<char>| j == #[trigger] (a + lits[k + 1] + b);
    let tail = middle + t + ", run_name='__main__')\nprof.export_chrome_trace("@ + w + ")\n"@;
    assert(s == (before + a) + lits[k + 1] + (b + tail));
    text::what_is_found_stands_there(s, lits[k + 1]);
    assert(", run_name='__main__')\nprof.export_chrome_trace("@ == run + "\n"@ + export);
    assert(")\n"@ == ")"@ + "\n"@);
    let e = export + w + ")"@;
    assert(s == (before + j + middle + t + run + "\n"@) + e + "\n"@);
    text::what_is_found_stands_there(s, e);
    let r = t + run;
    assert(s == (before + j + middle) + r + ("\n"@ + export + w + ")\n"@));
    text::what_is_found_stands_there(s, r);
}

} // verus!
