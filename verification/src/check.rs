//! The tools that profiling needs, and what is known to go wrong with them.

use vstd::prelude::*;

use crate::deps;
use crate::deps::{format_results, DepStatus, Dependency, DependencyCheck};
use crate::text;
use crate::text::{
    chars_of, cut, find_chars, is_white_char, lines_of, parse_bounded_chars, same_text,
    starts_with_chars, string_of, trim_chars,
};

verus! {

/// All tools that profiling can use.
pub fn dependencies() -> (r: Vec<Dependency>)
    ensures
        r@.len() == 4,
        r@[0].name@ == "nsys"@,
        r@[0].install@
            == "Install NVIDIA Nsight Systems: https://developer.nvidia.com/nsight-systems"@,
        r@[1].name@ == "ncu"@,
        r@[1].install@
            == "Install NVIDIA Nsight Compute: https://developer.nvidia.com/nsight-compute"@,
        r@[2].name@ == "python3"@,
        r@[2].install@ == "https://python.org or: sudo apt install python3"@,
        r@[3].name@ == "nvcc"@,
        r@[3].install@
            == "Install CUDA toolkit: https://developer.nvidia.com/cuda-downloads"@,
        forall|i: int| 0 <= i < 4 ==> is_binary_check(#[trigger] r@[i], i == 2),
{
    let mut v: Vec<Dependency> = Vec::new();
    v.push(
        Dependency {
            name: "nsys",
            check: DependencyCheck::Binary {
                name: "nsys",
                alternatives: &["nsys"],
                version_cmd: None,
            },
            install: "Install NVIDIA Nsight Systems: https://developer.nvidia.com/nsight-systems",
        },
    );
    v.push(
        Dependency {
            name: "ncu",
            check: DependencyCheck::Binary {
                name: "ncu",
                alternatives: &["ncu"],
                version_cmd: None,
            },
            install: "Install NVIDIA Nsight Compute: https://developer.nvidia.com/nsight-compute",
        },
    );
    v.push(
        Dependency {
            name: "python3",
            check: DependencyCheck::Binary {
                name: "python3",
                alternatives: &["python3"],
                version_cmd: Some(("python3", &["--version"])),
            },
            install: "https://python.org or: sudo apt install python3",
        },
    );
    v.push(
        Dependency {
            name: "nvcc",
            check: DependencyCheck::Binary {
                name: "nvcc",
                alternatives: &["nvcc"],
                version_cmd: None,
            },
            install: "Install CUDA toolkit: https://developer.nvidia.com/cuda-downloads",
        },
    );
    v
}

/// The dependency is a binary of its own name. Where it is also run, it is
/// asked for its version.
pub open spec fn is_binary_check(d: Dependency, runs: bool) -> bool {
    match d.check {
        DependencyCheck::Binary { name, alternatives, version_cmd } => {
            &&& name@ == d.name@
            &&& alternatives@.len() == 1
            &&& alternatives@[0]@ == d.name@
            &&& match version_cmd {
                Some((program, args)) => runs && program@ == d.name@ && args@.len() == 1
                    && args@[0]@ == "--version"@,
                None => !runs,
            }
        },
        DependencyCheck::Command { .. } => false,
    }
}

// ---------------------------------------------------------------------------
// What the tools say
// ---------------------------------------------------------------------------

pub open spec fn is_token_end(c: char) -> bool {
    text::is_white(c) || c == ','
}

/// Where the token that begins at `i` ends.
pub open spec fn token_end(s: Seq<char>, i: int) -> int
    decreases s.len() - i,
{
    if i < 0 || i >= s.len() || is_token_end(s[i]) {
        i
    } else {
        token_end(s, i + 1)
    }
}

pub open spec fn without_v(s: Seq<char>) -> Seq<char>
    decreases s.len(),
{
    if s.len() > 0 && s[0] == 'v' {
        without_v(s.skip(1))
    } else {
        s
    }
}

/// The release year that a token such as `2023.4.4.54` begins with.
pub open spec fn token_year(token: Seq<char>) -> Option<int> {
    let s = without_v(token);
    let head = match text::find(s, "."@) {
        Some(i) => s.take(i),
        None => s,
    };
    match text::parse_unsigned(head, u32::MAX as int) {
        Some(n) => if 2019 <= n <= 2099 {
            Some(n)
        } else {
            None
        },
        None => None,
    }
}

/// The year of the first token from position `i` on that has one.
pub open spec fn year_from(s: Seq<char>, i: int) -> Option<int>
    decreases s.len() + 1 - i,
{
    if i < 0 || i > s.len() {
        None
    } else {
        let e = token_end(s, i);
        match token_year(s.subrange(i, e)) {
            Some(n) => Some(n),
            None => if i <= e < s.len() {
                year_from(s, e + 1)
            } else {
                None
            },
        }
    }
}

fn token_year_of(token: &[char]) -> (r: Option<u32>)
    ensures
        match r {
            Some(n) => token_year(token@) == Some(n as int),
            None => token_year(token@) is None,
        },
{
    let mut i: usize = 0;
    let n: usize = token.len();
    assert(token@.skip(0) =~= token@);
    while i < n && token[i] == 'v'
        invariant
            i <= n,
            n == token@.len(),
            without_v(token@) == without_v(token@.skip(i as int)),
        decreases n - i,
    {
        assert(token@.skip(i as int).skip(1) =~= token@.skip(i + 1));
        i = i + 1;
    }
    let s = cut(token, i, n);
    assert(s@ =~= without_v(token@));
    proof {
        reveal_strlit(".");
    }
    let head: Vec<char> = match find_chars(&s, &chars_of("."), 0) {
        Some(k) => {
            let h = cut(&s, 0, k);
            assert(h@ =~= s@.take(k as int));
            h
        },
        None => s,
    };
    match parse_bounded_chars(&head, u32::MAX as u64) {
        Some(n) => if 2019 <= n && n <= 2099 {
            Some(n as u32)
        } else {
            None
        },
        None => None,
    }
}

/// The release year in what `nsys --version` prints, such as 2023 in
/// `Version 2023.4.4.54-234412822800v0`.
pub fn nsys_major_version(output: &str) -> (r: Option<u32>)
    ensures
        match r {
            Some(n) => year_from(output@, 0) == Some(n as int),
            None => year_from(output@, 0) is None,
        },
{
    let s = chars_of(output);
    let n: usize = s.len();
    let mut start: usize = 0;
    loop
        invariant
            start <= n,
            n == s@.len(),
            s@ == output@,
            year_from(output@, 0) == year_from(output@, start as int),
        decreases n - start,
    {
        let mut e: usize = start;
        while e < n && !(is_white_char(s[e]) || s[e] == ',')
            invariant
                start <= e <= n,
                n == s@.len(),
                token_end(s@, start as int) == token_end(s@, e as int),
            decreases n - e,
        {
            e = e + 1;
        }
        let token = cut(&s, start, e);
        if let Some(year) = token_year_of(&token) {
            return Some(year);
        }
        if e == n {
            return None;
        }
        start = e + 1;
    }
}

/// The value of the first line that begins with `prefix`, from line `k` on.
pub open spec fn first_setting(lines: Seq<Seq<char>>, prefix: Seq<char>, k: int) -> Option<
    Seq<char>,
>
    decreases lines.len() - k,
{
    if k < 0 || k >= lines.len() {
        None
    } else if text::starts_with(lines[k], prefix) {
        Some(text::trim(lines[k].skip(prefix.len() as int)))
    } else {
        first_setting(lines, prefix, k + 1)
    }
}

/// The driver's parameters keep the performance counters for the
/// administrator. Parameters that cannot be read restrict nothing.
pub fn gpu_profiling_restricted(params: Option<&str>) -> (r: bool)
    ensures
        r == match params {
            Some(p) => first_setting(text::lines(p@), "RmProfilingAdminOnly:"@, 0) == Some("1"@),
            None => false,
        },
{
    let p: &str = match params {
        Some(p) => p,
        None => {
            return false;
        },
    };
    let prefix = chars_of("RmProfilingAdminOnly:");
    let lines = lines_of(&chars_of(p));
    let mut k: usize = 0;
    while k < lines.len()
        invariant
            k <= lines@.len(),
            text::pieces(lines@) == text::lines(p@),
            params == Some(p),
            prefix@ == "RmProfilingAdminOnly:"@,
            first_setting(text::lines(p@), prefix@, 0) == first_setting(
                text::lines(p@),
                prefix@,
                k as int,
            ),
        decreases lines@.len() - k,
    {
        assert(text::lines(p@)[k as int] == lines@[k as int]@);
        if starts_with_chars(&lines[k], &prefix) {
            let rest = cut(&lines[k], prefix.len(), lines[k].len());
            assert(rest@ =~= lines@[k as int]@.skip(prefix@.len() as int));
            return same_text(string_of(&trim_chars(&rest)).as_str(), "1");
        }
        k = k + 1;
    }
    false
}

// ---------------------------------------------------------------------------
// The report
// ---------------------------------------------------------------------------

pub open spec fn counters_warning() -> Seq<char> {
    "GPU performance counters restricted to admin. ncu will fail.\n    fix: sudo modprobe nvidia NVreg_RestrictProfilingToAdminUsers=0\n    persist: echo 'options nvidia NVreg_RestrictProfilingToAdminUsers=0' | sudo tee /etc/modprobe.d/nvidia-perf.conf"@
}

pub open spec fn importer_warning() -> Seq<char> {
    "nsys 2023.x has a silent QdstrmImporter bug and the helper is not locatable.\n    GPU profiling will capture data but fail to produce trace.nsys-rep.\n    fix: repair nsight-systems Qt runtime deps, or upgrade to nsys 2024+ (importer built in)."@
}

/// The first status of a tool that is there, from position `k` on.
pub open spec fn working(statuses: Seq<DepStatus>, name: Seq<char>, k: int) -> Option<int>
    decreases statuses.len() - k,
{
    if k < 0 || k >= statuses.len() {
        None
    } else if statuses[k].name@ == name && statuses[k].ok {
        Some(k)
    } else {
        working(statuses, name, k + 1)
    }
}

fn position_of_working(statuses: &[DepStatus], name: &str) -> (r: Option<usize>)
    ensures
        match r {
            Some(k) => working(statuses@, name@, 0) == Some(k as int) && k < statuses@.len(),
            None => working(statuses@, name@, 0) is None,
        },
{
    let mut k: usize = 0;
    while k < statuses.len()
        invariant
            k <= statuses@.len(),
            working(statuses@, name@, 0) == working(statuses@, name@, k as int),
        decreases statuses@.len() - k,
    {
        if same_text(statuses[k].name, name) && statuses[k].ok {
            return Some(k);
        }
        k = k + 1;
    }
    None
}

/// All but the warning is as it was.
pub open spec fn same_status(a: DepStatus, b: DepStatus) -> bool {
    a.name@ == b.name@ && a.ok == b.ok && a.detail@ == b.detail@ && a.install@ == b.install@
}

/// The warning that stands at a tool after the checks: `ncu` is warned about
/// where the counters are restricted, `nsys` where it is of 2023 and its
/// importer is not found.
pub open spec fn warning_at(
    statuses: Seq<DepStatus>,
    restricted: bool,
    version: Option<u32>,
    importer: bool,
    k: int,
) -> Option<Seq<char>> {
    if version == Some(2023u32) && !importer && working(statuses, "nsys"@, 0) == Some(k) {
        Some(importer_warning())
    } else if restricted && working(statuses, "ncu"@, 0) == Some(k) {
        Some(counters_warning())
    } else {
        match statuses[k].warning {
            Some(w) => Some(w@),
            None => None,
        }
    }
}

fn set_warning(statuses: &mut Vec<DepStatus>, k: usize, warning: &str)
    requires
        k < old(statuses)@.len(),
    ensures
        final(statuses)@.len() == old(statuses)@.len(),
        forall|i: int|
            0 <= i < old(statuses)@.len() && i != k ==> #[trigger] final(statuses)@[i] == old(
                statuses,
            )@[i],
        same_status(final(statuses)@[k as int], old(statuses)@[k as int]),
        final(statuses)@[k as int].warning is Some,
        final(statuses)@[k as int].warning->0@ == warning@,
{
    let status = DepStatus {
        name: statuses[k].name,
        ok: statuses[k].ok,
        detail: statuses[k].detail.clone(),
        install: statuses[k].install,
        warning: Some(warning.to_owned()),
    };
    statuses.set(k, status);
}

/// Adds to the results of the checks what is known to go wrong with tools that
/// are there. `restricted` says that the counters are kept for the
/// administrator, `version` is the release year of `nsys` and `importer` says
/// that its importer was found.
pub fn check_all(
    statuses: Vec<DepStatus>,
    restricted: bool,
    version: Option<u32>,
    importer: bool,
) -> (r: Vec<DepStatus>)
    ensures
        r@.len() == statuses@.len(),
        forall|i: int|
            0 <= i < r@.len() ==> {
                &&& same_status(#[trigger] r@[i], statuses@[i])
                &&& match r@[i].warning {
                    Some(w) => warning_at(statuses@, restricted, version, importer, i) == Some(w@),
                    None => warning_at(statuses@, restricted, version, importer, i) is None,
                }
            },
{
    let mut out = statuses;
    let ncu = position_of_working(&out, "ncu");
    let nsys = position_of_working(&out, "nsys");
    if restricted {
        if let Some(k) = ncu {
            set_warning(
                &mut out,
                k,
                "GPU performance counters restricted to admin. ncu will fail.\n    fix: sudo modprobe nvidia NVreg_RestrictProfilingToAdminUsers=0\n    persist: echo 'options nvidia NVreg_RestrictProfilingToAdminUsers=0' | sudo tee /etc/modprobe.d/nvidia-perf.conf",
            );
        }
    }
    if let Some(k) = nsys {
        if let Some(v) = version {
            if v == 2023 && !importer {
                set_warning(
                    &mut out,
                    k,
                    "nsys 2023.x has a silent QdstrmImporter bug and the helper is not locatable.\n    GPU profiling will capture data but fail to produce trace.nsys-rep.\n    fix: repair nsight-systems Qt runtime deps, or upgrade to nsys 2024+ (importer built in).",
                );
            }
        }
    }
    out
}

/// The first status under a name, from position `k` on.
pub open spec fn named(statuses: Seq<DepStatus>, name: Seq<char>, k: int) -> Option<int>
    decreases statuses.len() - k,
{
    if k < 0 || k >= statuses.len() {
        None
    } else if statuses[k].name@ == name {
        Some(k)
    } else {
        named(statuses, name, k + 1)
    }
}

/// The report, where the tool that profiling cannot do without is missing.
pub fn check_minimum(results: &[(&str, Vec<DepStatus>)]) -> (r: Option<String>)
    requires
        results@.len() > 0,
        named(results@[0].1@, "nsys"@, 0) is Some,
    ensures
        ({
            let statuses = results@[0].1@;
            let nsys = statuses[named(statuses, "nsys"@, 0)->0];
            match r {
                Some(t) => !nsys.ok && t@ == deps::results_text(results@),
                None => nsys.ok,
            }
        }),
{
    let statuses = &results[0].1;
    let n: usize = statuses.len();
    let mut k: usize = 0;
    while !same_text(statuses[k].name, "nsys")
        invariant
            k < n,
            n == statuses@.len(),
            named(statuses@, "nsys"@, 0) is Some,
            named(statuses@, "nsys"@, 0) == named(statuses@, "nsys"@, k as int),
        decreases statuses@.len() - k,
    {
        k = k + 1;
        assert(named(statuses@, "nsys"@, k as int) is Some);
    }
    if statuses[k].ok {
        None
    } else {
        Some(format_results(results))
    }
}

// ---------------------------------------------------------------------------
// Laws
// ---------------------------------------------------------------------------

proof fn a_dot_behind(head: Seq<char>, rest: Seq<char>)
    requires
        text::all_digits(head),
    ensures
        text::find(head + "."@ + rest, "."@) == Some(head.len() as int),
        text::find(head, "."@) is None,
{
    reveal_strlit(".");
    let s = head + "."@ + rest;
    let n = head.len() as int;
    assert(s.subrange(n, n + 1) == "."@);
    assert forall|j: int| 0 <= j < n implies !text::occurs_at(s, "."@, j) by {
        if text::occurs_at(s, "."@, j) {
            assert(s.subrange(j, j + 1)[0] == s[j]);
            assert(s[j] == head[j]);
            assert(text::is_digit(head[j]));
        }
    }
    text::first_is_find_from(s, "."@, 0, n);
    text::find_from_is_first(head, "."@, 0);
    if text::find(head, "."@) is Some {
        let i = text::find(head, "."@)->0;
        assert(head.subrange(i, i + 1)[0] == head[i]);
        assert(text::is_digit(head[i]));
    }
}

/// A release begins with its year, with or without a `v` before it. A number
/// that is no year from 2019 to 2099 makes no release.
pub proof fn a_release_begins_with_its_year(year: u32, rest: Seq<char>)
    ensures
        token_year(text::decimal(year as nat) + "."@ + rest) == if 2019 <= year <= 2099 {
            Some(year as int)
        } else {
            None
        },
        token_year("v"@ + text::decimal(year as nat) + "."@ + rest) == token_year(
            text::decimal(year as nat) + "."@ + rest,
        ),
        token_year(text::decimal(year as nat)) == if 2019 <= year <= 2099 {
            Some(year as int)
        } else {
            None
        },
{
    reveal_strlit("v");
    let d = text::decimal(year as nat);
    text::number_of_decimal(year as nat);
    text::parse_of_decimal(year as nat, u32::MAX as int);
    a_dot_behind(d, rest);
    let s = d + "."@ + rest;
    assert(s[0] == d[0]);
    assert(text::is_digit(d[0]));
    assert(s.take(d.len() as int) == d);
    let v = "v"@ + d + "."@ + rest;
    assert(v[0] == 'v');
    assert(v.skip(1) == s);
}

proof fn a_token_ends(s: Seq<char>, i: int, e: int)
    requires
        0 <= i <= e <= s.len(),
        forall|j: int| i <= j < e ==> !is_token_end(#[trigger] s[j]),
        e < s.len() ==> is_token_end(s[e]),
    ensures
        token_end(s, i) == e,
    decreases e - i,
{
    if i < e {
        a_token_ends(s, i + 1, e);
    }
}

proof fn tokens_behind(a: Seq<char>, s: Seq<char>, i: int)
    requires
        0 <= i <= s.len(),
    ensures
        token_end(a + s, a.len() + i) == a.len() + token_end(s, i),
        i <= token_end(s, i) <= s.len(),
    decreases s.len() - i,
{
    if i < s.len() {
        assert((a + s)[a.len() + i] == s[i]);
        if !is_token_end(s[i]) {
            tokens_behind(a, s, i + 1);
        }
    }
}

proof fn years_behind(a: Seq<char>, s: Seq<char>, i: int)
    requires
        0 <= i <= s.len(),
    ensures
        year_from(a + s, a.len() + i) == year_from(s, i),
    decreases s.len() + 1 - i,
{
    tokens_behind(a, s, i);
    let e = token_end(s, i);
    assert((a + s).subrange(a.len() + i, a.len() + e) == s.subrange(i, e));
    if i <= e < s.len() && token_year(s.subrange(i, e)) is None {
        years_behind(a, s, e + 1);
    }
}

/// The first word, parted by white space or commas, that is a release gives
/// the year; a word that is none is passed over.
pub proof fn the_first_release_gives_the_year(word: Seq<char>, gap: char, rest: Seq<char>)
    requires
        forall|j: int|
            0 <= j < word.len() ==> !text::is_white(#[trigger] word[j]) && word[j] != ',',
        text::is_white(gap) || gap == ',',
    ensures
        token_year(word) is Some ==> year_from(word + seq![gap] + rest, 0) == token_year(word),
        token_year(word) is None ==> year_from(word + seq![gap] + rest, 0) == year_from(rest, 0),
        year_from(word, 0) == token_year(word),
{
    let s = word + seq![gap] + rest;
    let n = word.len() as int;
    assert forall|j: int| 0 <= j < n implies !is_token_end(#[trigger] s[j]) by {
        assert(s[j] == word[j]);
    }
    assert(s[n] == gap);
    a_token_ends(s, 0, n);
    assert(s.subrange(0, n) == word);
    years_behind(word + seq![gap], rest, 0);
    assert(s == (word + seq![gap]) + rest);
    a_token_ends(word, 0, n);
    assert(word.subrange(0, n) == word);
}

/// The first line of a setting gives its value, without white space round it.
pub proof fn the_first_line_of_a_setting_counts(
    lines: Seq<Seq<char>>,
    prefix: Seq<char>,
    value: Seq<char>,
    i: int,
    k: int,
)
    requires
        0 <= i <= k < lines.len(),
        forall|j: int| i <= j < k ==> !text::starts_with(#[trigger] lines[j], prefix),
        lines[k] == prefix + value,
    ensures
        first_setting(lines, prefix, i) == Some(text::trim(value)),
    decreases k - i,
{
    if i < k {
        the_first_line_of_a_setting_counts(lines, prefix, value, i + 1, k);
    } else {
        assert(lines[k].subrange(0, prefix.len() as int) == prefix);
        assert(lines[k].skip(prefix.len() as int) == value);
    }
}

proof fn working_is_first(statuses: Seq<DepStatus>, name: Seq<char>, k: int)
    requires
        0 <= k,
    ensures
        working(statuses, name, k) matches Some(i) ==> k <= i < statuses.len()
            && statuses[i].name@ == name && statuses[i].ok,
        working(statuses, name, k) is None ==> forall|i: int|
            k <= i < statuses.len() ==> !((#[trigger] statuses[i]).name@ == name && statuses[i].ok),
    decreases statuses.len() - k,
{
    if k < statuses.len() {
        working_is_first(statuses, name, k + 1);
    }
}

/// A warning is added only to a tool that is there, and only to the one that it
/// is about: to `ncu` where the counters are restricted, to `nsys` of 2023
/// without its importer. Any other tool keeps the warning that it had.
pub proof fn warnings_go_to_the_tools_they_are_about(
    statuses: Seq<DepStatus>,
    restricted: bool,
    version: Option<u32>,
    importer: bool,
    k: int,
)
    requires
        0 <= k < statuses.len(),
    ensures
        warning_at(statuses, restricted, version, importer, k) != text::opt_text(
            statuses[k].warning,
        ) ==> statuses[k].ok && (statuses[k].name@ == "ncu"@ && restricted || statuses[k].name@
            == "nsys"@ && version == Some(2023u32) && !importer),
        !restricted && importer ==> warning_at(statuses, restricted, version, importer, k)
            == text::opt_text(statuses[k].warning),
        !restricted && version != Some(2023u32) ==> warning_at(
            statuses,
            restricted,
            version,
            importer,
            k,
        ) == text::opt_text(statuses[k].warning),
{
    working_is_first(statuses, "nsys"@, 0);
    working_is_first(statuses, "ncu"@, 0);
}

/// A tool that is there, and is the only one of its name, gets the warning that
/// is due.
pub proof fn a_warning_that_is_due_is_given(
    statuses: Seq<DepStatus>,
    version: Option<u32>,
    importer: bool,
    k: int,
)
    requires
        0 <= k < statuses.len(),
        statuses[k].ok,
        forall|i: int|
            0 <= i < statuses.len() && i != k ==> (#[trigger] statuses[i]).name@
                != statuses[k].name@,
    ensures
        statuses[k].name@ == "ncu"@ ==> warning_at(statuses, true, version, importer, k) == Some(
            counters_warning(),
        ),
        statuses[k].name@ == "nsys"@ ==> warning_at(statuses, true, Some(2023u32), false, k)
            == Some(importer_warning()),
{
    reveal_strlit("nsys");
    reveal_strlit("ncu");
    assert("nsys"@.len() == 4 && "ncu"@.len() == 3);
    working_is_first(statuses, "nsys"@, 0);
    working_is_first(statuses, "ncu"@, 0);
}

/// The first status of a name counts.
pub proof fn the_first_status_of_a_name_counts(
    statuses: Seq<DepStatus>,
    name: Seq<char>,
    i: int,
    k: int,
)
    requires
        0 <= i <= k <= statuses.len(),
        forall|j: int| i <= j < k ==> (#[trigger] statuses[j]).name@ != name,
        k < statuses.len() ==> statuses[k].name@ == name,
    ensures
        named(statuses, name, i) == if k < statuses.len() {
            Some(k)
        } else {
            None
        },
    decreases k - i,
{
    if i < k {
        the_first_status_of_a_name_counts(statuses, name, i + 1, k);
    }
}

} // verus!
