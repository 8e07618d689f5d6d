//! The commands of the profiler: how it is called and what its prompt reads.

use vstd::prelude::*;

use crate::text;
use crate::text::{chars_of, same_text, string_of, words_of};

verus! {

/// What a line at the prompt asks for.
#[derive(Debug, Clone, Copy, PartialEq, Eq, Structural)]
pub enum ReplCommand {
    Quit,
    Help,
    Stats,
    Kernels,
    Ops,
    Inspect,
    Bound,
    Roofline,
    Occupancy,
    Transfers,
    Gaps,
    Overlap,
    Streams,
    Timeline,
    Trace,
    Callers,
    Layers,
    Suggest,
    Save,
    List,
    Diff,
    Focus,
    Ignore,
    Region,
    Reset,
    Variance,
    Warmup,
    Small,
    Fuse,
    Concurrency,
    Hotpath,
    CompareOps,
    TopOps,
    Breakdown,
    IdleBetween,
    Unknown,
}

/// The command under a name.
pub open spec fn command_named(w: Seq<char>) -> ReplCommand {
    if w == "quit"@ || w == "exit"@ || w == "q"@ {
        ReplCommand::Quit
    } else if w == "help"@ || w == "h"@ || w == "?"@ {
        ReplCommand::Help
    } else if w == "stats"@ {
        ReplCommand::Stats
    } else if w == "kernels"@ || w == "k"@ {
        ReplCommand::Kernels
    } else if w == "ops"@ {
        ReplCommand::Ops
    } else if w == "inspect"@ || w == "i"@ {
        ReplCommand::Inspect
    } else if w == "bound"@ {
        ReplCommand::Bound
    } else if w == "roofline"@ || w == "roof"@ {
        ReplCommand::Roofline
    } else if w == "occupancy"@ || w == "occ"@ {
        ReplCommand::Occupancy
    } else if w == "transfers"@ || w == "xfer"@ {
        ReplCommand::Transfers
    } else if w == "gaps"@ {
        ReplCommand::Gaps
    } else if w == "overlap"@ {
        ReplCommand::Overlap
    } else if w == "streams"@ {
        ReplCommand::Streams
    } else if w == "timeline"@ || w == "tl"@ {
        ReplCommand::Timeline
    } else if w == "trace"@ {
        ReplCommand::Trace
    } else if w == "callers"@ {
        ReplCommand::Callers
    } else if w == "layers"@ {
        ReplCommand::Layers
    } else if w == "suggest"@ {
        ReplCommand::Suggest
    } else if w == "save"@ {
        ReplCommand::Save
    } else {
        late_command_named(w)
    }
}

/// The command under a name, of those that manage, filter and compare.
pub open spec fn late_command_named(w: Seq<char>) -> ReplCommand {
    if w == "list"@ || w == "ls"@ {
        ReplCommand::List
    } else if w == "diff"@ {
        ReplCommand::Diff
    } else if w == "focus"@ {
        ReplCommand::Focus
    } else if w == "ignore"@ {
        ReplCommand::Ignore
    } else if w == "region"@ {
        ReplCommand::Region
    } else if w == "reset"@ {
        ReplCommand::Reset
    } else if w == "variance"@ || w == "var"@ {
        ReplCommand::Variance
    } else if w == "warmup"@ {
        ReplCommand::Warmup
    } else if w == "small"@ {
        ReplCommand::Small
    } else if w == "fuse"@ {
        ReplCommand::Fuse
    } else if w == "concurrency"@ || w == "conc"@ {
        ReplCommand::Concurrency
    } else if w == "hotpath"@ || w == "hot"@ {
        ReplCommand::Hotpath
    } else if w == "compare-ops"@ || w == "cmp"@ {
        ReplCommand::CompareOps
    } else if w == "top-ops"@ || w == "top"@ {
        ReplCommand::TopOps
    } else if w == "breakdown"@ || w == "br"@ {
        ReplCommand::Breakdown
    } else if w == "idle-between"@ || w == "idle"@ {
        ReplCommand::IdleBetween
    } else {
        ReplCommand::Unknown
    }
}

fn late_command(w: &str) -> (r: ReplCommand)
    ensures
        r == late_command_named(w@),
{
    if same_text(w, "list") || same_text(w, "ls") {
        ReplCommand::List
    } else if same_text(w, "diff") {
        ReplCommand::Diff
    } else if same_text(w, "focus") {
        ReplCommand::Focus
    } else if same_text(w, "ignore") {
        ReplCommand::Ignore
    } else if same_text(w, "region") {
        ReplCommand::Region
    } else if same_text(w, "reset") {
        ReplCommand::Reset
    } else if same_text(w, "variance") || same_text(w, "var") {
        ReplCommand::Variance
    } else if same_text(w, "warmup") {
        ReplCommand::Warmup
    } else if same_text(w, "small") {
        ReplCommand::Small
    } else if same_text(w, "fuse") {
        ReplCommand::Fuse
    } else if same_text(w, "concurrency") || same_text(w, "conc") {
        ReplCommand::Concurrency
    } else if same_text(w, "hotpath") || same_text(w, "hot") {
        ReplCommand::Hotpath
    } else if same_text(w, "compare-ops") || same_text(w, "cmp") {
        ReplCommand::CompareOps
    } else if same_text(w, "top-ops") || same_text(w, "top") {
        ReplCommand::TopOps
    } else if same_text(w, "breakdown") || same_text(w, "br") {
        ReplCommand::Breakdown
    } else if same_text(w, "idle-between") || same_text(w, "idle") {
        ReplCommand::IdleBetween
    } else {
        ReplCommand::Unknown
    }
}

fn command_of(w: &str) -> (r: ReplCommand)
    ensures
        r == command_named(w@),
{
    if same_text(w, "quit") || same_text(w, "exit") || same_text(w, "q") {
        ReplCommand::Quit
    } else if same_text(w, "help") || same_text(w, "h") || same_text(w, "?") {
        ReplCommand::Help
    } else if same_text(w, "stats") {
        ReplCommand::Stats
    } else if same_text(w, "kernels") || same_text(w, "k") {
        ReplCommand::Kernels
    } else if same_text(w, "ops") {
        ReplCommand::Ops
    } else if same_text(w, "inspect") || same_text(w, "i") {
        ReplCommand::Inspect
    } else if same_text(w, "bound") {
        ReplCommand::Bound
    } else if same_text(w, "roofline") || same_text(w, "roof") {
        ReplCommand::Roofline
    } else if same_text(w, "occupancy") || same_text(w, "occ") {
        ReplCommand::Occupancy
    } else if same_text(w, "transfers") || same_text(w, "xfer") {
        ReplCommand::Transfers
    } else if same_text(w, "gaps") {
        ReplCommand::Gaps
    } else if same_text(w, "overlap") {
        ReplCommand::Overlap
    } else if same_text(w, "streams") {
        ReplCommand::Streams
    } else if same_text(w, "timeline") || same_text(w, "tl") {
        ReplCommand::Timeline
    } else if same_text(w, "trace") {
        ReplCommand::Trace
    } else if same_text(w, "callers") {
        ReplCommand::Callers
    } else if same_text(w, "layers") {
        ReplCommand::Layers
    } else if same_text(w, "suggest") {
        ReplCommand::Suggest
    } else if same_text(w, "save") {
        ReplCommand::Save
    } else {
        late_command(w)
    }
}

/// Reads a line: the command, its name as it was written, and its arguments.
/// A blank line asks for nothing.
pub fn read_line(line: &str) -> (r: Option<(ReplCommand, String, Vec<String>)>)
    ensures
        ({
            let words = text::words(line@);
            match r {
                Some((command, name, args)) => {
                    &&& words.len() > 0
                    &&& command == command_named(words[0])
                    &&& name@ == words[0]
                    &&& text::texts(args@) == words.skip(1)
                },
                None => words.len() == 0,
            }
        }),
{
    let words = words_of(&chars_of(line));
    let ghost all = text::words(line@);
    assert(text::pieces(words@) == all);
    if words.len() == 0 {
        return None;
    }
    let name = string_of(&words[0]);
    assert(all[0] == words@[0]@);
    let mut args: Vec<String> = Vec::new();
    let mut i: usize = 1;
    assert(text::texts(args@) =~= all.subrange(1, 1));
    while i < words.len()
        invariant
            1 <= i <= words@.len(),
            text::pieces(words@) == all,
            text::texts(args@) == all.subrange(1, i as int),
        decreases words@.len() - i,
    {
        let ghost before = args@;
        args.push(string_of(&words[i]));
        assert(all[i as int] == words@[i as int]@);
        assert(text::texts(args@) =~= text::texts(before).push(all[i as int]));
        i = i + 1;
        assert(text::texts(args@) =~= all.subrange(1, i as int));
    }
    assert(all.subrange(1, i as int) =~= all.skip(1));
    Some((command_of(name.as_str()), name, args))
}

/// What the profiler is called for.
#[derive(Debug, Clone, Copy, PartialEq, Eq, Structural)]
pub enum Invocation {
    Usage,
    List,
    Diff,
    DiffUsage,
    Check,
    From,
    FromUsage,
    Profile,
}

/// What the arguments ask for.
pub open spec fn invocation(args: Seq<Seq<char>>) -> Invocation {
    if args.len() == 0 {
        Invocation::Usage
    } else if args[0] == "list"@ || args[0] == "ls"@ {
        Invocation::List
    } else if args[0] == "diff"@ {
        if args.len() < 3 {
            Invocation::DiffUsage
        } else {
            Invocation::Diff
        }
    } else if args[0] == "check"@ {
        Invocation::Check
    } else if args[0] == "--from"@ {
        if args.len() < 2 {
            Invocation::FromUsage
        } else {
            Invocation::From
        }
    } else if args[0] == "help"@ || args[0] == "--help"@ || args[0] == "-h"@ {
        Invocation::Usage
    } else {
        Invocation::Profile
    }
}

pub fn read_arguments(args: &[String]) -> (r: Invocation)
    ensures
        r == invocation(text::texts(args@)),
{
    if args.len() == 0 {
        return Invocation::Usage;
    }
    assert(text::texts(args@)[0] == args@[0]@);
    let w: &str = args[0].as_str();
    if same_text(w, "list") || same_text(w, "ls") {
        Invocation::List
    } else if same_text(w, "diff") {
        if args.len() < 3 {
            Invocation::DiffUsage
        } else {
            Invocation::Diff
        }
    } else if same_text(w, "check") {
        Invocation::Check
    } else if same_text(w, "--from") {
        if args.len() < 2 {
            Invocation::FromUsage
        } else {
            Invocation::From
        }
    } else if same_text(w, "help") || same_text(w, "--help") || same_text(w, "-h") {
        Invocation::Usage
    } else {
        Invocation::Profile
    }
}

// ---------------------------------------------------------------------------
// Laws
// ---------------------------------------------------------------------------

/// A word that names a command.
pub open spec fn is_command_word(w: Seq<char>) -> bool {
    w == "quit"@
        || w == "exit"@
        || w == "q"@
        || w == "help"@
        || w == "h"@
        || w == "?"@
        || w == "stats"@
        || w == "kernels"@
        || w == "k"@
        || w == "ops"@
        || w == "inspect"@
        || w == "i"@
        || w == "bound"@
        || w == "roofline"@
        || w == "roof"@
        || w == "occupancy"@
        || w == "occ"@
        || w == "transfers"@
        || w == "xfer"@
        || w == "gaps"@
        || w == "overlap"@
        || w == "streams"@
        || w == "timeline"@
        || w == "tl"@
        || w == "trace"@
        || w == "callers"@
        || w == "layers"@
        || w == "suggest"@
        || w == "save"@
        || w == "list"@
        || w == "ls"@
        || w == "diff"@
        || w == "focus"@
        || w == "ignore"@
        || w == "region"@
        || w == "reset"@
        || w == "variance"@
        || w == "var"@
        || w == "warmup"@
        || w == "small"@
        || w == "fuse"@
        || w == "concurrency"@
        || w == "conc"@
        || w == "hotpath"@
        || w == "hot"@
        || w == "compare-ops"@
        || w == "cmp"@
        || w == "top-ops"@
        || w == "top"@
        || w == "breakdown"@
        || w == "br"@
        || w == "idle-between"@
        || w == "idle"@
}

/// How the words are spelled.
proof fn words_are_spelled()
    ensures
        "quit"@.len() == 4,
        "quit"@[0] == 'q',
        "quit"@[1] == 'u',
        "quit"@[2] == 'i',
        "quit"@[3] == 't',
        "exit"@.len() == 4,
        "exit"@[0] == 'e',
        "exit"@[1] == 'x',
        "exit"@[2] == 'i',
        "exit"@[3] == 't',
        "q"@.len() == 1,
        "q"@[0] == 'q',
        "help"@.len() == 4,
        "help"@[0] == 'h',
        "help"@[1] == 'e',
        "help"@[2] == 'l',
        "help"@[3] == 'p',
        "h"@.len() == 1,
        "h"@[0] == 'h',
        "?"@.len() == 1,
        "?"@[0] == '?',
        "stats"@.len() == 5,
        "stats"@[0] == 's',
        "stats"@[1] == 't',
        "stats"@[2] == 'a',
        "stats"@[3] == 't',
        "stats"@[4] == 's',
        "kernels"@.len() == 7,
        "kernels"@[0] == 'k',
        "kernels"@[1] == 'e',
        "kernels"@[2] == 'r',
        "kernels"@[3] == 'n',
        "kernels"@[4] == 'e',
        "kernels"@[5] == 'l',
        "kernels"@[6] == 's',
        "k"@.len() == 1,
        "k"@[0] == 'k',
        "ops"@.len() == 3,
        "ops"@[0] == 'o',
        "ops"@[1] == 'p',
        "ops"@[2] == 's',
        "inspect"@.len() == 7,
        "inspect"@[0] == 'i',
        "inspect"@[1] == 'n',
        "inspect"@[2] == 's',
        "inspect"@[3] == 'p',
        "inspect"@[4] == 'e',
        "inspect"@[5] == 'c',
        "inspect"@[6] == 't',
        "i"@.len() == 1,
        "i"@[0] == 'i',
        "bound"@.len() == 5,
        "bound"@[0] == 'b',
        "bound"@[1] == 'o',
        "bound"@[2] == 'u',
        "bound"@[3] == 'n',
        "bound"@[4] == 'd',
        "roofline"@.len() == 8,
        "roofline"@[0] == 'r',
        "roofline"@[1] == 'o',
        "roofline"@[2] == 'o',
        "roofline"@[3] == 'f',
        "roofline"@[4] == 'l',
        "roofline"@[5] == 'i',
        "roofline"@[6] == 'n',
        "roofline"@[7] == 'e',
        "roof"@.len() == 4,
        "roof"@[0] == 'r',
        "roof"@[1] == 'o',
        "roof"@[2] == 'o',
        "roof"@[3] == 'f',
        "occupancy"@.len() == 9,
        "occupancy"@[0] == 'o',
        "occupancy"@[1] == 'c',
        "occupancy"@[2] == 'c',
        "occupancy"@[3] == 'u',
        "occupancy"@[4] == 'p',
        "occupancy"@[5] == 'a',
        "occupancy"@[6] == 'n',
        "occupancy"@[7] == 'c',
        "occupancy"@[8] == 'y',
        "occ"@.len() == 3,
        "occ"@[0] == 'o',
        "occ"@[1] == 'c',
        "occ"@[2] == 'c',
        "transfers"@.len() == 9,
        "transfers"@[0] == 't',
        "transfers"@[1] == 'r',
        "transfers"@[2] == 'a',
        "transfers"@[3] == 'n',
        "transfers"@[4] == 's',
        "transfers"@[5] == 'f',
        "transfers"@[6] == 'e',
        "transfers"@[7] == 'r',
        "transfers"@[8] == 's',
        "xfer"@.len() == 4,
        "xfer"@[0] == 'x',
        "xfer"@[1] == 'f',
        "xfer"@[2] == 'e',
        "xfer"@[3] == 'r',
        "gaps"@.len() == 4,
        "gaps"@[0] == 'g',
        "gaps"@[1] == 'a',
        "gaps"@[2] == 'p',
        "gaps"@[3] == 's',
        "overlap"@.len() == 7,
        "overlap"@[0] == 'o',
        "overlap"@[1] == 'v',
        "overlap"@[2] == 'e',
        "overlap"@[3] == 'r',
        "overlap"@[4] == 'l',
        "overlap"@[5] == 'a',
        "overlap"@[6] == 'p',
        "streams"@.len() == 7,
        "streams"@[0] == 's',
        "streams"@[1] == 't',
        "streams"@[2] == 'r',
        "streams"@[3] == 'e',
        "streams"@[4] == 'a',
        "streams"@[5] == 'm',
        "streams"@[6] == 's',
        "timeline"@.len() == 8,
        "timeline"@[0] == 't',
        "timeline"@[1] == 'i',
        "timeline"@[2] == 'm',
        "timeline"@[3] == 'e',
        "timeline"@[4] == 'l',
        "timeline"@[5] == 'i',
        "timeline"@[6] == 'n',
        "timeline"@[7] == 'e',
        "tl"@.len() == 2,
        "tl"@[0] == 't',
        "tl"@[1] == 'l',
        "trace"@.len() == 5,
        "trace"@[0] == 't',
        "trace"@[1] == 'r',
        "trace"@[2] == 'a',
        "trace"@[3] == 'c',
        "trace"@[4] == 'e',
        "callers"@.len() == 7,
        "callers"@[0] == 'c',
        "callers"@[1] == 'a',
        "callers"@[2] == 'l',
        "callers"@[3] == 'l',
        "callers"@[4] == 'e',
        "callers"@[5] == 'r',
        "callers"@[6] == 's',
        "layers"@.len() == 6,
        "layers"@[0] == 'l',
        "layers"@[1] == 'a',
        "layers"@[2] == 'y',
        "layers"@[3] == 'e',
        "layers"@[4] == 'r',
        "layers"@[5] == 's',
        "suggest"@.len() == 7,
        "suggest"@[0] == 's',
        "suggest"@[1] == 'u',
        "suggest"@[2] == 'g',
        "suggest"@[3] == 'g',
        "suggest"@[4] == 'e',
        "suggest"@[5] == 's',
        "suggest"@[6] == 't',
        "save"@.len() == 4,
        "save"@[0] == 's',
        "save"@[1] == 'a',
        "save"@[2] == 'v',
        "save"@[3] == 'e',
        "list"@.len() == 4,
        "list"@[0] == 'l',
        "list"@[1] == 'i',
        "list"@[2] == 's',
        "list"@[3] == 't',
        "ls"@.len() == 2,
        "ls"@[0] == 'l',
        "ls"@[1] == 's',
        "diff"@.len() == 4,
        "diff"@[0] == 'd',
        "diff"@[1] == 'i',
        "diff"@[2] == 'f',
        "diff"@[3] == 'f',
        "focus"@.len() == 5,
        "focus"@[0] == 'f',
        "focus"@[1] == 'o',
        "focus"@[2] == 'c',
        "focus"@[3] == 'u',
        "focus"@[4] == 's',
        "ignore"@.len() == 6,
        "ignore"@[0] == 'i',
        "ignore"@[1] == 'g',
        "ignore"@[2] == 'n',
        "ignore"@[3] == 'o',
        "ignore"@[4] == 'r',
        "ignore"@[5] == 'e',
        "region"@.len() == 6,
        "region"@[0] == 'r',
        "region"@[1] == 'e',
        "region"@[2] == 'g',
        "region"@[3] == 'i',
        "region"@[4] == 'o',
        "region"@[5] == 'n',
        "reset"@.len() == 5,
        "reset"@[0] == 'r',
        "reset"@[1] == 'e',
        "reset"@[2] == 's',
        "reset"@[3] == 'e',
        "reset"@[4] == 't',
        "variance"@.len() == 8,
        "variance"@[0] == 'v',
        "variance"@[1] == 'a',
        "variance"@[2] == 'r',
        "variance"@[3] == 'i',
        "variance"@[4] == 'a',
        "variance"@[5] == 'n',
        "variance"@[6] == 'c',
        "variance"@[7] == 'e',
        "var"@.len() == 3,
        "var"@[0] == 'v',
        "var"@[1] == 'a',
        "var"@[2] == 'r',
        "warmup"@.len() == 6,
        "warmup"@[0] == 'w',
        "warmup"@[1] == 'a',
        "warmup"@[2] == 'r',
        "warmup"@[3] == 'm',
        "warmup"@[4] == 'u',
        "warmup"@[5] == 'p',
        "small"@.len() == 5,
        "small"@[0] == 's',
        "small"@[1] == 'm',
        "small"@[2] == 'a',
        "small"@[3] == 'l',
        "small"@[4] == 'l',
        "fuse"@.len() == 4,
        "fuse"@[0] == 'f',
        "fuse"@[1] == 'u',
        "fuse"@[2] == 's',
        "fuse"@[3] == 'e',
        "concurrency"@.len() == 11,
        "concurrency"@[0] == 'c',
        "concurrency"@[1] == 'o',
        "concurrency"@[2] == 'n',
        "concurrency"@[3] == 'c',
        "concurrency"@[4] == 'u',
        "concurrency"@[5] == 'r',
        "concurrency"@[6] == 'r',
        "concurrency"@[7] == 'e',
        "concurrency"@[8] == 'n',
        "conc"@.len() == 4,
        "conc"@[0] == 'c',
        "conc"@[1] == 'o',
        "conc"@[2] == 'n',
        "conc"@[3] == 'c',
        "hotpath"@.len() == 7,
        "hotpath"@[0] == 'h',
        "hotpath"@[1] == 'o',
        "hotpath"@[2] == 't',
        "hotpath"@[3] == 'p',
        "hotpath"@[4] == 'a',
        "hotpath"@[5] == 't',
        "hotpath"@[6] == 'h',
        "hot"@.len() == 3,
        "hot"@[0] == 'h',
        "hot"@[1] == 'o',
        "hot"@[2] == 't',
        "compare-ops"@.len() == 11,
        "compare-ops"@[0] == 'c',
        "compare-ops"@[1] == 'o',
        "compare-ops"@[2] == 'm',
        "compare-ops"@[3] == 'p',
        "compare-ops"@[4] == 'a',
        "compare-ops"@[5] == 'r',
        "compare-ops"@[6] == 'e',
        "compare-ops"@[7] == '-',
        "compare-ops"@[8] == 'o',
        "cmp"@.len() == 3,
        "cmp"@[0] == 'c',
        "cmp"@[1] == 'm',
        "cmp"@[2] == 'p',
        "top-ops"@.len() == 7,
        "top-ops"@[0] == 't',
        "top-ops"@[1] == 'o',
        "top-ops"@[2] == 'p',
        "top-ops"@[3] == '-',
        "top-ops"@[4] == 'o',
        "top-ops"@[5] == 'p',
        "top-ops"@[6] == 's',
        "top"@.len() == 3,
        "top"@[0] == 't',
        "top"@[1] == 'o',
        "top"@[2] == 'p',
        "breakdown"@.len() == 9,
        "breakdown"@[0] == 'b',
        "breakdown"@[1] == 'r',
        "breakdown"@[2] == 'e',
        "breakdown"@[3] == 'a',
        "breakdown"@[4] == 'k',
        "breakdown"@[5] == 'd',
        "breakdown"@[6] == 'o',
        "breakdown"@[7] == 'w',
        "breakdown"@[8] == 'n',
        "br"@.len() == 2,
        "br"@[0] == 'b',
        "br"@[1] == 'r',
        "idle-between"@.len() == 12,
        "idle-between"@[0] == 'i',
        "idle-between"@[1] == 'd',
        "idle-between"@[2] == 'l',
        "idle-between"@[3] == 'e',
        "idle-between"@[4] == '-',
        "idle-between"@[5] == 'b',
        "idle-between"@[6] == 'e',
        "idle-between"@[7] == 't',
        "idle-between"@[8] == 'w',
        "idle"@.len() == 4,
        "idle"@[0] == 'i',
        "idle"@[1] == 'd',
        "idle"@[2] == 'l',
        "idle"@[3] == 'e',
{
    reveal_strlit("quit");
    reveal_strlit("exit");
    reveal_strlit("q");
    reveal_strlit("help");
    reveal_strlit("h");
    reveal_strlit("?");
    reveal_strlit("stats");
    reveal_strlit("kernels");
    reveal_strlit("k");
    reveal_strlit("ops");
    reveal_strlit("inspect");
    reveal_strlit("i");
    reveal_strlit("bound");
    reveal_strlit("roofline");
    reveal_strlit("roof");
    reveal_strlit("occupancy");
    reveal_strlit("occ");
    reveal_strlit("transfers");
    reveal_strlit("xfer");
    reveal_strlit("gaps");
    reveal_strlit("overlap");
    reveal_strlit("streams");
    reveal_strlit("timeline");
    reveal_strlit("tl");
    reveal_strlit("trace");
    reveal_strlit("callers");
    reveal_strlit("layers");
    reveal_strlit("suggest");
    reveal_strlit("save");
    reveal_strlit("list");
    reveal_strlit("ls");
    reveal_strlit("diff");
    reveal_strlit("focus");
    reveal_strlit("ignore");
    reveal_strlit("region");
    reveal_strlit("reset");
    reveal_strlit("variance");
    reveal_strlit("var");
    reveal_strlit("warmup");
    reveal_strlit("small");
    reveal_strlit("fuse");
    reveal_strlit("concurrency");
    reveal_strlit("conc");
    reveal_strlit("hotpath");
    reveal_strlit("hot");
    reveal_strlit("compare-ops");
    reveal_strlit("cmp");
    reveal_strlit("top-ops");
    reveal_strlit("top");
    reveal_strlit("breakdown");
    reveal_strlit("br");
    reveal_strlit("idle-between");
    reveal_strlit("idle");
}

/// Each command answers to its names and to no other word, and no command has
/// the name of another.
#[verifier::rlimit(60)]
pub proof fn each_command_answers_to_its_names(w: Seq<char>)
    ensures
        command_named(w) == ReplCommand::Quit <==> w == "quit"@ || w == "exit"@ || w == "q"@,
        command_named(w) == ReplCommand::Help <==> w == "help"@ || w == "h"@ || w == "?"@,
        command_named(w) == ReplCommand::Stats <==> w == "stats"@,
        command_named(w) == ReplCommand::Kernels <==> w == "kernels"@ || w == "k"@,
        command_named(w) == ReplCommand::Ops <==> w == "ops"@,
        command_named(w) == ReplCommand::Inspect <==> w == "inspect"@ || w == "i"@,
        command_named(w) == ReplCommand::Bound <==> w == "bound"@,
        command_named(w) == ReplCommand::Roofline <==> w == "roofline"@ || w == "roof"@,
        command_named(w) == ReplCommand::Occupancy <==> w == "occupancy"@ || w == "occ"@,
        command_named(w) == ReplCommand::Transfers <==> w == "transfers"@ || w == "xfer"@,
        command_named(w) == ReplCommand::Gaps <==> w == "gaps"@,
        command_named(w) == ReplCommand::Overlap <==> w == "overlap"@,
        command_named(w) == ReplCommand::Streams <==> w == "streams"@,
        command_named(w) == ReplCommand::Timeline <==> w == "timeline"@ || w == "tl"@,
        command_named(w) == ReplCommand::Trace <==> w == "trace"@,
        command_named(w) == ReplCommand::Callers <==> w == "callers"@,
        command_named(w) == ReplCommand::Layers <==> w == "layers"@,
        command_named(w) == ReplCommand::Suggest <==> w == "suggest"@,
        command_named(w) == ReplCommand::Save <==> w == "save"@,
        command_named(w) == ReplCommand::List <==> w == "list"@ || w == "ls"@,
        command_named(w) == ReplCommand::Diff <==> w == "diff"@,
        command_named(w) == ReplCommand::Focus <==> w == "focus"@,
        command_named(w) == ReplCommand::Ignore <==> w == "ignore"@,
        command_named(w) == ReplCommand::Region <==> w == "region"@,
        command_named(w) == ReplCommand::Reset <==> w == "reset"@,
        command_named(w) == ReplCommand::Variance <==> w == "variance"@ || w == "var"@,
        command_named(w) == ReplCommand::Warmup <==> w == "warmup"@,
        command_named(w) == ReplCommand::Small <==> w == "small"@,
        command_named(w) == ReplCommand::Fuse <==> w == "fuse"@,
        command_named(w) == ReplCommand::Concurrency <==> w == "concurrency"@ || w == "conc"@,
        command_named(w) == ReplCommand::Hotpath <==> w == "hotpath"@ || w == "hot"@,
        command_named(w) == ReplCommand::CompareOps <==> w == "compare-ops"@ || w == "cmp"@,
        command_named(w) == ReplCommand::TopOps <==> w == "top-ops"@ || w == "top"@,
        command_named(w) == ReplCommand::Breakdown <==> w == "breakdown"@ || w == "br"@,
        command_named(w) == ReplCommand::IdleBetween <==> w == "idle-between"@ || w == "idle"@,
        command_named(w) == ReplCommand::Unknown <==> !is_command_word(w),
{
    words_are_spelled();
}

/// A line is its command and the words behind it, however they are spaced.
pub proof fn a_line_is_its_words(words: Seq<Seq<char>>)
    requires
        words.len() > 0,
        forall|i: int| 0 <= i < words.len() ==> text::is_word(#[trigger] words[i]),
    ensures
        text::words(text::join(words, " "@)) == words,
{
    text::joined_words_are_read_back(words);
}

/// What the profiler is called for is told by the first word; a comparison
/// takes two names, and a saved session one, whatever follows.
pub proof fn the_first_argument_tells_what_is_asked(
    name: Seq<char>,
    other: Seq<char>,
    more: Seq<Seq<char>>,
)
    ensures
        invocation(seq!["diff"@, name, other] + more) == Invocation::Diff,
        invocation(seq!["diff"@, name]) == Invocation::DiffUsage,
        invocation(seq!["diff"@]) == Invocation::DiffUsage,
        invocation(seq!["--from"@, name] + more) == Invocation::From,
        invocation(seq!["--from"@]) == Invocation::FromUsage,
        invocation(seq!["list"@] + more) == Invocation::List,
        invocation(seq!["ls"@] + more) == Invocation::List,
        invocation(seq!["check"@] + more) == Invocation::Check,
        invocation(Seq::empty()) == Invocation::Usage,
        name != "list"@ && name != "ls"@ && name != "diff"@ && name != "check"@ && name
            != "--from"@ && name != "help"@ && name != "--help"@ && name != "-h"@ ==> invocation(
            seq![name] + more,
        ) == Invocation::Profile,
{
    reveal_strlit("diff");
    reveal_strlit("--from");
    reveal_strlit("list");
    reveal_strlit("ls");
    reveal_strlit("check");
    assert("diff"@.len() == 4 && "diff"@[0] == 'd' && "--from"@.len() == 6 && "list"@.len() == 4
        && "list"@[0] == 'l' && "ls"@.len() == 2 && "check"@.len() == 5);
    assert((seq!["diff"@, name, other] + more)[0] == "diff"@);
    assert((seq!["--from"@, name] + more)[0] == "--from"@);
    assert((seq!["list"@] + more)[0] == "list"@);
    assert((seq!["ls"@] + more)[0] == "ls"@);
    assert((seq!["check"@] + more)[0] == "check"@);
    assert((seq![name] + more)[0] == name);
}

} // verus!
