//! The breakpoints of a debug session, and the transactions that keep them in
//! step with the adapter.
//!
//! The adapter replaces the breakpoints of a source, or all function
//! breakpoints, with each request. So each change is made here first, the
//! whole set is sent, and a reply that does not confirm it undoes the change.

use vstd::prelude::*;

use crate::json;
use crate::json::{push_item, put, put_int, put_str, Json, JsonV};
use crate::order;
use crate::order::order;
use crate::text;
use crate::text::{
    chars_of, cut, decimal_chars, extend_chars, extend_str, find_chars, join_strings,
    parse_bounded_chars, rfind_chars, same_text, starts_with_chars, string_of, trim_chars,
    trim_end_chars,
};

verus! {

// ---------------------------------------------------------------------------
// Locations
// ---------------------------------------------------------------------------

/// What a `break` command asks for.
#[derive(Debug)]
pub struct BreakSpec {
    pub file: String,
    pub line: u32,
    pub condition: Option<String>,
    pub log_message: Option<String>,
}

/// Where a structured request asks to break.
#[derive(Debug)]
pub enum BreakLoc {
    FileLine(String, u32),
    Function(String),
    ModuleMethod(String, String),
}

pub struct BreakSpecV {
    pub file: Seq<char>,
    pub line: u32,
    pub condition: Option<Seq<char>>,
    pub log_message: Option<Seq<char>>,
}

impl BreakSpec {
    pub open spec fn view(&self) -> BreakSpecV {
        BreakSpecV {
            file: self.file@,
            line: self.line,
            condition: text::opt_text(self.condition),
            log_message: text::opt_text(self.log_message),
        }
    }
}

/// `s` up to the first `sep`, and what follows it, without white space at
/// either end.
pub open spec fn peel(s: Seq<char>, sep: Seq<char>) -> (Seq<char>, Option<Seq<char>>) {
    match text::find(s, sep) {
        Some(i) => (s.take(i), Some(text::trim(s.skip(i + sep.len())))),
        None => (s, None),
    }
}

fn peel_chars(s: &Vec<char>, sep: &str) -> (r: (Vec<char>, Option<Vec<char>>))
    ensures
        r.0@ == peel(s@, sep@).0,
        match r.1 {
            Some(t) => peel(s@, sep@).1 == Some(t@),
            None => peel(s@, sep@).1 is None,
        },
{
    let sep_chars = chars_of(sep);
    match find_chars(s, &sep_chars, 0) {
        Some(i) => {
            let head = cut(s, 0, i);
            let tail = cut(s, i + sep_chars.len(), s.len());
            assert(head@ =~= s@.take(i as int));
            assert(tail@ =~= s@.skip(i + sep@.len()));
            (head, Some(trim_chars(&tail)))
        },
        None => {
            let all = cut(s, 0, s.len());
            assert(all@ =~= s@);
            (all, None)
        },
    }
}

/// What follows `break ` or `b `.
pub open spec fn break_operand(cmd: Seq<char>) -> Option<Seq<char>> {
    if text::starts_with(cmd, "break "@) {
        Some(cmd.skip("break "@.len() as int))
    } else if text::starts_with(cmd, "b "@) {
        Some(cmd.skip("b "@.len() as int))
    } else {
        None
    }
}

/// The location before ` if ` and ` log `, with the last `:` before the line.
pub open spec fn parsed_break(cmd: Seq<char>) -> Option<BreakSpecV> {
    match break_operand(cmd) {
        None => None,
        Some(rest) => {
            let (head, log_message) = peel(rest, " log "@);
            let (location, condition) = peel(head, " if "@);
            match text::rfind(location, ":"@) {
                None => None,
                Some(i) => match text::parse_unsigned(
                    text::trim(location.skip(i + 1)),
                    u32::MAX as int,
                ) {
                    None => None,
                    Some(n) => Some(
                        BreakSpecV {
                            file: text::trim(location.take(i)),
                            line: n as u32,
                            condition: condition,
                            log_message: log_message,
                        },
                    ),
                },
            }
        },
    }
}

fn optional_string(s: Option<Vec<char>>) -> (r: Option<String>)
    ensures
        text::opt_text(r) == match s {
            Some(t) => Some(t@),
            None => None,
        },
{
    match s {
        Some(t) => Some(string_of(&t)),
        None => None,
    }
}

/// Reads `break file:line`, or `b file:line`, with ` if <expr>` and then
/// ` log <template>` where they are wanted.
pub fn parse_break(cmd: &str) -> (r: Option<BreakSpec>)
    ensures
        match r {
            Some(b) => parsed_break(cmd@) == Some(b.view()),
            None => parsed_break(cmd@) is None,
        },
{
    proof {
        reveal_strlit(":");
    }
    let chars = chars_of(cmd);
    let long = chars_of("break ");
    let short = chars_of("b ");
    let from: usize = if starts_with_chars(&chars, &long) {
        long.len()
    } else if starts_with_chars(&chars, &short) {
        short.len()
    } else {
        return None;
    };
    let rest = cut(&chars, from, chars.len());
    assert(rest@ =~= chars@.skip(from as int));
    let (head, log_message) = peel_chars(&rest, " log ");
    let (location, condition) = peel_chars(&head, " if ");
    let colon = chars_of(":");
    match rfind_chars(&location, &colon) {
        Some(i) => {
            let file = cut(&location, 0, i);
            let number = cut(&location, i + 1, location.len());
            assert(file@ =~= location@.take(i as int));
            assert(number@ =~= location@.skip(i + 1));
            let file_trimmed = trim_chars(&file);
            let number_trimmed = trim_chars(&number);
            match parse_bounded_chars(&number_trimmed, u32::MAX as u64) {
                Some(n) => Some(
                    BreakSpec {
                        file: string_of(&file_trimmed),
                        line: n as u32,
                        condition: optional_string(condition),
                        log_message: optional_string(log_message),
                    },
                ),
                None => None,
            }
        },
        None => None,
    }
}

/// `file` below the directory `base`: a `/` stands between them unless `base`
/// is empty or ends in one.
pub open spec fn joined_path(base: Seq<char>, file: Seq<char>) -> Seq<char> {
    if base.len() == 0 || base.last() == '/' {
        base + file
    } else {
        base + "/"@ + file
    }
}

/// The path that a breakpoint is set in: an absolute path stands for itself,
/// any other is taken from the working directory where that is known.
pub open spec fn resolved_path(cwd: Option<Seq<char>>, file: Seq<char>) -> Seq<char> {
    if file.len() > 0 && file[0] == '/' {
        file
    } else {
        match cwd {
            Some(base) => joined_path(base, file),
            None => file,
        }
    }
}

pub fn resolve_breakpoint_path_from(cwd: Option<&str>, file: &str) -> (r: String)
    ensures
        r@ == resolved_path(text::opt_str(cwd), file@),
{
    let chars = chars_of(file);
    if chars.len() > 0 && chars[0] == '/' {
        return file.to_owned();
    }
    match cwd {
        Some(base) => {
            let mut out = chars_of(base);
            if out.len() > 0 && out[out.len() - 1] != '/' {
                extend_str(&mut out, "/");
            }
            extend_chars(&mut out, &chars);
            string_of(&out)
        },
        None => file.to_owned(),
    }
}

// ---------------------------------------------------------------------------
// The table
// ---------------------------------------------------------------------------

#[derive(Debug)]
pub struct LineBreakpoint {
    pub file: String,
    pub line: u32,
    pub id: u32,
    pub condition: Option<String>,
    pub log_message: Option<String>,
}

#[derive(Debug)]
pub struct FunctionBreakpoint {
    pub name: String,
    pub id: u32,
    pub condition: Option<String>,
    pub log_message: Option<String>,
}

/// The breakpoints, each kind in the order in which they were set.
#[derive(Debug)]
pub struct Breakpoints {
    pub lines: Vec<LineBreakpoint>,
    pub functions: Vec<FunctionBreakpoint>,
    /// Where the search for a free id begins; 0 once the last id was given out.
    pub next_breakpoint_id: u32,
}

pub struct LineV {
    pub file: Seq<char>,
    pub line: u32,
    pub id: u32,
    pub condition: Option<Seq<char>>,
    pub log_message: Option<Seq<char>>,
}

pub struct FunctionV {
    pub name: Seq<char>,
    pub id: u32,
    pub condition: Option<Seq<char>>,
    pub log_message: Option<Seq<char>>,
}

pub struct TableV {
    pub lines: Seq<LineV>,
    pub functions: Seq<FunctionV>,
    pub next_id: u32,
}

impl LineBreakpoint {
    pub open spec fn view(&self) -> LineV {
        LineV {
            file: self.file@,
            line: self.line,
            id: self.id,
            condition: text::opt_text(self.condition),
            log_message: text::opt_text(self.log_message),
        }
    }
}

impl FunctionBreakpoint {
    pub open spec fn view(&self) -> FunctionV {
        FunctionV {
            name: self.name@,
            id: self.id,
            condition: text::opt_text(self.condition),
            log_message: text::opt_text(self.log_message),
        }
    }
}

pub open spec fn line_views(s: Seq<LineBreakpoint>) -> Seq<LineV> {
    Seq::new(s.len(), |i: int| s[i].view())
}

pub open spec fn function_views(s: Seq<FunctionBreakpoint>) -> Seq<FunctionV> {
    Seq::new(s.len(), |i: int| s[i].view())
}

impl Breakpoints {
    pub open spec fn view(&self) -> TableV {
        TableV {
            lines: line_views(self.lines@),
            functions: function_views(self.functions@),
            next_id: self.next_breakpoint_id,
        }
    }
}

/// No location, no function and no id occurs twice, and no id is 0.
pub open spec fn table_ok(t: TableV) -> bool {
    &&& forall|i: int, j: int|
        0 <= i < j < t.lines.len() ==> !(#[trigger] t.lines[i].file == #[trigger] t.lines[j].file
            && t.lines[i].line == t.lines[j].line)
    &&& forall|i: int, j: int|
        0 <= i < j < t.functions.len() ==> (#[trigger] t.functions[i]).name != (
        #[trigger] t.functions[j]).name
    &&& forall|i: int, j: int|
        0 <= i < j < t.lines.len() ==> (#[trigger] t.lines[i]).id != (#[trigger] t.lines[j]).id
    &&& forall|i: int, j: int|
        0 <= i < j < t.functions.len() ==> (#[trigger] t.functions[i]).id != (
        #[trigger] t.functions[j]).id
    &&& forall|i: int, j: int|
        0 <= i < t.lines.len() && 0 <= j < t.functions.len() ==> (#[trigger] t.lines[i]).id != (
        #[trigger] t.functions[j]).id
    &&& forall|i: int| 0 <= i < t.lines.len() ==> (#[trigger] t.lines[i]).id != 0
    &&& forall|i: int| 0 <= i < t.functions.len() ==> (#[trigger] t.functions[i]).id != 0
}

/// Every id in use was given out before the next one.
pub open spec fn ids_below_next(t: TableV) -> bool {
    t.next_id != 0 ==> {
        &&& forall|i: int| 0 <= i < t.lines.len() ==> (#[trigger] t.lines[i]).id < t.next_id
        &&& forall|i: int| 0 <= i < t.functions.len() ==> (#[trigger] t.functions[i]).id
            < t.next_id
    }
}

/// Some breakpoint has that id.
pub open spec fn id_used(t: TableV, id: int) -> bool {
    ||| exists|i: int| 0 <= i < t.lines.len() && (#[trigger] t.lines[i]).id == id
    ||| exists|i: int| 0 <= i < t.functions.len() && (#[trigger] t.functions[i]).id == id
}

/// The first unused id from `c` on.
pub open spec fn first_free(t: TableV, c: int) -> Option<u32>
    decreases u32::MAX - c + 1,
{
    if c < 0 || c > u32::MAX {
        None
    } else if !id_used(t, c) {
        Some(c as u32)
    } else {
        first_free(t, c + 1)
    }
}

/// The id that the next new breakpoint gets, while there is one.
pub open spec fn next_free(t: TableV) -> Option<u32> {
    if t.next_id == 0 {
        None
    } else {
        first_free(t, t.next_id as int)
    }
}

/// Where the search continues once `id` was given out.
pub open spec fn after_id(id: u32) -> u32 {
    if id == u32::MAX {
        0
    } else {
        (id + 1) as u32
    }
}

/// Why a breakpoint command failed.
#[derive(Debug)]
pub enum BreakpointError {
    Exhausted,
    ZeroId,
    UnknownId(u32),
    /// The adapter refused the request, or did not answer it.
    Adapter(String),
    LineNotVerified { file: String, line: u32 },
    FunctionNotVerified(String),
    IdNotVerified(u32),
}

pub enum BreakpointErrorV {
    Exhausted,
    ZeroId,
    UnknownId(u32),
    Adapter(Seq<char>),
    LineNotVerified { file: Seq<char>, line: u32 },
    FunctionNotVerified(Seq<char>),
    IdNotVerified(u32),
}

impl BreakpointError {
    pub open spec fn view(&self) -> BreakpointErrorV {
        match self {
            BreakpointError::Exhausted => BreakpointErrorV::Exhausted,
            BreakpointError::ZeroId => BreakpointErrorV::ZeroId,
            BreakpointError::UnknownId(id) => BreakpointErrorV::UnknownId(*id),
            BreakpointError::Adapter(s) => BreakpointErrorV::Adapter(s@),
            BreakpointError::LineNotVerified { file, line } => BreakpointErrorV::LineNotVerified {
                file: file@,
                line: *line,
            },
            BreakpointError::FunctionNotVerified(s) => BreakpointErrorV::FunctionNotVerified(s@),
            BreakpointError::IdNotVerified(id) => BreakpointErrorV::IdNotVerified(*id),
        }
    }

    /// The message that is shown for the error.
    pub fn message(&self) -> (r: String)
        ensures
            r@ == error_text(self.view()),
    {
        let mut out: Vec<char> = Vec::new();
        match self {
            BreakpointError::Exhausted => {
                extend_str(&mut out, "breakpoint id space exhausted");
            },
            BreakpointError::ZeroId => {
                extend_str(&mut out, "delete: breakpoint ids start at 1");
            },
            BreakpointError::UnknownId(id) => {
                extend_str(&mut out, "delete: no breakpoint id ");
                let d = decimal_chars(*id as u64);
                extend_chars(&mut out, &d);
                extend_str(&mut out, "; run `dbg breaks` to list ids");
            },
            BreakpointError::Adapter(s) => {
                extend_str(&mut out, s.as_str());
            },
            BreakpointError::LineNotVerified { file, line } => {
                extend_str(&mut out, "breakpoint at ");
                extend_str(&mut out, file.as_str());
                extend_str(&mut out, ":");
                let d = decimal_chars(*line as u64);
                extend_chars(&mut out, &d);
                extend_str(&mut out, " was not verified by the adapter");
            },
            BreakpointError::FunctionNotVerified(name) => {
                extend_str(&mut out, "function breakpoint `");
                extend_str(&mut out, name.as_str());
                extend_str(&mut out, "` was not verified by the adapter");
            },
            BreakpointError::IdNotVerified(id) => {
                extend_str(&mut out, "breakpoint ");
                let d = decimal_chars(*id as u64);
                extend_chars(&mut out, &d);
                extend_str(&mut out, " was not verified by the adapter");
            },
        }
        assert(out@ =~= error_text(self.view()));
        string_of(&out)
    }
}

/// The message that is shown for an error.
pub open spec fn error_text(e: BreakpointErrorV) -> Seq<char> {
    match e {
        BreakpointErrorV::Exhausted => "breakpoint id space exhausted"@,
        BreakpointErrorV::ZeroId => "delete: breakpoint ids start at 1"@,
        BreakpointErrorV::UnknownId(id) => "delete: no breakpoint id "@ + text::decimal(id as nat)
            + "; run `dbg breaks` to list ids"@,
        BreakpointErrorV::Adapter(s) => s,
        BreakpointErrorV::LineNotVerified { file, line } => "breakpoint at "@ + file + ":"@
            + text::decimal(line as nat) + " was not verified by the adapter"@,
        BreakpointErrorV::FunctionNotVerified(name) => "function breakpoint `"@ + name
            + "` was not verified by the adapter"@,
        BreakpointErrorV::IdNotVerified(id) => "breakpoint "@ + text::decimal(id as nat)
            + " was not verified by the adapter"@,
    }
}

impl Breakpoints {
    pub fn new() -> (t: Breakpoints)
        ensures
            t.view() == (TableV { lines: Seq::empty(), functions: Seq::empty(), next_id: 1 }),
            table_ok(t.view()),
            ids_below_next(t.view()),
    {
        let t = Breakpoints { lines: Vec::new(), functions: Vec::new(), next_breakpoint_id: 1 };
        assert(t.view().lines =~= Seq::empty());
        assert(t.view().functions =~= Seq::empty());
        t
    }

    fn uses_id(&self, id: u32) -> (r: bool)
        ensures
            r == id_used(self.view(), id as int),
    {
        let ghost t = self.view();
        let mut i: usize = 0;
        while i < self.lines.len()
            invariant
                i <= self.lines@.len(),
                t == self.view(),
                forall|k: int| 0 <= k < i ==> (#[trigger] t.lines[k]).id != id,
            decreases self.lines@.len() - i,
        {
            assert(t.lines[i as int].id == self.lines@[i as int].id);
            if self.lines[i].id == id {
                return true;
            }
            i = i + 1;
        }
        let mut j: usize = 0;
        while j < self.functions.len()
            invariant
                j <= self.functions@.len(),
                t == self.view(),
                forall|k: int| 0 <= k < t.lines.len() ==> (#[trigger] t.lines[k]).id != id,
                forall|k: int| 0 <= k < j ==> (#[trigger] t.functions[k]).id != id,
            decreases self.functions@.len() - j,
        {
            assert(t.functions[j as int].id == self.functions@[j as int].id);
            if self.functions[j].id == id {
                return true;
            }
            j = j + 1;
        }
        false
    }

    /// A table that denotes the same.
    pub fn copy(&self) -> (r: Breakpoints)
        ensures
            r.view() == self.view(),
    {
        let mut lines: Vec<LineBreakpoint> = Vec::new();
        let mut i: usize = 0;
        while i < self.lines.len()
            invariant
                i <= self.lines@.len(),
                line_views(lines@) =~= line_views(self.lines@).take(i as int),
            decreases self.lines@.len() - i,
        {
            let b = &self.lines[i];
            let copied = LineBreakpoint {
                file: b.file.clone(),
                line: b.line,
                id: b.id,
                condition: clone_text(&b.condition),
                log_message: clone_text(&b.log_message),
            };
            let ghost before = lines@;
            lines.push(copied);
            assert(line_views(lines@) =~= line_views(before).push(copied.view()));
            assert(copied.view() == line_views(self.lines@)[i as int]);
            i = i + 1;
        }
        let mut functions: Vec<FunctionBreakpoint> = Vec::new();
        let mut j: usize = 0;
        while j < self.functions.len()
            invariant
                j <= self.functions@.len(),
                function_views(functions@) =~= function_views(self.functions@).take(j as int),
            decreases self.functions@.len() - j,
        {
            let b = &self.functions[j];
            let copied = FunctionBreakpoint {
                name: b.name.clone(),
                id: b.id,
                condition: clone_text(&b.condition),
                log_message: clone_text(&b.log_message),
            };
            let ghost before = functions@;
            functions.push(copied);
            assert(function_views(functions@) =~= function_views(before).push(copied.view()));
            assert(copied.view() == function_views(self.functions@)[j as int]);
            j = j + 1;
        }
        let r = Breakpoints {
            lines: lines,
            functions: functions,
            next_breakpoint_id: self.next_breakpoint_id,
        };
        assert(r.view().lines =~= self.view().lines);
        assert(r.view().functions =~= self.view().functions);
        r
    }
}

fn clone_text(s: &Option<String>) -> (r: Option<String>)
    ensures
        text::opt_text(r) == text::opt_text(*s),
{
    match s {
        Some(t) => Some(t.clone()),
        None => None,
    }
}

fn own_text(s: Option<&str>) -> (r: Option<String>)
    ensures
        text::opt_text(r) == text::opt_str(s),
{
    match s {
        Some(t) => Some(t.to_owned()),
        None => None,
    }
}

/// Gives out the next free id. Where none is left nothing changes.
pub fn allocate_breakpoint_id(table: &mut Breakpoints) -> (r: Result<u32, BreakpointError>)
    ensures
        match r {
            Ok(id) => {
                &&& next_free(old(table).view()) == Some(id)
                &&& final(table).view() == (TableV {
                    next_id: after_id(id),
                    ..old(table).view()
                })
            },
            Err(e) => {
                &&& next_free(old(table).view()) is None
                &&& e == BreakpointError::Exhausted
                &&& *final(table) == *old(table)
            },
        },
{
    if table.next_breakpoint_id == 0 {
        return Err(BreakpointError::Exhausted);
    }
    let mut candidate: u32 = table.next_breakpoint_id;
    let ghost t = table.view();
    loop
        invariant
            *table == *old(table),
            t == table.view(),
            t.next_id != 0,
            next_free(t) == first_free(t, candidate as int),
        decreases u32::MAX - candidate,
    {
        if !table.uses_id(candidate) {
            table.next_breakpoint_id = if candidate == u32::MAX {
                0
            } else {
                candidate + 1
            };
            return Ok(candidate);
        }
        if candidate == u32::MAX {
            assert(first_free(t, u32::MAX + 1) is None);
            return Err(BreakpointError::Exhausted);
        }
        candidate = candidate + 1;
    }
}

// ---------------------------------------------------------------------------
// What the adapter is asked
// ---------------------------------------------------------------------------

/// The fields that a condition and a log message add to a breakpoint.
pub open spec fn with_options(
    m: Map<Seq<char>, JsonV>,
    condition: Option<Seq<char>>,
    log_message: Option<Seq<char>>,
) -> Map<Seq<char>, JsonV> {
    let a = match condition {
        Some(c) => m.insert("condition"@, JsonV::Str(c)),
        None => m,
    };
    match log_message {
        Some(l) => a.insert("logMessage"@, JsonV::Str(l)),
        None => a,
    }
}

/// One entry of a `setFunctionBreakpoints` request.
pub open spec fn function_value(
    name: Seq<char>,
    condition: Option<Seq<char>>,
    log_message: Option<Seq<char>>,
) -> JsonV {
    JsonV::Object(with_options(map!["name"@ => JsonV::Str(name)], condition, log_message))
}

/// One entry of a `setBreakpoints` request.
pub open spec fn line_value(b: LineV) -> JsonV {
    JsonV::Object(
        with_options(
            map!["line"@ => JsonV::Int(b.line as int)],
            b.condition,
            b.log_message,
        ),
    )
}

/// The breakpoints of one file, in order.
pub open spec fn of_file(lines: Seq<LineV>, path: Seq<char>) -> Seq<LineV>
    decreases lines.len(),
{
    if lines.len() == 0 {
        Seq::empty()
    } else {
        let rest = of_file(lines.drop_last(), path);
        if lines.last().file == path {
            rest.push(lines.last())
        } else {
            rest
        }
    }
}

/// The arguments of the `setBreakpoints` request for a file.
pub open spec fn line_arguments(lines: Seq<LineV>, path: Seq<char>) -> JsonV {
    let kept = of_file(lines, path);
    JsonV::Object(
        map![
            "source"@ => JsonV::Object(map!["path"@ => JsonV::Str(path)]),
            "breakpoints"@ => JsonV::Array(Seq::new(kept.len(), |i: int| line_value(kept[i]))),
            "sourceModified"@ => JsonV::Bool(false),
        ],
    )
}

/// The arguments of the `setFunctionBreakpoints` request.
pub open spec fn function_arguments(functions: Seq<FunctionV>) -> JsonV {
    JsonV::Object(
        map![
            "breakpoints"@ => JsonV::Array(
                Seq::new(
                    functions.len(),
                    |i: int|
                        function_value(
                            functions[i].name,
                            functions[i].condition,
                            functions[i].log_message,
                        ),
                ),
            ),
        ],
    )
}

fn put_options(
    fields: &mut Vec<(String, Json)>,
    condition: Option<&str>,
    log_message: Option<&str>,
)
    ensures
        json::field_views(final(fields)@) == with_options(
            json::field_views(old(fields)@),
            text::opt_str(condition),
            text::opt_str(log_message),
        ),
{
    if let Some(c) = condition {
        put_str(fields, "condition", c);
    }
    if let Some(l) = log_message {
        put_str(fields, "logMessage", l);
    }
}

/// One entry of a `setFunctionBreakpoints` request.
pub fn function_breakpoint_value(
    name: &str,
    condition: Option<&str>,
    log_message: Option<&str>,
) -> (r: Json)
    ensures
        r.view() == function_value(name@, text::opt_str(condition), text::opt_str(log_message)),
{
    let mut fields: Vec<(String, Json)> = Vec::new();
    put_str(&mut fields, "name", name);
    put_options(&mut fields, condition, log_message);
    Json::Object(fields)
}

fn text_ref(s: &Option<String>) -> (r: Option<&str>)
    ensures
        text::opt_str(r) == text::opt_text(*s),
{
    match s {
        Some(t) => Some(t.as_str()),
        None => None,
    }
}

impl Breakpoints {
    /// The arguments of the `setBreakpoints` request for a file, and how many
    /// breakpoints they name.
    fn line_request(&self, path: &str) -> (r: (Json, usize))
        ensures
            r.0.view() == line_arguments(self.view().lines, path@),
            r.1 == of_file(self.view().lines, path@).len(),
    {
        let ghost all = self.view().lines;
        let mut items: Vec<Json> = Vec::new();
        let mut count: usize = 0;
        let mut i: usize = 0;
        while i < self.lines.len()
            invariant
                i <= self.lines@.len(),
                count <= i,
                all == line_views(self.lines@),
                count == of_file(all.take(i as int), path@).len(),
                json::item_views(items@) =~= Seq::new(
                    count as nat,
                    |k: int| line_value(of_file(all.take(i as int), path@)[k]),
                ),
            decreases self.lines@.len() - i,
        {
            let b = &self.lines[i];
            assert(all.take(i + 1).drop_last() =~= all.take(i as int));
            assert(all.take(i + 1).last() == b.view());
            if same_text(b.file.as_str(), path) {
                let mut fields: Vec<(String, Json)> = Vec::new();
                put_int(&mut fields, "line", b.line as i64);
                put_options(&mut fields, text_ref(&b.condition), text_ref(&b.log_message));
                push_item(&mut items, Json::Object(fields));
                count = count + 1;
            }
            i = i + 1;
        }
        assert(all.take(all.len() as int) =~= all);
        let mut source: Vec<(String, Json)> = Vec::new();
        put_str(&mut source, "path", path);
        let mut fields: Vec<(String, Json)> = Vec::new();
        put(&mut fields, "source", Json::Object(source));
        put(&mut fields, "breakpoints", Json::Array(items));
        put(&mut fields, "sourceModified", Json::Bool(false));
        (Json::Object(fields), count)
    }

    /// The arguments of the `setFunctionBreakpoints` request.
    fn function_request(&self) -> (r: Json)
        ensures
            r.view() == function_arguments(self.view().functions),
    {
        let ghost all = self.view().functions;
        let mut items: Vec<Json> = Vec::new();
        let mut i: usize = 0;
        while i < self.functions.len()
            invariant
                i <= self.functions@.len(),
                all == function_views(self.functions@),
                json::item_views(items@) =~= Seq::new(
                    i as nat,
                    |k: int|
                        function_value(all[k].name, all[k].condition, all[k].log_message),
                ),
            decreases self.functions@.len() - i,
        {
            let b = &self.functions[i];
            let value = function_breakpoint_value(
                b.name.as_str(),
                text_ref(&b.condition),
                text_ref(&b.log_message),
            );
            push_item(&mut items, value);
            i = i + 1;
        }
        let mut fields: Vec<(String, Json)> = Vec::new();
        put(&mut fields, "breakpoints", Json::Array(items));
        Json::Object(fields)
    }
}

/// The adapter confirms each of `expected` breakpoints. A reply without a list
/// confirms none.
pub open spec fn verified(response: JsonV, expected: int) -> bool {
    match json::array_of(json::field(response, "breakpoints"@)) {
        None => expected == 0,
        Some(items) => {
            &&& items.len() == expected
            &&& forall|i: int|
                0 <= i < items.len() ==> json::bool_of(
                    json::field(#[trigger] items[i], "verified"@),
                ) == Some(true)
        },
    }
}

/// Whether the adapter confirms each of `expected` line breakpoints.
pub fn breakpoint_response_verified(response: &Json, expected: usize) -> (r: bool)
    ensures
        r == verified(response.view(), expected as int),
{
    match response.get_array("breakpoints") {
        None => expected == 0,
        Some(items) => {
            proof {
                json::item_views_are_views(items@);
            }
            if items.len() != expected {
                return false;
            }
            let ghost v = json::item_views(items@);
            let mut i: usize = 0;
            while i < items.len()
                invariant
                    i <= items@.len(),
                    v == json::item_views(items@),
                    v.len() == items@.len(),
                    forall|k: int| 0 <= k < v.len() ==> #[trigger] v[k] == items@[k].view(),
                    json::array_of(json::field(response.view(), "breakpoints"@)) == Some(v),
                    items@.len() == expected,
                    forall|k: int|
                        0 <= k < i ==> json::bool_of(json::field(#[trigger] v[k], "verified"@))
                            == Some(true),
                decreases items@.len() - i,
            {
                assert(v[i as int] == items@[i as int].view());
                if items[i].get_bool("verified") != Some(true) {
                    return false;
                }
                i = i + 1;
            }
            true
        },
    }
}

/// Whether the adapter confirms each of `expected` function breakpoints.
pub fn function_breakpoints_verified(response: &Json, expected: usize) -> (r: bool)
    ensures
        r == verified(response.view(), expected as int),
{
    breakpoint_response_verified(response, expected)
}

// ---------------------------------------------------------------------------
// What a change does to the table
// ---------------------------------------------------------------------------

pub open spec fn has_line(t: TableV, path: Seq<char>, line: u32) -> bool {
    exists|i: int|
        0 <= i < t.lines.len() && (#[trigger] t.lines[i]).file == path && t.lines[i].line == line
}

pub open spec fn has_function(t: TableV, name: Seq<char>) -> bool {
    exists|i: int| 0 <= i < t.functions.len() && (#[trigger] t.functions[i]).name == name
}

/// Setting a line breakpoint: where one stands at the location it keeps its id
/// and gets the condition and the log message; otherwise a new one is added.
pub open spec fn set_line(
    t: TableV,
    path: Seq<char>,
    line: u32,
    condition: Option<Seq<char>>,
    log_message: Option<Seq<char>>,
) -> Option<TableV> {
    if has_line(t, path, line) {
        Some(
            TableV {
                lines: Seq::new(
                    t.lines.len(),
                    |i: int|
                        if t.lines[i].file == path && t.lines[i].line == line {
                            LineV {
                                condition: condition,
                                log_message: log_message,
                                ..t.lines[i]
                            }
                        } else {
                            t.lines[i]
                        },
                ),
                ..t
            },
        )
    } else {
        match next_free(t) {
            Some(id) => Some(
                TableV {
                    lines: t.lines.push(
                        LineV {
                            file: path,
                            line: line,
                            id: id,
                            condition: condition,
                            log_message: log_message,
                        },
                    ),
                    next_id: after_id(id),
                    ..t
                },
            ),
            None => None,
        }
    }
}

/// Setting a function breakpoint, in the same way.
pub open spec fn set_function(
    t: TableV,
    name: Seq<char>,
    condition: Option<Seq<char>>,
    log_message: Option<Seq<char>>,
) -> Option<TableV> {
    if has_function(t, name) {
        Some(
            TableV {
                functions: Seq::new(
                    t.functions.len(),
                    |i: int|
                        if t.functions[i].name == name {
                            FunctionV {
                                condition: condition,
                                log_message: log_message,
                                ..t.functions[i]
                            }
                        } else {
                            t.functions[i]
                        },
                ),
                ..t
            },
        )
    } else {
        match next_free(t) {
            Some(id) => Some(
                TableV {
                    functions: t.functions.push(
                        FunctionV {
                            name: name,
                            id: id,
                            condition: condition,
                            log_message: log_message,
                        },
                    ),
                    next_id: after_id(id),
                    ..t
                },
            ),
            None => None,
        }
    }
}

/// The position of the line breakpoint with that id, from `k` on.
pub open spec fn line_with_id(lines: Seq<LineV>, id: u32, k: int) -> Option<int>
    decreases lines.len() - k,
{
    if k < 0 || k >= lines.len() {
        None
    } else if lines[k].id == id {
        Some(k)
    } else {
        line_with_id(lines, id, k + 1)
    }
}

/// The position of the function breakpoint with that id, from `k` on.
pub open spec fn function_with_id(functions: Seq<FunctionV>, id: u32, k: int) -> Option<int>
    decreases functions.len() - k,
{
    if k < 0 || k >= functions.len() {
        None
    } else if functions[k].id == id {
        Some(k)
    } else {
        function_with_id(functions, id, k + 1)
    }
}

/// The table without the breakpoint of that id.
pub open spec fn without_id(t: TableV, id: u32) -> TableV {
    match function_with_id(t.functions, id, 0) {
        Some(k) => TableV { functions: t.functions.remove(k), ..t },
        None => match line_with_id(t.lines, id, 0) {
            Some(k) => TableV { lines: t.lines.remove(k), ..t },
            None => t,
        },
    }
}

// ---------------------------------------------------------------------------
// Transactions
// ---------------------------------------------------------------------------

/// Which request carries a change to the adapter.
#[derive(Clone, Copy, Debug, PartialEq, Eq, Structural)]
pub enum SetCommand {
    SetBreakpoints,
    SetFunctionBreakpoints,
}

/// What the adapter replied, where it did.
pub open spec fn reply_view(reply: Result<Json, String>) -> Option<JsonV> {
    match reply {
        Ok(body) => Some(body.view()),
        Err(_) => None,
    }
}

/// The table after the adapter's reply: the changed one where the reply confirms
/// the breakpoints that are expected, and else the one from before.
pub open spec fn after_reply(
    before: TableV,
    changed: TableV,
    reply: Option<JsonV>,
    expected: int,
) -> TableV {
    match reply {
        Some(body) => if verified(body, expected) {
            changed
        } else {
            before
        },
        None => before,
    }
}

/// A change that the adapter has not confirmed yet.
#[derive(Debug)]
pub struct PendingChange {
    /// The table before the change.
    pub snapshot: Breakpoints,
    pub command: SetCommand,
    pub arguments: Json,
    /// How many breakpoints the reply has to confirm.
    pub expected: usize,
    /// The answer to the user once it does.
    pub done: String,
    /// The error where it does not.
    pub refused: BreakpointError,
}

/// The change that a `break` command makes, from one table to the next.
pub open spec fn is_line_change(
    before: TableV,
    after: TableV,
    path: Seq<char>,
    b: BreakSpecV,
    p: PendingChange,
) -> bool {
    &&& set_line(before, path, b.line, b.condition, b.log_message) == Some(after)
    &&& p.snapshot.view() == before
    &&& p.command == SetCommand::SetBreakpoints
    &&& p.arguments.view() == line_arguments(after.lines, path)
    &&& p.expected == of_file(after.lines, path).len()
    &&& p.done@ == line_set_text(b)
    &&& p.refused.view() == (BreakpointErrorV::LineNotVerified { file: b.file, line: b.line })
}

/// The change that a `bfn` command makes, from one table to the next.
pub open spec fn is_function_change(
    before: TableV,
    after: TableV,
    name: Seq<char>,
    condition: Option<Seq<char>>,
    log_message: Option<Seq<char>>,
    p: PendingChange,
) -> bool {
    &&& set_function(before, name, condition, log_message) == Some(after)
    &&& p.snapshot.view() == before
    &&& p.command == SetCommand::SetFunctionBreakpoints
    &&& p.arguments.view() == function_arguments(after.functions)
    &&& p.expected == after.functions.len()
    &&& p.done@ == function_set_text(name, condition, log_message)
    &&& p.refused.view() == BreakpointErrorV::FunctionNotVerified(name)
}

/// The change that a `delete` command makes, from one table to the next.
pub open spec fn is_deletion(before: TableV, after: TableV, id: u32, p: PendingChange) -> bool {
    &&& id != 0
    &&& id_used(before, id as int)
    &&& after == without_id(before, id)
    &&& p.snapshot.view() == before
    &&& p.done@ == cleared_text(before, id)
    &&& match function_with_id(before.functions, id, 0) {
        Some(k) => {
            &&& p.command == SetCommand::SetFunctionBreakpoints
            &&& p.arguments.view() == function_arguments(after.functions)
            &&& p.expected == after.functions.len()
            &&& p.refused.view() == BreakpointErrorV::FunctionNotVerified(
                before.functions[k].name,
            )
        },
        None => {
            let path = before.lines[line_with_id(before.lines, id, 0)->0].file;
            &&& p.command == SetCommand::SetBreakpoints
            &&& p.arguments.view() == line_arguments(after.lines, path)
            &&& p.expected == of_file(after.lines, path).len()
            &&& p.refused.view() == BreakpointErrorV::IdNotVerified(id)
        },
    }
}

/// The suffix of an answer that tells of a condition and a log message.
pub open spec fn options_text(
    condition: Option<Seq<char>>,
    log_message: Option<Seq<char>>,
) -> Seq<char> {
    let a = match condition {
        Some(c) => " if "@ + c,
        None => Seq::empty(),
    };
    match log_message {
        Some(m) => a + ": "@ + m,
        None => a,
    }
}

/// The answer to a line breakpoint that was set.
pub open spec fn line_set_text(b: BreakSpecV) -> Seq<char> {
    (match b.log_message {
        Some(_) => "Logpoint set at "@,
        None => "Breakpoint set at "@,
    }) + b.file + ":"@ + text::decimal(b.line as nat) + options_text(b.condition, b.log_message)
}

/// The answer to a function breakpoint that was set.
pub open spec fn function_set_text(
    name: Seq<char>,
    condition: Option<Seq<char>>,
    log_message: Option<Seq<char>>,
) -> Seq<char> {
    (match log_message {
        Some(_) => "Function logpoint set: "@,
        None => "Function breakpoint set: "@,
    }) + name + options_text(condition, log_message)
}

/// The answer to a breakpoint that was deleted.
pub open spec fn cleared_text(t: TableV, id: u32) -> Seq<char> {
    match function_with_id(t.functions, id, 0) {
        Some(k) => "Breakpoint "@ + text::decimal(id as nat) + " cleared (function "@
            + t.functions[k].name + ")"@,
        None => match line_with_id(t.lines, id, 0) {
            Some(k) => "Breakpoint "@ + text::decimal(id as nat) + " cleared ("@ + text::decimal(
                t.lines[k].line as nat,
            ) + ")"@,
            None => Seq::empty(),
        },
    }
}

fn push_options(out: &mut Vec<char>, condition: Option<&str>, log_message: Option<&str>)
    ensures
        final(out)@ == old(out)@ + options_text(text::opt_str(condition), text::opt_str(log_message)),
{
    if let Some(c) = condition {
        extend_str(out, " if ");
        extend_str(out, c);
    }
    if let Some(m) = log_message {
        extend_str(out, ": ");
        extend_str(out, m);
    }
    assert(out@ =~= old(out)@ + options_text(text::opt_str(condition), text::opt_str(log_message)));
}

impl Breakpoints {
    fn line_position(&self, path: &str, line: u32) -> (r: Option<usize>)
        ensures
            match r {
                Some(k) => {
                    &&& k < self.lines@.len()
                    &&& self.view().lines[k as int].file == path@
                    &&& self.view().lines[k as int].line == line
                },
                None => !has_line(self.view(), path@, line),
            },
    {
        let ghost t = self.view();
        let mut i: usize = 0;
        while i < self.lines.len()
            invariant
                i <= self.lines@.len(),
                t == self.view(),
                forall|k: int|
                    0 <= k < i ==> !((#[trigger] t.lines[k]).file == path@ && t.lines[k].line
                        == line),
            decreases self.lines@.len() - i,
        {
            assert(t.lines[i as int] == self.lines@[i as int].view());
            if self.lines[i].line == line && same_text(self.lines[i].file.as_str(), path) {
                return Some(i);
            }
            i = i + 1;
        }
        None
    }

    fn function_position(&self, name: &str) -> (r: Option<usize>)
        ensures
            match r {
                Some(k) => {
                    &&& k < self.functions@.len()
                    &&& self.view().functions[k as int].name == name@
                },
                None => !has_function(self.view(), name@),
            },
    {
        let ghost t = self.view();
        let mut i: usize = 0;
        while i < self.functions.len()
            invariant
                i <= self.functions@.len(),
                t == self.view(),
                forall|k: int| 0 <= k < i ==> (#[trigger] t.functions[k]).name != name@,
            decreases self.functions@.len() - i,
        {
            assert(t.functions[i as int] == self.functions@[i as int].view());
            if same_text(self.functions[i].name.as_str(), name) {
                return Some(i);
            }
            i = i + 1;
        }
        None
    }

    /// Makes the change of a `break` command and says what to ask the adapter.
    pub fn begin_set_breakpoint(&mut self, spec: &BreakSpec, cwd: Option<&str>) -> (r: Result<
        PendingChange,
        BreakpointError,
    >)
        requires
            table_ok(old(self).view()),
        ensures
            ({
                let path = resolved_path(text::opt_str(cwd), spec.file@);
                let b = spec.view();
                match r {
                    Ok(p) => is_line_change(old(self).view(), final(self).view(), path, b, p),
                    Err(e) => {
                        &&& set_line(
                            old(self).view(),
                            path,
                            b.line,
                            b.condition,
                            b.log_message,
                        ) is None
                        &&& e == BreakpointError::Exhausted
                        &&& *final(self) == *old(self)
                    },
                }
            }),
            table_ok(final(self).view()),
    {
        let path = resolve_breakpoint_path_from(cwd, spec.file.as_str());
        let snapshot = self.copy();
        let ghost t = self.view();
        match self.line_position(path.as_str(), spec.line) {
            Some(k) => {
                let b = &self.lines[k];
                let changed = LineBreakpoint {
                    file: b.file.clone(),
                    line: b.line,
                    id: b.id,
                    condition: clone_text(&spec.condition),
                    log_message: clone_text(&spec.log_message),
                };
                self.lines.set(k, changed);
                assert(has_line(t, path@, spec.line)) by {
                    assert(t.lines[k as int].file == path@);
                }
                proof {
                    let expected = set_line(
                        t,
                        path@,
                        spec.line,
                        spec.view().condition,
                        spec.view().log_message,
                    )->0;
                    assert forall|i: int| 0 <= i < t.lines.len() implies self.view().lines[i]
                        == expected.lines[i] by {
                        if i < k {
                            assert(!(t.lines[i].file == t.lines[k as int].file && t.lines[i].line
                                == t.lines[k as int].line));
                        } else if i > k {
                            assert(!(t.lines[k as int].file == t.lines[i].file
                                && t.lines[k as int].line == t.lines[i].line));
                        }
                    }
                    assert(self.view().lines =~= expected.lines);
                    set_line_keeps_order(t, path@, spec.line, spec.view().condition, spec.view().log_message);
                }
            },
            None => {
                let id: u32 = match allocate_breakpoint_id(self) {
                    Ok(id) => id,
                    Err(_) => {
                        return Err(BreakpointError::Exhausted);
                    },
                };
                let added = LineBreakpoint {
                    file: path.clone(),
                    line: spec.line,
                    id: id,
                    condition: clone_text(&spec.condition),
                    log_message: clone_text(&spec.log_message),
                };
                self.lines.push(added);
                assert(self.view().lines =~= t.lines.push(added.view()));
                proof {
                    set_line_keeps_order(t, path@, spec.line, spec.view().condition, spec.view().log_message);
                }
            },
        }
        let (arguments, expected) = self.line_request(path.as_str());
        let mut done: Vec<char> = Vec::new();
        if spec.log_message.is_some() {
            extend_str(&mut done, "Logpoint set at ");
        } else {
            extend_str(&mut done, "Breakpoint set at ");
        }
        extend_str(&mut done, spec.file.as_str());
        extend_str(&mut done, ":");
        let d = decimal_chars(spec.line as u64);
        extend_chars(&mut done, &d);
        push_options(&mut done, text_ref(&spec.condition), text_ref(&spec.log_message));
        assert(done@ =~= line_set_text(spec.view()));
        Ok(
            PendingChange {
                snapshot: snapshot,
                command: SetCommand::SetBreakpoints,
                arguments: arguments,
                expected: expected,
                done: string_of(&done),
                refused: BreakpointError::LineNotVerified {
                    file: spec.file.clone(),
                    line: spec.line,
                },
            },
        )
    }

    /// Makes the change of a `bfn` command and says what to ask the adapter.
    pub fn begin_set_function_breakpoint(
        &mut self,
        name: &str,
        condition: Option<&str>,
        log_message: Option<&str>,
    ) -> (r: Result<PendingChange, BreakpointError>)
        requires
            table_ok(old(self).view()),
        ensures
            ({
                let c = text::opt_str(condition);
                let m = text::opt_str(log_message);
                match r {
                    Ok(p) => is_function_change(
                        old(self).view(),
                        final(self).view(),
                        name@,
                        c,
                        m,
                        p,
                    ),
                    Err(e) => {
                        &&& set_function(old(self).view(), name@, c, m) is None
                        &&& e == BreakpointError::Exhausted
                        &&& *final(self) == *old(self)
                    },
                }
            }),
            table_ok(final(self).view()),
    {
        let snapshot = self.copy();
        let ghost t = self.view();
        match self.function_position(name) {
            Some(k) => {
                let b = &self.functions[k];
                let changed = FunctionBreakpoint {
                    name: b.name.clone(),
                    id: b.id,
                    condition: own_text(condition),
                    log_message: own_text(log_message),
                };
                self.functions.set(k, changed);
                assert(has_function(t, name@)) by {
                    assert(t.functions[k as int].name == name@);
                }
                proof {
                    let expected = set_function(
                        t,
                        name@,
                        text::opt_str(condition),
                        text::opt_str(log_message),
                    )->0;
                    assert forall|i: int| 0 <= i < t.functions.len() implies self.view().functions[i]
                        == expected.functions[i] by {
                        if i < k {
                            assert(t.functions[i].name != t.functions[k as int].name);
                        } else if i > k {
                            assert(t.functions[k as int].name != t.functions[i].name);
                        }
                    }
                    assert(self.view().functions =~= expected.functions);
                    set_function_keeps_order(t, name@, text::opt_str(condition), text::opt_str(log_message));
                }
            },
            None => {
                let id: u32 = match allocate_breakpoint_id(self) {
                    Ok(id) => id,
                    Err(_) => {
                        return Err(BreakpointError::Exhausted);
                    },
                };
                let added = FunctionBreakpoint {
                    name: name.to_owned(),
                    id: id,
                    condition: own_text(condition),
                    log_message: own_text(log_message),
                };
                self.functions.push(added);
                assert(self.view().functions =~= t.functions.push(added.view()));
                proof {
                    set_function_keeps_order(t, name@, text::opt_str(condition), text::opt_str(log_message));
                }
            },
        }
        let arguments = self.function_request();
        let mut done: Vec<char> = Vec::new();
        if log_message.is_some() {
            extend_str(&mut done, "Function logpoint set: ");
        } else {
            extend_str(&mut done, "Function breakpoint set: ");
        }
        extend_str(&mut done, name);
        push_options(&mut done, condition, log_message);
        assert(done@ =~= function_set_text(name@, text::opt_str(condition), text::opt_str(log_message)));
        Ok(
            PendingChange {
                snapshot: snapshot,
                command: SetCommand::SetFunctionBreakpoints,
                arguments: arguments,
                expected: self.functions.len(),
                done: string_of(&done),
                refused: BreakpointError::FunctionNotVerified(name.to_owned()),
            },
        )
    }
}

proof fn first_free_is_free(t: TableV, c: int)
    ensures
        first_free(t, c) matches Some(id) ==> !id_used(t, id as int) && c <= id,
    decreases u32::MAX - c + 1,
{
    if 0 <= c <= u32::MAX && id_used(t, c) {
        first_free_is_free(t, c + 1);
    }
}

proof fn set_line_keeps_order(
    t: TableV,
    path: Seq<char>,
    line: u32,
    condition: Option<Seq<char>>,
    log_message: Option<Seq<char>>,
)
    requires
        table_ok(t),
        set_line(t, path, line, condition, log_message) is Some,
    ensures
        table_ok(set_line(t, path, line, condition, log_message)->0),
        ids_below_next(t) ==> ids_below_next(
            set_line(t, path, line, condition, log_message)->0,
        ),
{
    let u = set_line(t, path, line, condition, log_message)->0;
    if has_line(t, path, line) {
        assert forall|i: int| 0 <= i < t.lines.len() implies (#[trigger] u.lines[i]).file
            == t.lines[i].file && u.lines[i].line == t.lines[i].line && u.lines[i].id
            == t.lines[i].id by {}
    } else {
        first_free_is_free(t, t.next_id as int);
        let id = next_free(t)->0;
        assert forall|i: int| 0 <= i < t.lines.len() implies (#[trigger] u.lines[i]) == t.lines[i]
            && t.lines[i].id != id && !(t.lines[i].file == path && t.lines[i].line == line) by {}
        assert forall|i: int| 0 <= i < t.functions.len() implies (#[trigger] t.functions[i]).id
            != id by {}
    }
}

proof fn set_function_keeps_order(
    t: TableV,
    name: Seq<char>,
    condition: Option<Seq<char>>,
    log_message: Option<Seq<char>>,
)
    requires
        table_ok(t),
        set_function(t, name, condition, log_message) is Some,
    ensures
        table_ok(set_function(t, name, condition, log_message)->0),
        ids_below_next(t) ==> ids_below_next(set_function(t, name, condition, log_message)->0),
{
    let u = set_function(t, name, condition, log_message)->0;
    if has_function(t, name) {
        assert forall|i: int| 0 <= i < t.functions.len() implies (#[trigger] u.functions[i]).name
            == t.functions[i].name && u.functions[i].id == t.functions[i].id by {}
    } else {
        first_free_is_free(t, t.next_id as int);
        let id = next_free(t)->0;
        assert forall|i: int| 0 <= i < t.functions.len() implies (#[trigger] u.functions[i])
            == t.functions[i] && t.functions[i].id != id && t.functions[i].name != name by {}
        assert forall|i: int| 0 <= i < t.lines.len() implies (#[trigger] t.lines[i]).id
            != id by {}
    }
}

// ---------------------------------------------------------------------------
// Deleting
// ---------------------------------------------------------------------------

proof fn line_with_id_is_there(lines: Seq<LineV>, id: u32, k: int)
    requires
        0 <= k,
    ensures
        match line_with_id(lines, id, k) {
            Some(i) => k <= i < lines.len() && lines[i].id == id,
            None => forall|i: int| k <= i < lines.len() ==> (#[trigger] lines[i]).id != id,
        },
    decreases lines.len() - k,
{
    if k < lines.len() && lines[k].id != id {
        line_with_id_is_there(lines, id, k + 1);
    }
}

proof fn function_with_id_is_there(functions: Seq<FunctionV>, id: u32, k: int)
    requires
        0 <= k,
    ensures
        match function_with_id(functions, id, k) {
            Some(i) => k <= i < functions.len() && functions[i].id == id,
            None => forall|i: int|
                k <= i < functions.len() ==> (#[trigger] functions[i]).id != id,
        },
    decreases functions.len() - k,
{
    if k < functions.len() && functions[k].id != id {
        function_with_id_is_there(functions, id, k + 1);
    }
}

proof fn without_id_keeps_order(t: TableV, id: u32)
    requires
        table_ok(t),
    ensures
        table_ok(without_id(t, id)),
        ids_below_next(t) ==> ids_below_next(without_id(t, id)),
{
    let u = without_id(t, id);
    function_with_id_is_there(t.functions, id, 0);
    line_with_id_is_there(t.lines, id, 0);
    match function_with_id(t.functions, id, 0) {
        Some(k) => {
            assert forall|i: int| 0 <= i < u.functions.len() implies #[trigger] u.functions[i]
                == t.functions[if i < k {
                i
            } else {
                i + 1
            }] by {}
        },
        None => match line_with_id(t.lines, id, 0) {
            Some(k) => {
                assert forall|i: int| 0 <= i < u.lines.len() implies #[trigger] u.lines[i]
                    == t.lines[if i < k {
                    i
                } else {
                    i + 1
                }] by {}
            },
            None => {},
        },
    }
}

impl Breakpoints {
    fn line_position_of_id(&self, id: u32) -> (r: Option<usize>)
        ensures
            match r {
                Some(k) => {
                    &&& k < self.lines@.len()
                    &&& line_with_id(self.view().lines, id, 0) == Some(k as int)
                },
                None => line_with_id(self.view().lines, id, 0) is None,
            },
    {
        let ghost s = self.view().lines;
        let mut i: usize = 0;
        while i < self.lines.len()
            invariant
                i <= self.lines@.len(),
                s == self.view().lines,
                line_with_id(s, id, 0) == line_with_id(s, id, i as int),
            decreases self.lines@.len() - i,
        {
            assert(s[i as int] == self.lines@[i as int].view());
            if self.lines[i].id == id {
                return Some(i);
            }
            i = i + 1;
        }
        None
    }

    fn function_position_of_id(&self, id: u32) -> (r: Option<usize>)
        ensures
            match r {
                Some(k) => {
                    &&& k < self.functions@.len()
                    &&& function_with_id(self.view().functions, id, 0) == Some(k as int)
                },
                None => function_with_id(self.view().functions, id, 0) is None,
            },
    {
        let ghost s = self.view().functions;
        let mut i: usize = 0;
        while i < self.functions.len()
            invariant
                i <= self.functions@.len(),
                s == self.view().functions,
                function_with_id(s, id, 0) == function_with_id(s, id, i as int),
            decreases self.functions@.len() - i,
        {
            assert(s[i as int] == self.functions@[i as int].view());
            if self.functions[i].id == id {
                return Some(i);
            }
            i = i + 1;
        }
        None
    }

    /// Makes the change of a `delete` command and says what to ask the adapter.
    pub fn begin_delete_breakpoint(&mut self, id: u32) -> (r: Result<
        PendingChange,
        BreakpointError,
    >)
        requires
            table_ok(old(self).view()),
        ensures
            ({
                let t = old(self).view();
                match r {
                    Ok(p) => is_deletion(t, final(self).view(), id, p),
                    Err(e) => {
                        &&& *final(self) == *old(self)
                        &&& if id == 0 {
                            e == BreakpointError::ZeroId
                        } else {
                            e == BreakpointError::UnknownId(id) && !id_used(t, id as int)
                        }
                    },
                }
            }),
            table_ok(final(self).view()),
    {
        if id == 0 {
            return Err(BreakpointError::ZeroId);
        }
        let ghost t = self.view();
        proof {
            function_with_id_is_there(t.functions, id, 0);
            line_with_id_is_there(t.lines, id, 0);
            without_id_keeps_order(t, id);
        }
        let mut done: Vec<char> = Vec::new();
        extend_str(&mut done, "Breakpoint ");
        let d = decimal_chars(id as u64);
        extend_chars(&mut done, &d);
        match self.function_position_of_id(id) {
            Some(k) => {
                assert(t.functions[k as int] == self.functions@[k as int].view());
                let snapshot = self.copy();
                let name = self.functions[k].name.clone();
                self.functions.remove(k);
                assert(self.view().functions =~= t.functions.remove(k as int));
                let arguments = self.function_request();
                extend_str(&mut done, " cleared (function ");
                extend_str(&mut done, name.as_str());
                extend_str(&mut done, ")");
                assert(done@ =~= cleared_text(t, id));
                Ok(
                    PendingChange {
                        snapshot: snapshot,
                        command: SetCommand::SetFunctionBreakpoints,
                        arguments: arguments,
                        expected: self.functions.len(),
                        done: string_of(&done),
                        refused: BreakpointError::FunctionNotVerified(name),
                    },
                )
            },
            None => match self.line_position_of_id(id) {
                Some(k) => {
                    assert(t.lines[k as int] == self.lines@[k as int].view());
                    let snapshot = self.copy();
                    let path = self.lines[k].file.clone();
                    let line: u32 = self.lines[k].line;
                    self.lines.remove(k);
                    assert(self.view().lines =~= t.lines.remove(k as int));
                    let (arguments, expected) = self.line_request(path.as_str());
                    extend_str(&mut done, " cleared (");
                    let n = decimal_chars(line as u64);
                    extend_chars(&mut done, &n);
                    extend_str(&mut done, ")");
                    assert(done@ =~= cleared_text(t, id));
                    Ok(
                        PendingChange {
                            snapshot: snapshot,
                            command: SetCommand::SetBreakpoints,
                            arguments: arguments,
                            expected: expected,
                            done: string_of(&done),
                            refused: BreakpointError::IdNotVerified(id),
                        },
                    )
                },
                None => Err(BreakpointError::UnknownId(id)),
            },
        }
    }

    /// Makes the change that a structured request asks for. A method of a module
    /// is not a place that this table can hold.
    pub fn begin_structured(
        &mut self,
        place: &BreakLoc,
        condition: Option<&str>,
        log_message: Option<&str>,
        cwd: Option<&str>,
    ) -> (r: Option<Result<PendingChange, BreakpointError>>)
        requires
            table_ok(old(self).view()),
        ensures
            ({
                let t = old(self).view();
                let c = text::opt_str(condition);
                let m = text::opt_str(log_message);
                match *place {
                    BreakLoc::FileLine(file, line) => {
                        let path = resolved_path(text::opt_str(cwd), file@);
                        match r {
                            Some(Ok(p)) => is_line_change(
                                t,
                                final(self).view(),
                                path,
                                (BreakSpecV {
                                    file: file@,
                                    line: line,
                                    condition: c,
                                    log_message: m,
                                }),
                                p,
                            ),
                            Some(Err(e)) => {
                                &&& set_line(t, path, line, c, m) is None
                                &&& e == BreakpointError::Exhausted
                                &&& *final(self) == *old(self)
                            },
                            None => false,
                        }
                    },
                    BreakLoc::Function(name) => match r {
                        Some(Ok(p)) => is_function_change(
                            t,
                            final(self).view(),
                            name@,
                            c,
                            m,
                            p,
                        ),
                        Some(Err(e)) => {
                            &&& set_function(t, name@, c, m) is None
                            &&& e == BreakpointError::Exhausted
                            &&& *final(self) == *old(self)
                        },
                        None => false,
                    },
                    BreakLoc::ModuleMethod(_, _) => r is None && *final(self) == *old(self),
                }
            }),
            table_ok(final(self).view()),
    {
        match place {
            BreakLoc::FileLine(file, line) => {
                let spec = BreakSpec {
                    file: file.clone(),
                    line: *line,
                    condition: own_text(condition),
                    log_message: own_text(log_message),
                };
                Some(self.begin_set_breakpoint(&spec, cwd))
            },
            BreakLoc::Function(name) => Some(
                self.begin_set_function_breakpoint(name.as_str(), condition, log_message),
            ),
            BreakLoc::ModuleMethod(_, _) => None,
        }
    }

    /// Ends a change: the adapter's reply keeps it or undoes it.
    pub fn finish(&mut self, change: PendingChange, reply: Result<Json, String>) -> (r: Result<
        String,
        BreakpointError,
    >)
        ensures
            final(self).view() == after_reply(
                change.snapshot.view(),
                old(self).view(),
                reply_view(reply),
                change.expected as int,
            ),
            match reply {
                Ok(body) => if verified(body.view(), change.expected as int) {
                    *final(self) == *old(self) && r == Ok::<String, BreakpointError>(change.done)
                } else {
                    *final(self) == change.snapshot && r == Err::<String, BreakpointError>(
                        change.refused,
                    )
                },
                Err(e) => *final(self) == change.snapshot && r == Err::<String, BreakpointError>(
                    BreakpointError::Adapter(e),
                ),
            },
    {
        match reply {
            Ok(body) => {
                let accepted = match change.command {
                    SetCommand::SetBreakpoints => breakpoint_response_verified(
                        &body,
                        change.expected,
                    ),
                    SetCommand::SetFunctionBreakpoints => function_breakpoints_verified(
                        &body,
                        change.expected,
                    ),
                };
                if accepted {
                    Ok(change.done)
                } else {
                    *self = change.snapshot;
                    Err(change.refused)
                }
            },
            Err(e) => {
                *self = change.snapshot;
                Err(BreakpointError::Adapter(e))
            },
        }
    }
}

// ---------------------------------------------------------------------------
// Listing
// ---------------------------------------------------------------------------

/// The line that the listing shows for each breakpoint, unsorted.
pub open spec fn listing_entries(t: TableV) -> Seq<Seq<char>> {
    Seq::new(
        t.lines.len(),
        |i: int|
            text::decimal(t.lines[i].id as nat) + ": "@ + t.lines[i].file + ":"@ + text::decimal(
                t.lines[i].line as nat,
            ),
    ) + Seq::new(
        t.functions.len(),
        |i: int|
            text::decimal(t.functions[i].id as nat) + ": function "@ + t.functions[i].name,
    )
}

/// The id of each breakpoint, in the order of `listing_entries`.
pub open spec fn listing_ids(t: TableV) -> Seq<int> {
    Seq::new(t.lines.len(), |i: int| t.lines[i].id as int) + Seq::new(
        t.functions.len(),
        |i: int| t.functions[i].id as int,
    )
}

/// The listing of all breakpoints: one to a line, by id.
pub open spec fn listing(t: TableV) -> Seq<char> {
    if t.lines.len() + t.functions.len() == 0 {
        "(no breakpoints set)"@
    } else {
        let p = order::order_of(listing_ids(t));
        text::trim_end(
            text::join(Seq::new(p.len(), |i: int| listing_entries(t)[p[i]]), "\n"@),
        )
    }
}

impl Breakpoints {
    /// The listing of all breakpoints.
    pub fn format_breakpoints(&self) -> (r: String)
        ensures
            r@ == listing(self.view()),
    {
        let ghost t = self.view();
        let mut ids: Vec<i128> = Vec::new();
        let mut entries: Vec<String> = Vec::new();
        let mut i: usize = 0;
        while i < self.lines.len()
            invariant
                i <= self.lines@.len(),
                t == self.view(),
                order::ints(ids@) =~= listing_ids(t).take(i as int),
                text::texts(entries@) =~= listing_entries(t).take(i as int),
            decreases self.lines@.len() - i,
        {
            let b = &self.lines[i];
            assert(t.lines[i as int] == b.view());
            let mut out = decimal_chars(b.id as u64);
            extend_str(&mut out, ": ");
            extend_str(&mut out, b.file.as_str());
            extend_str(&mut out, ":");
            let d = decimal_chars(b.line as u64);
            extend_chars(&mut out, &d);
            let entry = string_of(&out);
            assert(entry@ =~= listing_entries(t)[i as int]);
            let ghost before = entries@;
            let ghost before_ids = ids@;
            entries.push(entry);
            ids.push(b.id as i128);
            assert(text::texts(entries@) =~= text::texts(before).push(entry@));
            assert(order::ints(ids@) =~= order::ints(before_ids).push(b.id as int));
            i = i + 1;
        }
        let mut j: usize = 0;
        while j < self.functions.len()
            invariant
                j <= self.functions@.len(),
                t == self.view(),
                order::ints(ids@) =~= listing_ids(t).take(t.lines.len() + j),
                text::texts(entries@) =~= listing_entries(t).take(t.lines.len() + j),
            decreases self.functions@.len() - j,
        {
            let b = &self.functions[j];
            assert(t.functions[j as int] == b.view());
            let mut out = decimal_chars(b.id as u64);
            extend_str(&mut out, ": function ");
            extend_str(&mut out, b.name.as_str());
            let entry = string_of(&out);
            assert(entry@ =~= listing_entries(t)[t.lines.len() + j]);
            let ghost before = entries@;
            let ghost before_ids = ids@;
            entries.push(entry);
            ids.push(b.id as i128);
            assert(text::texts(entries@) =~= text::texts(before).push(entry@));
            assert(order::ints(ids@) =~= order::ints(before_ids).push(b.id as int));
            j = j + 1;
        }
        assert(order::ints(ids@) =~= listing_ids(t));
        assert(text::texts(entries@) =~= listing_entries(t));
        if ids.len() == 0 {
            return "(no breakpoints set)".to_owned();
        }
        let p = order(&ids);
        let mut sorted: Vec<String> = Vec::new();
        let mut k: usize = 0;
        while k < p.len()
            invariant
                k <= p@.len(),
                p@.len() == entries@.len(),
                forall|x: int| 0 <= x < p@.len() ==> (#[trigger] p@[x]) < entries@.len(),
                text::texts(entries@) == listing_entries(t),
                order::positions(p@) == order::order_of(listing_ids(t)),
                text::texts(sorted@) =~= Seq::new(
                    k as nat,
                    |x: int| listing_entries(t)[order::order_of(listing_ids(t))[x]],
                ),
            decreases p@.len() - k,
        {
            let entry = entries[p[k]].clone();
            assert(order::positions(p@)[k as int] == p@[k as int]);
            assert(entry@ == text::texts(entries@)[p@[k as int] as int]);
            let ghost before = sorted@;
            sorted.push(entry);
            assert(text::texts(sorted@) =~= text::texts(before).push(entry@));
            k = k + 1;
        }
        let joined = join_strings(&sorted, "\n");
        let chars = chars_of(joined.as_str());
        let trimmed = trim_end_chars(&chars);
        string_of(&trimmed)
    }
}

// ---------------------------------------------------------------------------
// Laws
// ---------------------------------------------------------------------------

/// Setting a breakpoint keeps the table in order.
pub proof fn setting_keeps_the_table_in_order(
    t: TableV,
    path: Seq<char>,
    line: u32,
    condition: Option<Seq<char>>,
    log_message: Option<Seq<char>>,
)
    requires
        table_ok(t),
        ids_below_next(t),
    ensures
        set_line(t, path, line, condition, log_message) matches Some(u) ==> table_ok(u)
            && ids_below_next(u),
        set_function(t, path, condition, log_message) matches Some(u) ==> table_ok(u)
            && ids_below_next(u),
{
    if set_line(t, path, line, condition, log_message) is Some {
        set_line_keeps_order(t, path, line, condition, log_message);
    }
    if set_function(t, path, condition, log_message) is Some {
        set_function_keeps_order(t, path, condition, log_message);
    }
}

/// Deleting a breakpoint keeps the table in order.
pub proof fn deleting_keeps_the_table_in_order(t: TableV, id: u32)
    requires
        table_ok(t),
        ids_below_next(t),
    ensures
        table_ok(without_id(t, id)),
        ids_below_next(without_id(t, id)),
{
    without_id_keeps_order(t, id);
}

/// A new breakpoint gets an id that no other has, and while ids are below the
/// next one that id is the next one itself: an id is never given out again,
/// deleted or not.
pub proof fn new_ids_are_fresh(t: TableV)
    requires
        ids_below_next(t),
        t.next_id != 0,
    ensures
        next_free(t) == Some(t.next_id),
        !id_used(t, t.next_id as int),
        t.next_id != u32::MAX ==> after_id(t.next_id) > t.next_id,
        t.next_id == u32::MAX ==> after_id(t.next_id) == 0,
{
    assert(!id_used(t, t.next_id as int));
}

/// Once the last id was given out none is left, whatever is deleted.
pub proof fn exhaustion_is_final(t: TableV, id: u32)
    requires
        t.next_id == 0,
    ensures
        next_free(t) is None,
        next_free(without_id(t, id)) is None,
{
}

/// A change that the adapter refuses leaves no trace, so that the next attempt
/// is made as if it was the first; one that it accepts is kept.
pub proof fn a_refused_change_leaves_no_trace(
    t: TableV,
    path: Seq<char>,
    line: u32,
    condition: Option<Seq<char>>,
    log_message: Option<Seq<char>>,
    refusal: Option<JsonV>,
    consent: JsonV,
    expected: int,
)
    requires
        set_line(t, path, line, condition, log_message) is Some,
        refusal matches Some(body) ==> !verified(body, expected),
        verified(consent, expected),
    ensures
        ({
            let u = set_line(t, path, line, condition, log_message)->0;
            let refused = after_reply(t, u, refusal, expected);
            &&& refused == t
            &&& set_line(refused, path, line, condition, log_message) == Some(u)
            &&& after_reply(refused, u, Some(consent), expected) == u
        }),
{
}

/// Deleting the breakpoint that was just added gives back the breakpoints from
/// before; only the id stays used up.
pub proof fn deleting_undoes_setting(
    t: TableV,
    path: Seq<char>,
    line: u32,
    condition: Option<Seq<char>>,
    log_message: Option<Seq<char>>,
)
    requires
        table_ok(t),
        !has_line(t, path, line),
        next_free(t) is Some,
    ensures
        without_id(
            set_line(t, path, line, condition, log_message)->0,
            next_free(t)->0,
        ) == (TableV { next_id: after_id(next_free(t)->0), ..t }),
{
    let id = next_free(t)->0;
    let u = set_line(t, path, line, condition, log_message)->0;
    first_free_is_free(t, t.next_id as int);
    function_with_id_is_there(u.functions, id, 0);
    line_with_id_is_there(u.lines, id, 0);
    match function_with_id(u.functions, id, 0) {
        Some(k) => {
            assert(t.functions[k].id == id);
        },
        None => {},
    }
    assert(u.lines[t.lines.len() as int].id == id);
    match line_with_id(u.lines, id, 0) {
        Some(k) => {
            if k < t.lines.len() {
                assert(u.lines[k] == t.lines[k]);
            }
            assert(u.lines.remove(k) =~= t.lines);
        },
        None => {},
    }
}

/// Setting a breakpoint twice is setting it once.
pub proof fn setting_twice_is_setting_once(
    t: TableV,
    path: Seq<char>,
    line: u32,
    condition: Option<Seq<char>>,
    log_message: Option<Seq<char>>,
)
    requires
        set_line(t, path, line, condition, log_message) is Some,
    ensures
        set_line(
            set_line(t, path, line, condition, log_message)->0,
            path,
            line,
            condition,
            log_message,
        ) == set_line(t, path, line, condition, log_message),
{
    let u = set_line(t, path, line, condition, log_message)->0;
    if has_line(t, path, line) {
        let i = choose|i: int|
            0 <= i < t.lines.len() && (#[trigger] t.lines[i]).file == path && t.lines[i].line
                == line;
        assert(u.lines[i].file == path && u.lines[i].line == line);
        assert(has_line(u, path, line));
    } else {
        let n = t.lines.len() as int;
        assert(u.lines[n].file == path && u.lines[n].line == line);
        assert(has_line(u, path, line));
    }
    let w = set_line(u, path, line, condition, log_message)->0;
    assert forall|i: int| 0 <= i < u.lines.len() implies w.lines[i] == u.lines[i] by {
        if !has_line(t, path, line) && i < t.lines.len() {
            assert(u.lines[i] == t.lines[i]);
        }
    }
    assert(w.lines =~= u.lines);
}

/// A text in which `sep` does not stand gives way to nothing when it is put
/// before a `sep`: what follows is what is peeled off.
proof fn peel_of_two(head: Seq<char>, sep: Seq<char>, tail: Seq<char>)
    requires
        sep.len() > 0,
        text::trim(tail) == tail,
        forall|j: int| 0 <= j < head.len() ==> !text::occurs_at(head + sep + tail, sep, j),
    ensures
        peel(head + sep + tail, sep) == (head, Some(tail)),
{
    let s = head + sep + tail;
    let i = head.len() as int;
    assert(s.subrange(i, i + sep.len()) =~= sep);
    text::first_is_find_from(s, sep, 0, i);
    assert(s.take(i) =~= head);
    assert(s.skip(i + sep.len()) =~= tail);
}

proof fn place_is_read(file: Seq<char>, line: u32)
    requires
        !file.contains(':'),
        text::trim(file) == file,
    ensures
        ({
            let place = file + ":"@ + text::decimal(line as nat);
            &&& text::rfind(place, ":"@) == Some(file.len() as int)
            &&& place.take(file.len() as int) == file
            &&& text::parse_unsigned(
                text::trim(place.skip(file.len() as int + 1)),
                u32::MAX as int,
            ) == Some(line as int)
        }),
{
    reveal_strlit(":");
    let digits = text::decimal(line as nat);
    let place = file + ":"@ + digits;
    let i = file.len() as int;
    text::number_of_decimal(line as nat);
    text::parse_of_decimal(line as nat, u32::MAX as int);
    assert(place.subrange(i, i + 1) =~= ":"@);
    assert(text::occurs_at(place, ":"@, i));
    text::rfind_from_is_last(place, ":"@, place.len() - 1);
    assert forall|j: int| i < j <= place.len() - 1 implies !text::occurs_at(place, ":"@, j) by {
        assert(text::is_digit(digits[j - i - 1]));
        if text::occurs_at(place, ":"@, j) {
            assert(place.subrange(j, j + 1)[0] == ':');
        }
    }
    assert(place.take(i) =~= file);
    assert(place.skip(i + 1) =~= digits);
    text::digits_are_trimmed(digits);
}

/// `before`, with an option and the word that announces it where there is one.
pub open spec fn with_option(
    before: Seq<char>,
    word: Seq<char>,
    option: Option<Seq<char>>,
) -> Seq<char> {
    match option {
        Some(o) => before + word + o,
        None => before,
    }
}

/// What follows ` log ` is the template of a log point and what follows ` if `
/// is the condition: a command that is written with them is read back as it was
/// meant.
pub proof fn a_command_is_read_as_it_was_meant(
    file: Seq<char>,
    line: u32,
    condition: Option<Seq<char>>,
    log_message: Option<Seq<char>>,
    short: bool,
)
    requires
        !file.contains(':'),
        text::trim(file) == file,
        condition matches Some(c) ==> text::trim(c) == c,
        log_message matches Some(m) ==> text::trim(m) == m,
        ({
            let place = file + ":"@ + text::decimal(line as nat);
            let head = with_option(place, " if "@, condition);
            let operand = with_option(head, " log "@, log_message);
            &&& forall|j: int|
                0 <= j < place.len() ==> !#[trigger] text::occurs_at(head, " if "@, j)
            &&& forall|j: int|
                0 <= j < head.len() ==> !#[trigger] text::occurs_at(operand, " log "@, j)
        }),
    ensures
        ({
            let place = file + ":"@ + text::decimal(line as nat);
            let head = with_option(place, " if "@, condition);
            let operand = with_option(head, " log "@, log_message);
            let verb = if short {
                "b "@
            } else {
                "break "@
            };
            parsed_break(verb + operand) == Some(
                BreakSpecV { file, line, condition, log_message },
            )
        }),
{
    reveal_strlit(" if ");
    reveal_strlit(" log ");
    reveal_strlit("b ");
    reveal_strlit("break ");
    let place = file + ":"@ + text::decimal(line as nat);
    let head = with_option(place, " if "@, condition);
    let operand = with_option(head, " log "@, log_message);
    let verb = if short {
        "b "@
    } else {
        "break "@
    };
    let cmd = verb + operand;
    assert(cmd.subrange(0, verb.len() as int) =~= verb);
    assert(cmd.skip(verb.len() as int) =~= operand);
    if short {
        assert(!text::starts_with(cmd, "break "@)) by {
            if text::starts_with(cmd, "break "@) {
                assert(cmd.subrange(0, 6)[1] == 'r');
                assert(cmd[1] == ' ');
            }
        }
    }
    assert(break_operand(cmd) == Some(operand));
    match log_message {
        Some(m) => {
            peel_of_two(head, " log "@, m);
        },
        None => {
            text::find_from_is_first(head, " log "@, 0);
        },
    }
    match condition {
        Some(c) => {
            peel_of_two(place, " if "@, c);
        },
        None => {
            text::find_from_is_first(place, " if "@, 0);
        },
    }
    place_is_read(file, line);
}

/// A breakpoint that is set stands at its place with its own condition and log
/// message; every other one stays as it was.
pub proof fn a_set_breakpoint_stands(
    t: TableV,
    path: Seq<char>,
    line: u32,
    condition: Option<Seq<char>>,
    log_message: Option<Seq<char>>,
)
    requires
        table_ok(t),
        set_line(t, path, line, condition, log_message) is Some,
    ensures
        ({
            let u = set_line(t, path, line, condition, log_message)->0;
            &&& exists|i: int|
                0 <= i < u.lines.len() && (#[trigger] u.lines[i]).file == path && u.lines[i].line
                    == line && u.lines[i].condition == condition && u.lines[i].log_message
                    == log_message
            &&& forall|i: int|
                0 <= i < t.lines.len() && !((#[trigger] t.lines[i]).file == path && t.lines[i].line
                    == line) ==> u.lines[i] == t.lines[i]
            &&& forall|i: int| 0 <= i < t.lines.len() ==> (#[trigger] u.lines[i]).id == t.lines[i].id
            &&& u.functions == t.functions
            &&& u.lines.len() == t.lines.len() + (if has_line(t, path, line) {
                0int
            } else {
                1
            })
        }),
{
    let u = set_line(t, path, line, condition, log_message)->0;
    if has_line(t, path, line) {
        let i = choose|i: int|
            0 <= i < t.lines.len() && (#[trigger] t.lines[i]).file == path && t.lines[i].line
                == line;
        assert(u.lines[i].condition == condition);
    } else {
        assert(u.lines[t.lines.len() as int].condition == condition);
    }
}

/// The same of a function breakpoint.
pub proof fn a_set_function_breakpoint_stands(
    t: TableV,
    name: Seq<char>,
    condition: Option<Seq<char>>,
    log_message: Option<Seq<char>>,
)
    requires
        table_ok(t),
        set_function(t, name, condition, log_message) is Some,
    ensures
        ({
            let u = set_function(t, name, condition, log_message)->0;
            &&& exists|i: int|
                0 <= i < u.functions.len() && (#[trigger] u.functions[i]).name == name
                    && u.functions[i].condition == condition && u.functions[i].log_message
                    == log_message
            &&& forall|i: int|
                0 <= i < t.functions.len() && (#[trigger] t.functions[i]).name != name
                    ==> u.functions[i] == t.functions[i]
            &&& forall|i: int|
                0 <= i < t.functions.len() ==> (#[trigger] u.functions[i]).id == t.functions[i].id
            &&& u.lines == t.lines
        }),
{
    let u = set_function(t, name, condition, log_message)->0;
    if has_function(t, name) {
        let i = choose|i: int| 0 <= i < t.functions.len() && (#[trigger] t.functions[i]).name == name;
        assert(u.functions[i].condition == condition);
    } else {
        assert(u.functions[t.functions.len() as int].condition == condition);
    }
}

/// Deleting takes away the breakpoint with that id and no other.
pub proof fn deleting_takes_away_one(t: TableV, id: u32)
    requires
        table_ok(t),
    ensures
        ({
            let u = without_id(t, id);
            &&& !id_used(u, id as int)
            &&& forall|i: int|
                0 <= i < t.lines.len() && (#[trigger] t.lines[i]).id != id ==> u.lines.contains(
                    t.lines[i],
                )
            &&& forall|i: int|
                0 <= i < t.functions.len() && (#[trigger] t.functions[i]).id != id
                    ==> u.functions.contains(t.functions[i])
            &&& forall|i: int|
                0 <= i < u.lines.len() ==> t.lines.contains(#[trigger] u.lines[i])
            &&& forall|i: int|
                0 <= i < u.functions.len() ==> t.functions.contains(#[trigger] u.functions[i])
        }),
{
    let u = without_id(t, id);
    function_with_id_is_there(t.functions, id, 0);
    line_with_id_is_there(t.lines, id, 0);
    let fk = function_with_id(t.functions, id, 0);
    let lk = line_with_id(t.lines, id, 0);
    assert forall|i: int| 0 <= i < t.lines.len() && (#[trigger] t.lines[i]).id
        != id implies u.lines.contains(t.lines[i]) by {
        if fk is None && lk is Some {
            let k = lk->0;
            assert(u.lines[if i < k {
                i
            } else {
                i - 1
            }] == t.lines[i]);
        } else {
            assert(u.lines[i] == t.lines[i]);
        }
    }
    assert forall|i: int| 0 <= i < t.functions.len() && (#[trigger] t.functions[i]).id
        != id implies u.functions.contains(t.functions[i]) by {
        if fk is Some {
            let k = fk->0;
            assert(u.functions[if i < k {
                i
            } else {
                i - 1
            }] == t.functions[i]);
        } else {
            assert(u.functions[i] == t.functions[i]);
        }
    }
    assert forall|i: int| 0 <= i < u.lines.len() implies t.lines.contains(#[trigger] u.lines[i])
        && u.lines[i].id != id by {
        if fk is None && lk is Some {
            let k = lk->0;
            let j = if i < k {
                i
            } else {
                i + 1
            };
            assert(u.lines[i] == t.lines[j]);
            assert(t.lines[k].id != t.lines[j].id);
        } else {
            assert(u.lines[i] == t.lines[i]);
            if fk is Some {
                assert(t.lines[i].id != t.functions[fk->0].id);
            }
        }
    }
    assert forall|i: int| 0 <= i < u.functions.len() implies t.functions.contains(
        #[trigger] u.functions[i],
    ) && u.functions[i].id != id by {
        if fk is Some {
            let k = fk->0;
            let j = if i < k {
                i
            } else {
                i + 1
            };
            assert(u.functions[i] == t.functions[j]);
            assert(t.functions[k].id != t.functions[j].id);
        } else {
            assert(u.functions[i] == t.functions[i]);
        }
    }
}

proof fn of_file_is_of_the_file(lines: Seq<LineV>, path: Seq<char>)
    ensures
        ({
            let f = of_file(lines, path);
            &&& forall|k: int|
                0 <= k < f.len() ==> (#[trigger] f[k]).file == path && lines.contains(f[k])
            &&& forall|i: int|
                0 <= i < lines.len() && (#[trigger] lines[i]).file == path ==> f.contains(lines[i])
        }),
    decreases lines.len(),
{
    if lines.len() > 0 {
        let front = lines.drop_last();
        of_file_is_of_the_file(front, path);
        let g = of_file(front, path);
        let f = of_file(lines, path);
        assert forall|k: int| 0 <= k < f.len() implies (#[trigger] f[k]).file == path
            && lines.contains(f[k]) by {
            if k < g.len() {
                assert(f[k] == g[k]);
                assert(front.contains(g[k]));
                let j = choose|j: int| 0 <= j < front.len() && front[j] == g[k];
                assert(lines[j] == f[k]);
            } else {
                assert(lines[lines.len() - 1] == f[k]);
            }
        }
        assert forall|i: int| 0 <= i < lines.len() && (#[trigger] lines[i]).file
            == path implies f.contains(lines[i]) by {
            if i < lines.len() - 1 {
                assert(front[i] == lines[i]);
                assert(g.contains(front[i]));
                let j = choose|j: int| 0 <= j < g.len() && g[j] == front[i];
                assert(f[j] == lines[i]);
            } else {
                assert(f[g.len() as int] == lines[i]);
            }
        }
    }
}

/// The entries of a request that sets breakpoints.
pub open spec fn entries_told(arguments: JsonV) -> Seq<JsonV> {
    match arguments {
        JsonV::Object(m) => match m["breakpoints"@] {
            JsonV::Array(s) => s,
            _ => Seq::empty(),
        },
        _ => Seq::empty(),
    }
}

/// What the adapter is told of a file is the whole set: each breakpoint of the
/// file, with its line, its condition and its log message, and none of another
/// file.
pub proof fn the_whole_set_of_a_file_is_told(t: TableV, path: Seq<char>)
    ensures
        line_arguments(t.lines, path)->Object_0.contains_pair(
            "source"@,
            JsonV::Object(map!["path"@ => JsonV::Str(path)]),
        ),
        line_arguments(t.lines, path)->Object_0.contains_pair(
            "breakpoints"@,
            JsonV::Array(entries_told(line_arguments(t.lines, path))),
        ),
        entries_told(line_arguments(t.lines, path)).len() == of_file(t.lines, path).len(),
        forall|i: int|
            0 <= i < t.lines.len() && (#[trigger] t.lines[i]).file == path ==> exists|k: int|
                0 <= k < entries_told(line_arguments(t.lines, path)).len() && tells(
                    #[trigger] entries_told(line_arguments(t.lines, path))[k],
                    t.lines[i],
                ),
        forall|k: int|
            0 <= k < entries_told(line_arguments(t.lines, path)).len() ==> tells_of_some(
                #[trigger] entries_told(line_arguments(t.lines, path))[k],
                t.lines,
                path,
            ),
{
    reveal_strlit("source");
    reveal_strlit("breakpoints");
    reveal_strlit("sourceModified");
    assert("source"@.len() == 6 && "breakpoints"@.len() == 11 && "sourceModified"@.len() == 14);
    let f = of_file(t.lines, path);
    let told = entries_told(line_arguments(t.lines, path));
    assert(told =~= Seq::new(f.len(), |i: int| line_value(f[i])));
    of_file_is_of_the_file(t.lines, path);
    assert forall|i: int| 0 <= i < t.lines.len() && (#[trigger] t.lines[i]).file
        == path implies exists|k: int|
        0 <= k < told.len() && tells(#[trigger] told[k], t.lines[i]) by {
        assert(f.contains(t.lines[i]));
        let k = choose|k: int| 0 <= k < f.len() && f[k] == t.lines[i];
        a_line_is_told(f[k]);
        assert(tells(told[k], t.lines[i]));
    }
    assert forall|k: int| 0 <= k < told.len() implies tells_of_some(
        #[trigger] told[k],
        t.lines,
        path,
    ) by {
        assert(t.lines.contains(f[k]));
        let i = choose|i: int| 0 <= i < t.lines.len() && t.lines[i] == f[k];
        a_line_is_told(f[k]);
        assert(t.lines[i].file == path);
        assert(tells(told[k], t.lines[i]));
    }
}

/// An entry of a request tells of a line breakpoint.
pub open spec fn tells(entry: JsonV, b: LineV) -> bool {
    match entry {
        JsonV::Object(m) => {
            &&& m.contains_pair("line"@, JsonV::Int(b.line as int))
            &&& match b.condition {
                Some(c) => m.contains_pair("condition"@, JsonV::Str(c)),
                None => !m.dom().contains("condition"@),
            }
            &&& match b.log_message {
                Some(l) => m.contains_pair("logMessage"@, JsonV::Str(l)),
                None => !m.dom().contains("logMessage"@),
            }
        },
        _ => false,
    }
}

/// An entry of a request tells of one of the breakpoints of a file.
pub open spec fn tells_of_some(entry: JsonV, lines: Seq<LineV>, path: Seq<char>) -> bool {
    exists|i: int|
        0 <= i < lines.len() && (#[trigger] lines[i]).file == path && tells(entry, lines[i])
}

proof fn option_names_differ()
    ensures
        "line"@ != "condition"@,
        "line"@ != "logMessage"@,
        "name"@ != "condition"@,
        "name"@ != "logMessage"@,
        "condition"@ != "logMessage"@,
{
    reveal_strlit("line");
    reveal_strlit("name");
    reveal_strlit("condition");
    reveal_strlit("logMessage");
    assert("line"@.len() == 4 && "name"@.len() == 4 && "condition"@.len() == 9);
    assert("logMessage"@.len() == 10);
}

proof fn a_line_is_told(b: LineV)
    ensures
        tells(line_value(b), b),
{
    option_names_differ();
}

/// The adapter is told every function breakpoint, each with its name, its
/// condition and its log message.
pub proof fn every_function_is_told(functions: Seq<FunctionV>, i: int)
    requires
        0 <= i < functions.len(),
    ensures
        ({
            let m = function_arguments(functions)->Object_0;
            let told = m["breakpoints"@]->Array_0;
            let f = functions[i];
            &&& m.contains_pair("breakpoints"@, JsonV::Array(told))
            &&& told.len() == functions.len()
            &&& told[i] is Object
            &&& told[i]->Object_0.contains_pair("name"@, JsonV::Str(f.name))
            &&& match f.condition {
                Some(c) => told[i]->Object_0.contains_pair("condition"@, JsonV::Str(c)),
                None => !told[i]->Object_0.dom().contains("condition"@),
            }
            &&& match f.log_message {
                Some(l) => told[i]->Object_0.contains_pair("logMessage"@, JsonV::Str(l)),
                None => !told[i]->Object_0.dom().contains("logMessage"@),
            }
        }),
{
    option_names_differ();
}

/// A reply confirms breakpoints only where it lists as many as were asked for
/// and marks each of them as verified.
pub proof fn a_reply_confirms_each_breakpoint(
    reply: Map<Seq<char>, JsonV>,
    items: Seq<JsonV>,
    expected: int,
)
    requires
        reply.contains_pair("breakpoints"@, JsonV::Array(items)),
    ensures
        verified(JsonV::Object(reply), expected) ==> items.len() == expected,
        verified(JsonV::Object(reply), expected) ==> forall|i: int|
            0 <= i < items.len() ==> (#[trigger] items[i]) is Object && items[
                i
            ]->Object_0.contains_pair("verified"@, JsonV::Bool(true)),
        items.len() == expected && (forall|i: int|
            0 <= i < items.len() ==> (#[trigger] items[i]) is Object && items[
                i
            ]->Object_0.contains_pair("verified"@, JsonV::Bool(true))) ==> verified(
            JsonV::Object(reply),
            expected,
        ),
{
    let v = JsonV::Object(reply);
    if verified(v, expected) {
        assert forall|i: int| 0 <= i < items.len() implies (#[trigger] items[i]) is Object
            && items[i]->Object_0.contains_pair("verified"@, JsonV::Bool(true)) by {
            assert(json::bool_of(json::field(items[i], "verified"@)) == Some(true));
        }
    }
    if items.len() == expected && (forall|i: int|
        0 <= i < items.len() ==> (#[trigger] items[i]) is Object && items[
            i
        ]->Object_0.contains_pair("verified"@, JsonV::Bool(true))) {
        assert forall|i: int| 0 <= i < items.len() implies json::bool_of(
            json::field(#[trigger] items[i], "verified"@),
        ) == Some(true) by {
            assert(items[i] is Object);
        }
    }
}

/// A relative file is taken from the working directory, with one slash between
/// the two; an absolute one stands for itself.
pub proof fn files_are_taken_from_the_working_directory(dir: Seq<char>, file: Seq<char>)
    requires
        dir.len() > 0,
        dir.last() != '/',
    ensures
        file.len() > 0 && file[0] == '/' ==> resolved_path(Some(dir), file) == file,
        !(file.len() > 0 && file[0] == '/') ==> resolved_path(Some(dir), file) == dir + "/"@ + file,
        !(file.len() > 0 && file[0] == '/') ==> resolved_path(Some(dir + "/"@), file) == dir + "/"@
            + file,
        resolved_path(None, file) == file,
{
    reveal_strlit("/");
}

/// Every breakpoint has its line in the listing: its id with its place or its
/// function.
pub proof fn every_breakpoint_is_listed(t: TableV, i: int)
    requires
        0 <= i < t.lines.len() + t.functions.len(),
        forall|k: int|
            0 <= k < t.functions.len() ==> (#[trigger] t.functions[k]).name.len() > 0
                && !text::is_white(t.functions[k].name.last()),
    ensures
        i < t.lines.len() ==> text::contains(
            listing(t),
            text::decimal(t.lines[i].id as nat) + ": "@ + t.lines[i].file + ":"@ + text::decimal(
                t.lines[i].line as nat,
            ),
        ),
        i >= t.lines.len() ==> text::contains(
            listing(t),
            text::decimal(t.functions[i - t.lines.len()].id as nat) + ": function "@
                + t.functions[i - t.lines.len()].name,
        ),
{
    let ids = listing_ids(t);
    let entries = listing_entries(t);
    order::there_is_an_order(ids);
    let p = order::order_of(ids);
    let parts = Seq::new(p.len(), |i: int| entries[p[i]]);
    assert(p.contains(i));
    let k = choose|k: int| 0 <= k < p.len() && p[k] == i;
    assert(parts[k] == entries[i]);
    text::join_holds_each_part(parts, "\n"@, k);
    let last = entries[p[p.len() - 1]];
    assert(parts.last() == last);
    let q = p[p.len() - 1];
    if q < t.lines.len() {
        let digits = text::decimal(t.lines[q].line as nat);
        text::number_of_decimal(t.lines[q].line as nat);
        assert(last.last() == digits.last());
        assert(text::is_digit(digits[digits.len() - 1]));
    } else {
        let f = t.functions[q - t.lines.len()];
        assert(last.last() == f.name.last());
    }
    text::join_ends_with_the_last_part(parts, "\n"@);
    assert(listing(t) == text::join(parts, "\n"@));
}

/// A reply that lists nothing confirms no breakpoint: it is enough only where
/// none was asked for.
pub proof fn a_reply_without_a_list_confirms_nothing(
    reply: Map<Seq<char>, JsonV>,
    expected: int,
)
    requires
        !reply.dom().contains("breakpoints"@),
    ensures
        verified(JsonV::Object(reply), expected) <==> expected == 0,
        verified(JsonV::Null, expected) <==> expected == 0,
{
}

/// A deletion takes one breakpoint away and tells the adapter what is left: the
/// functions where it was one of these, and else the lines of its file.
pub proof fn a_deletion_tells_what_is_left(
    before: TableV,
    after: TableV,
    id: u32,
    p: PendingChange,
    i: int,
)
    requires
        table_ok(before),
        is_deletion(before, after, id, p),
    ensures
        0 <= i < before.functions.len() && before.functions[i].id == id ==> {
            &&& p.command == SetCommand::SetFunctionBreakpoints
            &&& p.arguments.view() == function_arguments(before.functions.remove(i))
            &&& p.expected == before.functions.len() - 1
            &&& after.lines == before.lines
            &&& p.done@ == "Breakpoint "@ + text::decimal(id as nat) + " cleared (function "@
                + before.functions[i].name + ")"@
        },
        0 <= i < before.lines.len() && before.lines[i].id == id ==> {
            &&& p.command == SetCommand::SetBreakpoints
            &&& p.arguments.view() == line_arguments(
                before.lines.remove(i),
                before.lines[i].file,
            )
            &&& after.functions == before.functions
            &&& p.done@ == "Breakpoint "@ + text::decimal(id as nat) + " cleared ("@
                + text::decimal(before.lines[i].line as nat) + ")"@
        },
        p.snapshot.view() == before,
{
    function_with_id_is_there(before.functions, id, 0);
    line_with_id_is_there(before.lines, id, 0);
    if 0 <= i < before.functions.len() && before.functions[i].id == id {
        let k = function_with_id(before.functions, id, 0)->0;
        assert(k == i);
    }
    if 0 <= i < before.lines.len() && before.lines[i].id == id {
        if function_with_id(before.functions, id, 0) is Some {
            let k = function_with_id(before.functions, id, 0)->0;
            assert(before.lines[i].id != before.functions[k].id);
        }
        let k = line_with_id(before.lines, id, 0)->0;
        assert(k == i);
    }
}

/// An answer tells the place, the condition and the log message of what was
/// set.
pub proof fn an_answer_tells_what_was_set(file: Seq<char>, line: u32, c: Seq<char>, m: Seq<char>)
    ensures
        line_set_text((BreakSpecV { file, line, condition: None, log_message: None }))
            == "Breakpoint set at "@ + file + ":"@ + text::decimal(line as nat),
        line_set_text((BreakSpecV { file, line, condition: Some(c), log_message: None }))
            == "Breakpoint set at "@ + file + ":"@ + text::decimal(line as nat) + " if "@ + c,
        line_set_text((BreakSpecV { file, line, condition: None, log_message: Some(m) }))
            == "Logpoint set at "@ + file + ":"@ + text::decimal(line as nat) + ": "@ + m,
        line_set_text((BreakSpecV { file, line, condition: Some(c), log_message: Some(m) }))
            == "Logpoint set at "@ + file + ":"@ + text::decimal(line as nat) + " if "@ + c + ": "@
            + m,
{
    let b = "Breakpoint set at "@ + file + ":"@ + text::decimal(line as nat);
    let l = "Logpoint set at "@ + file + ":"@ + text::decimal(line as nat);
    assert(b + Seq::<char>::empty() == b);
    assert(b + (" if "@ + c) == b + " if "@ + c);
    assert(l + (Seq::<char>::empty() + ": "@ + m) == l + ": "@ + m);
    assert(l + (" if "@ + c + ": "@ + m) == l + " if "@ + c + ": "@ + m);
}

/// An answer names the function, the condition and the log message of what was
/// set.
pub proof fn an_answer_names_the_function(name: Seq<char>, c: Seq<char>, m: Seq<char>)
    ensures
        function_set_text(name, None, None) == "Function breakpoint set: "@ + name,
        function_set_text(name, Some(c), None) == "Function breakpoint set: "@ + name + " if "@ + c,
        function_set_text(name, None, Some(m)) == "Function logpoint set: "@ + name + ": "@ + m,
        function_set_text(name, Some(c), Some(m)) == "Function logpoint set: "@ + name + " if "@ + c
            + ": "@ + m,
{
    let b = "Function breakpoint set: "@ + name;
    let l = "Function logpoint set: "@ + name;
    assert(b + Seq::<char>::empty() == b);
    assert(b + (" if "@ + c) == b + " if "@ + c);
    assert(l + (Seq::<char>::empty() + ": "@ + m) == l + ": "@ + m);
    assert(l + (" if "@ + c + ": "@ + m) == l + " if "@ + c + ": "@ + m);
}

/// An error says what could not be done, and to which breakpoint.
pub proof fn an_error_names_its_breakpoint(file: Seq<char>, line: u32, name: Seq<char>, id: u32)
    ensures
        error_text(BreakpointErrorV::Exhausted) == "breakpoint id space exhausted"@,
        error_text(BreakpointErrorV::ZeroId) == "delete: breakpoint ids start at 1"@,
        error_text(BreakpointErrorV::UnknownId(id)) == "delete: no breakpoint id "@ + text::decimal(
            id as nat,
        ) + "; run `dbg breaks` to list ids"@,
        error_text(BreakpointErrorV::Adapter(name)) == name,
        error_text(BreakpointErrorV::LineNotVerified { file, line }) == "breakpoint at "@ + file
            + ":"@ + text::decimal(line as nat) + " was not verified by the adapter"@,
        error_text(BreakpointErrorV::FunctionNotVerified(name)) == "function breakpoint `"@ + name
            + "` was not verified by the adapter"@,
        error_text(BreakpointErrorV::IdNotVerified(id)) == "breakpoint "@ + text::decimal(id as nat)
            + " was not verified by the adapter"@,
{
}

} // verus!
