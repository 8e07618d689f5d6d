//! The commands of a debug session: their grammar, the requests they make and
//! the answers they give.

use vstd::prelude::*;

use crate::breakpoints;
use crate::breakpoints::{parse_break, BreakSpec, BreakSpecV};
use crate::json;
use crate::json::{json_text, push_item, put, put_int, put_str, Json, JsonV};
use crate::session;
use crate::session::{source_path, State};
use crate::text;
use crate::text::{
    chars_of, cut, decimal_chars, extend_chars, extend_str, find_chars, join_strings, lines_of,
    lower_ascii, pad_left_chars, parse_bounded_chars, parse_i64_chars, rfind_chars, same_text,
    signed_decimal_chars, starts_with_chars, string_of, trim_chars, trim_end_chars,
};

verus! {

// ---------------------------------------------------------------------------
// Grammar
// ---------------------------------------------------------------------------

/// How execution continues.
#[derive(Clone, Copy, Debug, PartialEq, Eq, Structural)]
pub enum Execution {
    Continue,
    StepIn,
    Next,
    StepOut,
}

/// What the user asks for.
#[derive(Debug)]
pub enum Command {
    Execute(Execution),
    Pause,
    Restart,
    /// Stop at no exception.
    CatchNothing,
    /// Stop at the exceptions that these filters name.
    Catch(Vec<String>),
    Backtrace,
    ListBreakpoints,
    DeleteBreakpoint(u32),
    InvalidBreakpointId,
    Locals,
    Threads,
    SelectThread(i64),
    ListSource(Option<String>),
    BreakFunction { name: String, condition: Option<String> },
    Break(BreakSpec),
    Print(String),
    Assign(String),
    Exit,
    Unsupported(String),
}

pub enum CommandV {
    Execute(Execution),
    Pause,
    Restart,
    CatchNothing,
    Catch(Seq<Seq<char>>),
    Backtrace,
    ListBreakpoints,
    DeleteBreakpoint(u32),
    InvalidBreakpointId,
    Locals,
    Threads,
    SelectThread(i64),
    ListSource(Option<Seq<char>>),
    BreakFunction { name: Seq<char>, condition: Option<Seq<char>> },
    Break(BreakSpecV),
    Print(Seq<char>),
    Assign(Seq<char>),
    Exit,
    Unsupported(Seq<char>),
}

impl Command {
    pub open spec fn view(&self) -> CommandV {
        match self {
            Command::Execute(e) => CommandV::Execute(*e),
            Command::Pause => CommandV::Pause,
            Command::Restart => CommandV::Restart,
            Command::CatchNothing => CommandV::CatchNothing,
            Command::Catch(v) => CommandV::Catch(text::texts(v@)),
            Command::Backtrace => CommandV::Backtrace,
            Command::ListBreakpoints => CommandV::ListBreakpoints,
            Command::DeleteBreakpoint(id) => CommandV::DeleteBreakpoint(*id),
            Command::InvalidBreakpointId => CommandV::InvalidBreakpointId,
            Command::Locals => CommandV::Locals,
            Command::Threads => CommandV::Threads,
            Command::SelectThread(n) => CommandV::SelectThread(*n),
            Command::ListSource(s) => CommandV::ListSource(text::opt_text(*s)),
            Command::BreakFunction { name, condition } => CommandV::BreakFunction {
                name: name@,
                condition: text::opt_text(*condition),
            },
            Command::Break(b) => CommandV::Break(b.view()),
            Command::Print(s) => CommandV::Print(s@),
            Command::Assign(s) => CommandV::Assign(s@),
            Command::Exit => CommandV::Exit,
            Command::Unsupported(s) => CommandV::Unsupported(s@),
        }
    }
}

/// What follows the first of two prefixes that `s` begins with.
pub open spec fn after_either(s: Seq<char>, a: Seq<char>, b: Seq<char>) -> Option<Seq<char>> {
    if text::starts_with(s, a) {
        Some(s.skip(a.len() as int))
    } else if text::starts_with(s, b) {
        Some(s.skip(b.len() as int))
    } else {
        None
    }
}

/// What separates exception filters: ASCII white space and commas.
pub open spec fn is_separator(c: char) -> bool {
    c == ' ' || c == '\t' || c == '\n' || c == '\u{c}' || c == '\r' || c == ','
}

pub open spec fn skip_separators(s: Seq<char>, i: int) -> int
    decreases s.len() - i,
{
    if 0 <= i < s.len() && is_separator(s[i]) {
        skip_separators(s, i + 1)
    } else {
        i
    }
}

pub open spec fn skip_filter(s: Seq<char>, i: int) -> int
    decreases s.len() - i,
{
    if 0 <= i < s.len() && !is_separator(s[i]) {
        skip_filter(s, i + 1)
    } else {
        i
    }
}

/// The maximal runs without a separator, from position `i` on.
pub open spec fn filters_from(s: Seq<char>, i: int) -> Seq<Seq<char>>
    decreases s.len() - i,
{
    let a = skip_separators(s, i);
    let b = skip_filter(s, a);
    if i <= a < b <= s.len() {
        seq![s.subrange(a, b)] + filters_from(s, b)
    } else {
        Seq::empty()
    }
}

/// The thread number that follows `thread `.
pub open spec fn thread_number(s: Seq<char>) -> Option<int> {
    if text::starts_with(s, "thread "@) {
        text::parse_signed(text::trim(s.skip("thread "@.len() as int)))
    } else {
        None
    }
}

/// The command that a trimmed line stands for.
pub open spec fn command_in(s: Seq<char>) -> CommandV {
    if s == "cont"@ || s == "c"@ || s == "continue"@ {
        CommandV::Execute(Execution::Continue)
    } else if s == "step"@ || s == "s"@ || s == "stepi"@ {
        CommandV::Execute(Execution::StepIn)
    } else if s == "next"@ || s == "n"@ {
        CommandV::Execute(Execution::Next)
    } else if s == "out"@ || s == "finish"@ {
        CommandV::Execute(Execution::StepOut)
    } else if s == "pause"@ {
        CommandV::Pause
    } else if s == "restart"@ {
        CommandV::Restart
    } else if s == "catch"@ || s == "catch off"@ {
        CommandV::CatchNothing
    } else if text::starts_with(s, "catch "@) {
        CommandV::Catch(filters_from(s.skip("catch "@.len() as int), 0))
    } else if s == "backtrace"@ || s == "bt"@ || s == "where"@ {
        CommandV::Backtrace
    } else if s == "breakpoints"@ {
        CommandV::ListBreakpoints
    } else if after_either(s, "breakpoint delete "@, "delete "@) is Some {
        let rest = after_either(s, "breakpoint delete "@, "delete "@)->0;
        match text::parse_unsigned(text::trim(rest), u32::MAX as int) {
            Some(n) => CommandV::DeleteBreakpoint(n as u32),
            None => CommandV::InvalidBreakpointId,
        }
    } else if s == "locals"@ {
        CommandV::Locals
    } else if s == "threads"@ || s == "thread list"@ {
        CommandV::Threads
    } else if thread_number(s) is Some {
        CommandV::SelectThread(thread_number(s)->0 as i64)
    } else if s == "list"@ {
        CommandV::ListSource(None)
    } else if text::starts_with(s, "list "@) {
        CommandV::ListSource(Some(text::trim(s.skip("list "@.len() as int))))
    } else if text::starts_with(s, "bfn "@) {
        let (name, condition) = breakpoints::peel(s.skip("bfn "@.len() as int), " if "@);
        CommandV::BreakFunction { name: text::trim(name), condition: condition }
    } else if breakpoints::parsed_break(s) is Some {
        CommandV::Break(breakpoints::parsed_break(s)->0)
    } else if after_either(s, "print "@, "p "@) is Some {
        CommandV::Print(after_either(s, "print "@, "p "@)->0)
    } else if text::starts_with(s, "set "@) {
        CommandV::Assign(s.skip("set "@.len() as int))
    } else if s == ".exit"@ || s == "quit"@ {
        CommandV::Exit
    } else {
        CommandV::Unsupported(s)
    }
}

/// The command that a line stands for.
pub open spec fn parsed_command(line: Seq<char>) -> CommandV {
    command_in(text::trim(line))
}

fn after_prefix(s: &Vec<char>, prefix: &str) -> (r: Option<Vec<char>>)
    ensures
        match r {
            Some(v) => text::starts_with(s@, prefix@) && v@ == s@.skip(prefix@.len() as int),
            None => !text::starts_with(s@, prefix@),
        },
{
    let p = chars_of(prefix);
    if starts_with_chars(s, &p) {
        let v = cut(s, p.len(), s.len());
        assert(v@ =~= s@.skip(prefix@.len() as int));
        Some(v)
    } else {
        None
    }
}

fn after_either_prefix(s: &Vec<char>, a: &str, b: &str) -> (r: Option<Vec<char>>)
    ensures
        match r {
            Some(v) => after_either(s@, a@, b@) == Some(v@),
            None => after_either(s@, a@, b@) is None,
        },
{
    match after_prefix(s, a) {
        Some(v) => Some(v),
        None => after_prefix(s, b),
    }
}

fn is_separator_char(c: char) -> (r: bool)
    ensures
        r == is_separator(c),
{
    c == ' ' || c == '\t' || c == '\n' || c == '\u{c}' || c == '\r' || c == ','
}

fn filters_of(s: &Vec<char>) -> (r: Vec<String>)
    ensures
        text::texts(r@) == filters_from(s@, 0),
{
    let mut out: Vec<String> = Vec::new();
    let mut i: usize = 0;
    loop
        invariant
            i <= s@.len(),
            text::texts(out@) + filters_from(s@, i as int) =~= filters_from(s@, 0),
        decreases s@.len() - i,
    {
        let mut a: usize = i;
        while a < s.len() && is_separator_char(s[a])
            invariant
                i <= a <= s@.len(),
                skip_separators(s@, i as int) == skip_separators(s@, a as int),
            decreases s@.len() - a,
        {
            a = a + 1;
        }
        let mut b: usize = a;
        while b < s.len() && !is_separator_char(s[b])
            invariant
                a <= b <= s@.len(),
                skip_filter(s@, a as int) == skip_filter(s@, b as int),
            decreases s@.len() - b,
        {
            b = b + 1;
        }
        if a < b {
            let filter = cut(s, a, b);
            let name = string_of(&filter);
            let ghost before = out@;
            out.push(name);
            assert(text::texts(out@) =~= text::texts(before).push(name@));
            i = b;
        } else {
            return out;
        }
    }
}

fn is_one_of(s: &str, a: &str, b: &str, c: &str) -> (r: bool)
    ensures
        r == (s@ == a@ || s@ == b@ || s@ == c@),
{
    same_text(s, a) || same_text(s, b) || same_text(s, c)
}

/// Reads a command line.
pub fn parse_command(line: &str) -> (r: Command)
    ensures
        r.view() == parsed_command(line@),
{
    let all = chars_of(line);
    let chars = trim_chars(&all);
    let trimmed = string_of(&chars);
    let s: &str = trimmed.as_str();
    if is_one_of(s, "cont", "c", "continue") {
        return Command::Execute(Execution::Continue);
    }
    if is_one_of(s, "step", "s", "stepi") {
        return Command::Execute(Execution::StepIn);
    }
    if same_text(s, "next") || same_text(s, "n") {
        return Command::Execute(Execution::Next);
    }
    if same_text(s, "out") || same_text(s, "finish") {
        return Command::Execute(Execution::StepOut);
    }
    if same_text(s, "pause") {
        return Command::Pause;
    }
    if same_text(s, "restart") {
        return Command::Restart;
    }
    if same_text(s, "catch") || same_text(s, "catch off") {
        return Command::CatchNothing;
    }
    if let Some(rest) = after_prefix(&chars, "catch ") {
        return Command::Catch(filters_of(&rest));
    }
    if is_one_of(s, "backtrace", "bt", "where") {
        return Command::Backtrace;
    }
    if same_text(s, "breakpoints") {
        return Command::ListBreakpoints;
    }
    if let Some(rest) = after_either_prefix(&chars, "breakpoint delete ", "delete ") {
        let number = trim_chars(&rest);
        return match parse_bounded_chars(&number, u32::MAX as u64) {
            Some(n) => Command::DeleteBreakpoint(n as u32),
            None => Command::InvalidBreakpointId,
        };
    }
    if same_text(s, "locals") {
        return Command::Locals;
    }
    if same_text(s, "threads") || same_text(s, "thread list") {
        return Command::Threads;
    }
    if let Some(rest) = after_prefix(&chars, "thread ") {
        let number = trim_chars(&rest);
        if let Some(n) = parse_i64_chars(&number) {
            return Command::SelectThread(n);
        }
    }
    if same_text(s, "list") {
        return Command::ListSource(None);
    }
    if let Some(rest) = after_prefix(&chars, "list ") {
        let location = trim_chars(&rest);
        return Command::ListSource(Some(string_of(&location)));
    }
    if let Some(rest) = after_prefix(&chars, "bfn ") {
        let sep = chars_of(" if ");
        return match find_chars(&rest, &sep, 0) {
            Some(i) => {
                let name = cut(&rest, 0, i);
                let tail = cut(&rest, i + sep.len(), rest.len());
                assert(name@ =~= rest@.take(i as int));
                assert(tail@ =~= rest@.skip(i + sep@.len()));
                let name_trimmed = trim_chars(&name);
                let condition = trim_chars(&tail);
                Command::BreakFunction {
                    name: string_of(&name_trimmed),
                    condition: Some(string_of(&condition)),
                }
            },
            None => {
                let name_trimmed = trim_chars(&rest);
                Command::BreakFunction { name: string_of(&name_trimmed), condition: None }
            },
        };
    }
    if let Some(b) = parse_break(s) {
        return Command::Break(b);
    }
    if let Some(rest) = after_either_prefix(&chars, "print ", "p ") {
        return Command::Print(string_of(&rest));
    }
    if let Some(rest) = after_prefix(&chars, "set ") {
        return Command::Assign(string_of(&rest));
    }
    if same_text(s, ".exit") || same_text(s, "quit") {
        return Command::Exit;
    }
    Command::Unsupported(trimmed)
}

// ---------------------------------------------------------------------------
// Execution
// ---------------------------------------------------------------------------

/// The request that continues execution.
pub open spec fn execution_command(e: Execution) -> Seq<char> {
    match e {
        Execution::Continue => "continue"@,
        Execution::StepIn => "stepIn"@,
        Execution::Next => "next"@,
        Execution::StepOut => "stepOut"@,
    }
}

/// The request that continues execution.
pub fn execution_request(e: Execution) -> (r: &'static str)
    ensures
        r@ == execution_command(e),
{
    match e {
        Execution::Continue => "continue",
        Execution::StepIn => "stepIn",
        Execution::Next => "next",
        Execution::StepOut => "stepOut",
    }
}

/// The arguments that name a thread.
pub open spec fn thread_value(thread: int) -> JsonV {
    JsonV::Object(map!["threadId"@ => JsonV::Int(thread)])
}

/// The arguments that name a thread.
pub fn thread_arguments(thread: i64) -> (r: Json)
    ensures
        r.view() == thread_value(thread as int),
{
    let mut fields: Vec<(String, Json)> = Vec::new();
    put_int(&mut fields, "threadId", thread);
    Json::Object(fields)
}

/// The arguments of an execution request: it goes to the current thread, or to
/// the first one where there is none yet.
pub fn execution_arguments(state: &State) -> (r: Json)
    ensures
        r.view() == thread_value(
            match state.current_thread {
                Some(t) => t as int,
                None => 1,
            },
        ),
{
    let thread: i64 = match state.current_thread {
        Some(t) => t,
        None => 1,
    };
    thread_arguments(thread)
}

/// The arguments of a `setExceptionBreakpoints` request.
pub open spec fn filter_value(filters: Seq<Seq<char>>) -> JsonV {
    JsonV::Object(
        map![
            "filters"@ => JsonV::Array(
                Seq::new(filters.len(), |i: int| JsonV::Str(filters[i])),
            ),
        ],
    )
}

/// The arguments of a `setExceptionBreakpoints` request.
pub fn filter_arguments(filters: &[String]) -> (r: Json)
    ensures
        r.view() == filter_value(text::texts(filters@)),
{
    let ghost all = text::texts(filters@);
    let mut items: Vec<Json> = Vec::new();
    let mut i: usize = 0;
    while i < filters.len()
        invariant
            i <= filters@.len(),
            all == text::texts(filters@),
            json::item_views(items@) =~= Seq::new(i as nat, |k: int| JsonV::Str(all[k])),
        decreases filters@.len() - i,
    {
        push_item(&mut items, Json::Str(filters[i].clone()));
        i = i + 1;
    }
    let mut fields: Vec<(String, Json)> = Vec::new();
    put(&mut fields, "filters", Json::Array(items));
    Json::Object(fields)
}

/// The answer to a `catch` command.
pub fn catch_answer(filters: &[String]) -> (r: String)
    ensures
        r@ == "exception breakpoints: "@ + text::join(text::texts(filters@), ", "@),
{
    let names = join_strings(filters, ", ");
    let mut out = chars_of("exception breakpoints: ");
    extend_str(&mut out, names.as_str());
    string_of(&out)
}

// ---------------------------------------------------------------------------
// Expressions
// ---------------------------------------------------------------------------

/// The id of the innermost frame.
pub open spec fn frame_id_of(s: session::StateV) -> Option<int> {
    match s.top_frame {
        Some(f) => json::i64_of(json::field(f, "id"@)),
        None => None,
    }
}

/// The id of the innermost frame.
pub fn frame_id(state: &State) -> (r: Option<i64>)
    ensures
        match r {
            Some(n) => frame_id_of(state.view()) == Some(n as int),
            None => frame_id_of(state.view()) is None,
        },
{
    match &state.top_frame {
        Some(f) => f.get_i64("id"),
        None => None,
    }
}

/// The field that names the frame, where one is known.
pub open spec fn with_frame(m: Map<Seq<char>, JsonV>, frame: Option<int>) -> Map<
    Seq<char>,
    JsonV,
> {
    match frame {
        Some(id) => m.insert("frameId"@, JsonV::Int(id)),
        None => m,
    }
}

pub open spec fn int_opt(n: Option<i64>) -> Option<int> {
    match n {
        Some(i) => Some(i as int),
        None => None,
    }
}

fn put_frame(fields: &mut Vec<(String, Json)>, frame: Option<i64>)
    ensures
        json::field_views(final(fields)@) == with_frame(
            json::field_views(old(fields)@),
            int_opt(frame),
        ),
{
    if let Some(id) = frame {
        put_int(fields, "frameId", id);
    }
}

/// The arguments of an `evaluate` request.
pub fn evaluate_arguments(expression: &str, frame: Option<i64>) -> (r: Json)
    ensures
        r.view() == JsonV::Object(
            with_frame(
                map![
                    "expression"@ => JsonV::Str(expression@),
                    "context"@ => JsonV::Str("repl"@),
                ],
                int_opt(frame),
            ),
        ),
{
    let mut fields: Vec<(String, Json)> = Vec::new();
    put_str(&mut fields, "expression", expression);
    put_str(&mut fields, "context", "repl");
    put_frame(&mut fields, frame);
    Json::Object(fields)
}

/// The arguments of a `setExpression` request.
pub fn set_expression_arguments(lhs: &str, rhs: &str, frame: Option<i64>) -> (r: Json)
    ensures
        r.view() == JsonV::Object(
            with_frame(
                map!["expression"@ => JsonV::Str(lhs@), "value"@ => JsonV::Str(rhs@)],
                int_opt(frame),
            ),
        ),
{
    let mut fields: Vec<(String, Json)> = Vec::new();
    put_str(&mut fields, "expression", lhs);
    put_str(&mut fields, "value", rhs);
    put_frame(&mut fields, frame);
    Json::Object(fields)
}

/// The text that a reply carries in a field; empty where it has none.
pub fn answer_field(response: &Json, key: &str) -> (r: String)
    ensures
        r@ == session::text_field(response.view(), key@, Seq::empty()),
{
    match response.get_str(key) {
        Some(s) => s.to_owned(),
        None => String::new(),
    }
}

/// The two sides of an assignment: the first `=` parts them, and neither is
/// empty.
pub open spec fn assignment(s: Seq<char>) -> Option<(Seq<char>, Seq<char>)> {
    match text::find(s, "="@) {
        Some(i) => {
            let lhs = text::trim(s.take(i));
            let rhs = text::trim(s.skip(i + 1));
            if lhs.len() > 0 && rhs.len() > 0 {
                Some((lhs, rhs))
            } else {
                None
            }
        },
        None => None,
    }
}

/// The two sides of an assignment.
pub fn parse_assignment(rest: &str) -> (r: Option<(String, String)>)
    ensures
        match r {
            Some((a, b)) => assignment(rest@) == Some((a@, b@)),
            None => assignment(rest@) is None,
        },
{
    proof {
        reveal_strlit("=");
    }
    let chars = chars_of(rest);
    let sign = chars_of("=");
    match find_chars(&chars, &sign, 0) {
        Some(i) => {
            let left = cut(&chars, 0, i);
            let right = cut(&chars, i + 1, chars.len());
            assert(left@ =~= rest@.take(i as int));
            assert(right@ =~= rest@.skip(i + 1));
            let lhs = trim_chars(&left);
            let rhs = trim_chars(&right);
            if lhs.len() > 0 && rhs.len() > 0 {
                Some((string_of(&lhs), string_of(&rhs)))
            } else {
                None
            }
        },
        None => None,
    }
}

/// The lower-case form of a text.
pub uninterp spec fn lowercase_text(s: Seq<char>) -> Seq<char>;

/// `str::to_lowercase` gives the lower-case form of a text, after Unicode. Of
/// ASCII text only the letters A to Z change.
#[verifier::external_body]
fn to_lower(s: &str) -> (r: String)
    ensures
        r@ == lowercase_text(s@),
        vstd::utf8::is_ascii_chars(s@) ==> r@ == text::lowered(s@),
{
    s.to_lowercase()
}

/// An error message, in lower case, that says the adapter does not know the
/// request. One adapter says no more than that the request failed.
pub open spec fn names_unsupported(lower: Seq<char>) -> bool {
    ||| text::contains(lower, "not yet implemented"@)
    ||| text::contains(lower, "unsupported"@)
    ||| text::contains(lower, "not supported"@)
    ||| text::contains(lower, "unknown command"@)
    ||| text::contains(lower, "request failed"@)
}

fn holds(s: &Vec<char>, p: &str) -> (r: bool)
    ensures
        r == text::contains(s@, p@),
{
    let wanted = chars_of(p);
    find_chars(s, &wanted, 0).is_some()
}

/// Whether a message in lower case says that the request is not supported.
pub fn is_unsupported_message(lower: &str) -> (r: bool)
    ensures
        r == names_unsupported(lower@),
{
    let chars = chars_of(lower);
    holds(&chars, "not yet implemented") || holds(&chars, "unsupported") || holds(
        &chars,
        "not supported",
    ) || holds(&chars, "unknown command") || holds(&chars, "request failed")
}

/// Whether an error says that the adapter does not support the request.
pub fn looks_unsupported(message: &str) -> (r: bool)
    ensures
        r == names_unsupported(lowercase_text(message@)),
{
    let lower = to_lower(message);
    is_unsupported_message(lower.as_str())
}

// ---------------------------------------------------------------------------
// Variables
// ---------------------------------------------------------------------------

/// The items of the list in a field; none where it is missing.
pub open spec fn list_in(response: JsonV, key: Seq<char>) -> Seq<JsonV> {
    match json::array_of(json::field(response, key)) {
        Some(s) => s,
        None => Seq::empty(),
    }
}

/// The reference by which a scope's variables are asked for, where it has any.
pub open spec fn scope_reference(scope: JsonV) -> Option<int> {
    match json::i64_of(json::field(scope, "variablesReference"@)) {
        Some(n) => if n != 0 {
            Some(n)
        } else {
            None
        },
        None => None,
    }
}

/// The scopes, in order, whose variables may be asked for.
pub open spec fn references(scopes: Seq<JsonV>, locals_only: bool) -> Seq<int>
    decreases scopes.len(),
{
    if scopes.len() == 0 {
        Seq::empty()
    } else {
        let rest = references(scopes.drop_last(), locals_only);
        let scope = scopes.last();
        match scope_reference(scope) {
            Some(n) => if locals_only && !is_local_scope(scope) {
                rest
            } else {
                rest.push(n)
            },
            None => rest,
        }
    }
}

/// A scope of the frame itself: neither globals nor registers.
pub open spec fn is_local_scope(scope: JsonV) -> bool {
    let name = session::text_field(scope, "name"@, Seq::empty());
    let hint = session::text_field(scope, "presentationHint"@, Seq::empty());
    !(text::lowered(name) == "globals"@ || text::lowered(name) == "global"@ || text::lowered(
        hint,
    ) == "registers"@ || text::contains(lowercase_text(name), "register"@))
}

/// The field of a scope, or nothing.
fn string_field(v: &Json, key: &str) -> (r: String)
    ensures
        r@ == session::text_field(v.view(), key@, Seq::empty()),
{
    answer_field(v, key)
}

fn local_scope(scope: &Json) -> (r: bool)
    ensures
        r == is_local_scope(scope.view()),
{
    let name = string_field(scope, "name");
    let hint = string_field(scope, "presentationHint");
    let name_ascii = string_of(&lower_ascii(name.as_str()));
    let hint_ascii = string_of(&lower_ascii(hint.as_str()));
    let lower = to_lower(name.as_str());
    let lower_chars = chars_of(lower.as_str());
    !(same_text(name_ascii.as_str(), "globals") || same_text(name_ascii.as_str(), "global")
        || same_text(hint_ascii.as_str(), "registers") || holds(&lower_chars, "register"))
}

pub open spec fn int_seq(v: Seq<i64>) -> Seq<int> {
    Seq::new(v.len(), |i: int| v[i] as int)
}

/// The references of the scopes in a `scopes` reply, in order; of the frame's
/// own scopes only, where that is asked for.
pub fn scope_references(response: &Json, locals_only: bool) -> (r: Vec<i64>)
    ensures
        int_seq(r@) == references(list_in(response.view(), "scopes"@), locals_only),
{
    let mut out: Vec<i64> = Vec::new();
    match response.get_array("scopes") {
        Some(items) => {
            proof {
                json::item_views_are_views(items@);
            }
            let ghost all = json::item_views(items@);
            let mut i: usize = 0;
            while i < items.len()
                invariant
                    i <= items@.len(),
                    all == json::item_views(items@),
                    all.len() == items@.len(),
                    forall|k: int| 0 <= k < all.len() ==> #[trigger] all[k] == items@[k].view(),
                    int_seq(out@) =~= references(all.take(i as int), locals_only),
                decreases items@.len() - i,
            {
                assert(all.take(i + 1).drop_last() =~= all.take(i as int));
                assert(all.take(i + 1).last() == items@[i as int].view());
                let ghost before = out@;
                if let Some(n) = items[i].get_i64("variablesReference") {
                    if n != 0 && (!locals_only || local_scope(&items[i])) {
                        out.push(n);
                        assert(int_seq(out@) =~= int_seq(before).push(n as int));
                    }
                }
                i = i + 1;
            }
            assert(all.take(all.len() as int) =~= all);
        },
        None => {
            assert(int_seq(out@) =~= Seq::empty());
        },
    }
    out
}

/// The arguments of a `scopes` request.
pub fn scopes_arguments(frame: i64) -> (r: Json)
    ensures
        r.view() == JsonV::Object(map!["frameId"@ => JsonV::Int(frame as int)]),
{
    let mut fields: Vec<(String, Json)> = Vec::new();
    put_int(&mut fields, "frameId", frame);
    Json::Object(fields)
}

/// The arguments of a `variables` request.
pub fn variables_arguments(reference: i64) -> (r: Json)
    ensures
        r.view() == JsonV::Object(map!["variablesReference"@ => JsonV::Int(reference as int)]),
{
    let mut fields: Vec<(String, Json)> = Vec::new();
    put_int(&mut fields, "variablesReference", reference);
    Json::Object(fields)
}

/// The arguments of a `setVariable` request.
pub fn set_variable_arguments(reference: i64, name: &str, value: &str) -> (r: Json)
    ensures
        r.view() == JsonV::Object(
            map![
                "variablesReference"@ => JsonV::Int(reference as int),
                "name"@ => JsonV::Str(name@),
                "value"@ => JsonV::Str(value@),
            ],
        ),
{
    let mut fields: Vec<(String, Json)> = Vec::new();
    put_int(&mut fields, "variablesReference", reference);
    put_str(&mut fields, "name", name);
    put_str(&mut fields, "value", value);
    Json::Object(fields)
}

/// Whether a `variables` reply lists a variable of that name.
pub fn has_variable(response: &Json, name: &str) -> (r: bool)
    ensures
        r == exists|i: int|
            0 <= i < list_in(response.view(), "variables"@).len() && json::str_of(
                json::field(#[trigger] list_in(response.view(), "variables"@)[i], "name"@),
            ) == Some(name@),
{
    match response.get_array("variables") {
        Some(items) => {
            proof {
                json::item_views_are_views(items@);
            }
            let ghost all = json::item_views(items@);
            let mut i: usize = 0;
            while i < items.len()
                invariant
                    i <= items@.len(),
                    all == json::item_views(items@),
                    all == list_in(response.view(), "variables"@),
                    all.len() == items@.len(),
                    forall|k: int| 0 <= k < all.len() ==> #[trigger] all[k] == items@[k].view(),
                    forall|k: int|
                        0 <= k < i ==> json::str_of(json::field(#[trigger] all[k], "name"@))
                            != Some(name@),
                decreases items@.len() - i,
            {
                assert(all[i as int] == items@[i as int].view());
                if let Some(n) = items[i].get_str("name") {
                    if same_text(n, name) {
                        return true;
                    }
                }
                i = i + 1;
            }
            false
        },
        None => false,
    }
}

/// The locals with those of one more scope: of two with one name the first
/// counts, and one without a name is left out. A value that is no text is
/// shown as null.
pub open spec fn with_locals(m: Map<Seq<char>, JsonV>, variables: Seq<JsonV>) -> Map<
    Seq<char>,
    JsonV,
>
    decreases variables.len(),
{
    if variables.len() == 0 {
        m
    } else {
        let a = with_locals(m, variables.drop_last());
        let v = variables.last();
        let name = session::text_field(v, "name"@, Seq::empty());
        if name.len() == 0 || a.dom().contains(name) {
            a
        } else {
            a.insert(
                name,
                match json::str_of(json::field(v, "value"@)) {
                    Some(s) => JsonV::Str(s),
                    None => JsonV::Null,
                },
            )
        }
    }
}

/// Adds the variables of one scope to the locals.
pub fn add_locals(locals: &mut Json, response: &Json)
    requires
        *old(locals) is Object,
    ensures
        *final(locals) is Object,
        final(locals).view() == JsonV::Object(
            with_locals(
                old(locals).view()->Object_0,
                list_in(response.view(), "variables"@),
            ),
        ),
{
    if let Some(items) = response.get_array("variables") {
        proof {
            json::item_views_are_views(items@);
        }
        let ghost all = json::item_views(items@);
        let ghost start = old(locals).view()->Object_0;
        assert(with_locals(start, all.take(0)) == start);
        let mut i: usize = 0;
        while i < items.len()
            invariant
                i <= items@.len(),
                all == json::item_views(items@),
                all.len() == items@.len(),
                forall|k: int| 0 <= k < all.len() ==> #[trigger] all[k] == items@[k].view(),
                *locals is Object,
                locals.view() == JsonV::Object(with_locals(start, all.take(i as int))),
            decreases items@.len() - i,
        {
            assert(all.take(i + 1).drop_last() =~= all.take(i as int));
            assert(all.take(i + 1).last() == items@[i as int].view());
            let name = string_field(&items[i], "name");
            let name_chars = chars_of(name.as_str());
            if name_chars.len() > 0 && locals.get(name.as_str()).is_none() {
                let value: Json = match items[i].get_str("value") {
                    Some(s) => Json::Str(s.to_owned()),
                    None => Json::Null,
                };
                match locals {
                    Json::Object(fields) => {
                        put(fields, name.as_str(), value);
                    },
                    _ => {},
                }
            }
            i = i + 1;
        }
        assert(all.take(all.len() as int) =~= all);
    }
}

/// No locals.
pub fn no_locals() -> (r: Json)
    ensures
        r is Object,
        r.view() == JsonV::Object(Map::empty()),
{
    Json::Object(Vec::new())
}

/// The locals as they are shown.
pub fn locals_answer(locals: &Json) -> (r: String)
    ensures
        json::is_plain(locals.view()) ==> r@ == json::json_text_of(locals.view()),
{
    json_text(locals)
}

/// Locals hold text and nulls only, so that their text form exists.
pub proof fn locals_are_plain(m: Map<Seq<char>, JsonV>, variables: Seq<JsonV>)
    requires
        json::is_plain(JsonV::Object(m)),
    ensures
        json::is_plain(JsonV::Object(with_locals(m, variables))),
    decreases variables.len(),
{
    if variables.len() > 0 {
        locals_are_plain(m, variables.drop_last());
        let a = with_locals(m, variables.drop_last());
        let b = with_locals(m, variables);
        assert forall|k: Seq<char>| #[trigger] b.dom().contains(k) implies json::is_plain(
            b[k],
        ) by {
            if a.dom().contains(k) {
                assert(b[k] == a[k]);
                json::plain_object(a, k);
            }
        }
    }
}

// ---------------------------------------------------------------------------
// Frames and source
// ---------------------------------------------------------------------------

/// One line of a backtrace.
pub open spec fn frame_line(i: int, frame: JsonV) -> Seq<char> {
    let path = match session::frame_path(frame) {
        Some(p) => p,
        None => "?"@,
    };
    let line = match json::u64_of(json::field(frame, "line"@)) {
        Some(n) => n,
        None => 0,
    };
    "#"@ + text::decimal(i as nat) + " "@ + session::text_field(frame, "name"@, "?"@) + " at "@
        + path + ":"@ + text::decimal(line as nat) + "\n"@
}

/// The lines of a backtrace.
pub open spec fn frame_lines(frames: Seq<JsonV>) -> Seq<char>
    decreases frames.len(),
{
    if frames.len() == 0 {
        Seq::empty()
    } else {
        frame_lines(frames.drop_last()) + frame_line(frames.len() - 1, frames.last())
    }
}

/// A backtrace.
pub open spec fn backtrace(frames: Seq<JsonV>) -> Seq<char> {
    if frames.len() == 0 {
        "(no frames — program not paused)"@
    } else {
        text::trim_end(frame_lines(frames))
    }
}

/// The frames of the last stop, innermost first.
pub fn format_backtrace(state: &State) -> (r: String)
    ensures
        r@ == backtrace(state.view().call_frames),
{
    let frames = &state.call_frames;
    proof {
        json::item_views_are_views(frames@);
    }
    if frames.len() == 0 {
        return "(no frames — program not paused)".to_owned();
    }
    let ghost all = json::item_views(frames@);
    let mut out: Vec<char> = Vec::new();
    let mut i: usize = 0;
    while i < frames.len()
        invariant
            i <= frames@.len(),
            all == json::item_views(frames@),
            all.len() == frames@.len(),
            forall|k: int| 0 <= k < all.len() ==> #[trigger] all[k] == frames@[k].view(),
            out@ == frame_lines(all.take(i as int)),
        decreases frames@.len() - i,
    {
        let f = &frames[i];
        assert(all.take(i + 1).drop_last() =~= all.take(i as int));
        assert(all.take(i + 1).last() == f.view());
        let ghost before = out@;
        extend_str(&mut out, "#");
        let index = decimal_chars(i as u64);
        extend_chars(&mut out, &index);
        extend_str(&mut out, " ");
        match f.get_str("name") {
            Some(s) => {
                extend_str(&mut out, s);
            },
            None => {
                extend_str(&mut out, "?");
            },
        }
        extend_str(&mut out, " at ");
        match source_path(f) {
            Some(s) => {
                extend_str(&mut out, s);
            },
            None => {
                extend_str(&mut out, "?");
            },
        }
        extend_str(&mut out, ":");
        let line: u64 = match f.get_u64("line") {
            Some(n) => n,
            None => 0,
        };
        let digits = decimal_chars(line);
        extend_chars(&mut out, &digits);
        extend_str(&mut out, "\n");
        assert(out@ =~= before + frame_line(i as int, f.view()));
        i = i + 1;
    }
    assert(all.take(all.len() as int) =~= all);
    let trimmed = trim_end_chars(&out);
    string_of(&trimmed)
}

/// Why source cannot be listed.
#[derive(Clone, Copy, Debug, PartialEq, Eq, Structural)]
pub enum ListError {
    ExpectedLocation,
    InvalidLine,
    NoFrame,
    NoSource,
}

/// The file and the line that `list` is to show: the operand, or else the
/// innermost frame.
pub open spec fn list_location(operand: Option<Seq<char>>, frames: Seq<JsonV>) -> Result<
    (Seq<char>, u32),
    ListError,
> {
    match operand {
        Some(s) => match text::rfind(s, ":"@) {
            Some(i) => match text::parse_unsigned(text::trim(s.skip(i + 1)), u32::MAX as int) {
                Some(n) => Ok((text::trim(s.take(i)), n as u32)),
                None => Err(ListError::InvalidLine),
            },
            None => Err(ListError::ExpectedLocation),
        },
        None => if frames.len() == 0 {
            Err(ListError::NoFrame)
        } else {
            match session::frame_path(frames[0]) {
                Some(p) => Ok(
                    (
                        p,
                        match json::u64_of(json::field(frames[0], "line"@)) {
                            Some(n) => (n % 0x1_0000_0000) as u32,
                            None => 1u32,
                        },
                    ),
                ),
                None => Err(ListError::NoSource),
            }
        },
    }
}

/// The file and the line that `list` is to show.
pub fn source_location(state: &State, operand: Option<&str>) -> (r: Result<
    (String, u32),
    ListError,
>)
    ensures
        ({
            let want = list_location(text::opt_str(operand), state.view().call_frames);
            match r {
                Ok((path, line)) => want == Ok::<(Seq<char>, u32), ListError>((path@, line)),
                Err(e) => want == Err::<(Seq<char>, u32), ListError>(e),
            }
        }),
{
    proof {
        reveal_strlit(":");
        json::item_views_are_views(state.call_frames@);
    }
    match operand {
        Some(s) => {
            let chars = chars_of(s);
            let colon = chars_of(":");
            match rfind_chars(&chars, &colon) {
                Some(i) => {
                    let file = cut(&chars, 0, i);
                    let number = cut(&chars, i + 1, chars.len());
                    assert(file@ =~= s@.take(i as int));
                    assert(number@ =~= s@.skip(i + 1));
                    let digits = trim_chars(&number);
                    let path = trim_chars(&file);
                    match parse_bounded_chars(&digits, u32::MAX as u64) {
                        Some(n) => Ok((string_of(&path), n as u32)),
                        None => Err(ListError::InvalidLine),
                    }
                },
                None => Err(ListError::ExpectedLocation),
            }
        },
        None => {
            if state.call_frames.len() == 0 {
                return Err(ListError::NoFrame);
            }
            let f = &state.call_frames[0];
            let line: u32 = match f.get_u64("line") {
                Some(n) => (n % 0x1_0000_0000) as u32,
                None => 1,
            };
            match source_path(f) {
                Some(p) => Ok((p.to_owned(), line)),
                None => Err(ListError::NoSource),
            }
        },
    }
}

/// One line of a source listing.
pub open spec fn source_line(line: Seq<char>, n: int, center: int) -> Seq<char> {
    (if n == center {
        "->"@
    } else {
        "  "@
    }) + " "@ + text::pad_left(text::decimal(n as nat), 5) + "  "@ + line + "\n"@
}

/// The lines numbered from `from` up to `to`.
pub open spec fn source_lines(lines: Seq<Seq<char>>, from: int, to: int, center: int) -> Seq<char>
    decreases to - from + 1,
{
    if from > to {
        Seq::empty()
    } else {
        source_lines(lines, from, to - 1, center) + source_line(lines[to - 1], to, center)
    }
}

/// The lines up to ten before and ten after a line of a text.
pub open spec fn source_window(source: Seq<char>, center: int) -> Seq<char> {
    let lines = text::lines(source);
    let from = if center > 11 {
        center - 10
    } else {
        1
    };
    let to = if center + 10 < lines.len() {
        center + 10
    } else {
        lines.len() as int
    };
    source_lines(lines, from, to, center)
}

fn push_source_line(out: &mut Vec<char>, line: &[char], n: u64, center: u64)
    ensures
        final(out)@ == old(out)@ + source_line(line@, n as int, center as int),
{
    if n == center {
        extend_str(out, "->");
    } else {
        extend_str(out, "  ");
    }
    extend_str(out, " ");
    let digits = decimal_chars(n);
    let padded = pad_left_chars(&digits, 5);
    extend_chars(out, &padded);
    extend_str(out, "  ");
    extend_chars(out, line);
    extend_str(out, "\n");
    assert(out@ =~= old(out)@ + source_line(line@, n as int, center as int));
}

/// The lines up to ten before and ten after a line of a text.
pub fn list_source(source: &str, line: u32) -> (r: String)
    ensures
        r@ == source_window(source@, line as int),
{
    let chars = chars_of(source);
    let lines = lines_of(&chars);
    let ghost all = text::lines(source@);
    let center: u64 = line as u64;
    let from: u64 = if center > 11 {
        center - 10
    } else {
        1
    };
    let total: usize = lines.len();
    let to: u64 = if center + 10 < total as u64 {
        center + 10
    } else {
        total as u64
    };
    let mut out: Vec<char> = Vec::new();
    let mut n: u64 = from;
    assert(out@ =~= source_lines(all, from as int, from - 1, center as int));
    while n <= to
        invariant
            1 <= from <= n,
            n <= to + 1 || n == from,
            to <= total == lines@.len(),
            to <= center + 10,
            center <= u32::MAX,
            from <= u32::MAX,
            all == text::lines(source@),
            text::pieces(lines@) == all,
            out@ == source_lines(all, from as int, n - 1, center as int),
        decreases to + 1 - n,
    {
        let i: usize = (n - 1) as usize;
        assert(all[i as int] == lines@[i as int]@);
        push_source_line(&mut out, &lines[i], n, center);
        n = n + 1;
    }
    proof {
        if n == from {
            empty_lines(all, from as int, to as int, center as int);
            assert(out@ =~= source_lines(all, from as int, to as int, center as int));
        }
    }
    string_of(&out)
}

proof fn empty_lines(lines: Seq<Seq<char>>, from: int, to: int, center: int)
    requires
        from > to,
    ensures
        source_lines(lines, from, to, center) == Seq::<char>::empty(),
        source_lines(lines, from, from - 1, center) == Seq::<char>::empty(),
{
}

// ---------------------------------------------------------------------------
// Threads
// ---------------------------------------------------------------------------

/// The ids in a `threads` reply.
pub open spec fn thread_ids(threads: Seq<JsonV>) -> Seq<int>
    decreases threads.len(),
{
    if threads.len() == 0 {
        Seq::empty()
    } else {
        let rest = thread_ids(threads.drop_last());
        match json::i64_of(json::field(threads.last(), "id"@)) {
            Some(n) => rest.push(n),
            None => rest,
        }
    }
}

/// The ids in a `threads` reply.
pub fn dap_thread_ids(response: &Json) -> (r: Vec<i64>)
    ensures
        int_seq(r@) == thread_ids(list_in(response.view(), "threads"@)),
{
    let mut out: Vec<i64> = Vec::new();
    match response.get_array("threads") {
        Some(items) => {
            proof {
                json::item_views_are_views(items@);
            }
            let ghost all = json::item_views(items@);
            let mut i: usize = 0;
            while i < items.len()
                invariant
                    i <= items@.len(),
                    all == json::item_views(items@),
                    all.len() == items@.len(),
                    forall|k: int| 0 <= k < all.len() ==> #[trigger] all[k] == items@[k].view(),
                    int_seq(out@) =~= thread_ids(all.take(i as int)),
                decreases items@.len() - i,
            {
                assert(all.take(i + 1).drop_last() =~= all.take(i as int));
                assert(all.take(i + 1).last() == items@[i as int].view());
                let ghost before = out@;
                if let Some(n) = items[i].get_i64("id") {
                    out.push(n);
                    assert(int_seq(out@) =~= int_seq(before).push(n as int));
                }
                i = i + 1;
            }
            assert(all.take(all.len() as int) =~= all);
        },
        None => {
            assert(int_seq(out@) =~= Seq::empty());
        },
    }
    out
}

/// One line of the thread listing.
pub open spec fn thread_line(thread: JsonV, current: Option<i64>) -> Seq<char> {
    let id = match json::i64_of(json::field(thread, "id"@)) {
        Some(n) => n,
        None => 0,
    };
    (if int_opt(current) == Some(id) {
        "*"@
    } else {
        " "@
    }) + " "@ + text::signed_decimal(id) + "  "@ + session::text_field(
        thread,
        "name"@,
        Seq::empty(),
    ) + "\n"@
}

pub open spec fn thread_lines(threads: Seq<JsonV>, current: Option<i64>) -> Seq<char>
    decreases threads.len(),
{
    if threads.len() == 0 {
        Seq::empty()
    } else {
        thread_lines(threads.drop_last(), current) + thread_line(threads.last(), current)
    }
}

/// The lines for threads that only the operating system shows.
pub open spec fn os_thread_lines(ids: Seq<i64>) -> Seq<char>
    decreases ids.len(),
{
    if ids.len() == 0 {
        Seq::empty()
    } else {
        os_thread_lines(ids.drop_last()) + "  "@ + text::signed_decimal(ids.last() as int)
            + "  <os thread>\n"@
    }
}

/// The listing of threads: those of the adapter, with the current one marked;
/// where the operating system shows more, it says so.
pub open spec fn thread_listing(
    threads: Seq<JsonV>,
    os_threads: Seq<i64>,
    current: Option<i64>,
    debuggee: Option<u32>,
) -> Seq<char> {
    if threads.len() == 0 {
        if os_threads.len() == 0 {
            "(no threads)"@
        } else {
            text::trim_end(
                "(adapter reported no DAP threads; OS threads from /proc, not switchable by dbg thread)\n"@
                    + os_thread_lines(os_threads),
            )
        }
    } else {
        let listed = thread_lines(threads, current);
        text::trim_end(
            match debuggee {
                Some(pid) => if os_threads.len() > threads.len() {
                    listed + "(note: adapter exposed "@ + text::decimal(threads.len())
                        + " DAP thread(s), but /proc/"@ + text::decimal(pid as nat)
                        + "/task has "@ + text::decimal(os_threads.len())
                        + " OS thread(s); only DAP ids are switchable)\n"@
                } else {
                    listed
                },
                None => listed,
            },
        )
    }
}

/// The listing of threads.
pub fn list_threads(
    response: &Json,
    os_threads: &[i64],
    current: Option<i64>,
    debuggee: Option<u32>,
) -> (r: String)
    ensures
        r@ == thread_listing(
            list_in(response.view(), "threads"@),
            os_threads@,
            current,
            debuggee,
        ),
{
    let count: usize = match response.get_array("threads") {
        Some(items) => {
            proof {
                json::item_views_are_views(items@);
            }
            items.len()
        },
        None => 0,
    };
    let ghost all = list_in(response.view(), "threads"@);
    assert(all.len() == count);
    if count == 0 {
        if os_threads.len() == 0 {
            return "(no threads)".to_owned();
        }
        let mut out = chars_of(
            "(adapter reported no DAP threads; OS threads from /proc, not switchable by dbg thread)\n",
        );
        let ghost heading = out@;
        let mut i: usize = 0;
        assert(out@ =~= heading + os_thread_lines(os_threads@.take(0)));
        while i < os_threads.len()
            invariant
                i <= os_threads@.len(),
                out@ == heading + os_thread_lines(os_threads@.take(i as int)),
            decreases os_threads@.len() - i,
        {
            assert(os_threads@.take(i + 1).drop_last() =~= os_threads@.take(i as int));
            extend_str(&mut out, "  ");
            let d = signed_decimal_chars(os_threads[i]);
            extend_chars(&mut out, &d);
            extend_str(&mut out, "  <os thread>\n");
            i = i + 1;
            assert(out@ =~= heading + os_thread_lines(os_threads@.take(i as int)));
        }
        assert(os_threads@.take(os_threads@.len() as int) =~= os_threads@);
        let trimmed = trim_end_chars(&out);
        return string_of(&trimmed);
    }
    let mut out: Vec<char> = Vec::new();
    if let Some(items) = response.get_array("threads") {
        proof {
            json::item_views_are_views(items@);
        }
        let mut i: usize = 0;
        while i < items.len()
            invariant
                i <= items@.len(),
                all == json::item_views(items@),
                all.len() == items@.len(),
                forall|k: int| 0 <= k < all.len() ==> #[trigger] all[k] == items@[k].view(),
                out@ == thread_lines(all.take(i as int), current),
            decreases items@.len() - i,
        {
            let item = &items[i];
            assert(all.take(i + 1).drop_last() =~= all.take(i as int));
            assert(all.take(i + 1).last() == item.view());
            let ghost before = out@;
            let id: i64 = match item.get_i64("id") {
                Some(n) => n,
                None => 0,
            };
            let is_current = match current {
                Some(c) => c == id,
                None => false,
            };
            if is_current {
                extend_str(&mut out, "*");
            } else {
                extend_str(&mut out, " ");
            }
            extend_str(&mut out, " ");
            let d = signed_decimal_chars(id);
            extend_chars(&mut out, &d);
            extend_str(&mut out, "  ");
            let name = answer_field(item, "name");
            extend_str(&mut out, name.as_str());
            extend_str(&mut out, "\n");
            assert(out@ =~= before + thread_line(item.view(), current));
            i = i + 1;
        }
        assert(all.take(all.len() as int) =~= all);
    }
    let ghost listed = out@;
    if let Some(pid) = debuggee {
        if os_threads.len() > count {
            extend_str(&mut out, "(note: adapter exposed ");
            let a = decimal_chars(count as u64);
            extend_chars(&mut out, &a);
            extend_str(&mut out, " DAP thread(s), but /proc/");
            let b = decimal_chars(pid as u64);
            extend_chars(&mut out, &b);
            extend_str(&mut out, "/task has ");
            let c = decimal_chars(os_threads.len() as u64);
            extend_chars(&mut out, &c);
            extend_str(&mut out, " OS thread(s); only DAP ids are switchable)\n");
        }
    }
    let trimmed = trim_end_chars(&out);
    string_of(&trimmed)
}

/// The answer to a thread that was selected.
pub fn thread_answer(id: i64) -> (r: String)
    ensures
        r@ == "switched to thread "@ + text::signed_decimal(id as int),
{
    let mut out = chars_of("switched to thread ");
    let d = signed_decimal_chars(id);
    extend_chars(&mut out, &d);
    string_of(&out)
}

/// The threads as a list.
pub open spec fn thread_list(ids: Seq<i64>) -> Seq<char> {
    "["@ + text::join(Seq::new(ids.len(), |i: int| text::signed_decimal(ids[i] as int)), ", "@)
        + "]"@
}

/// The error of a pause that stopped nothing in time.
pub open spec fn pause_timeout_text(ids: Seq<i64>, debuggee: Option<u32>) -> Seq<char> {
    "timeout waiting for stopped event after pause requested for DAP thread(s) "@ + thread_list(ids)
        + match debuggee {
        Some(pid) => " in attached pid "@ + text::decimal(pid as nat),
        None => Seq::empty(),
    } + "; the adapter may not be able to interrupt this runtime state"@
}

/// The error of a pause that stopped nothing in time.
pub fn pause_timeout(ids: &[i64], debuggee: Option<u32>) -> (r: String)
    ensures
        r@ == pause_timeout_text(ids@, debuggee),
{
    let mut out = chars_of(
        "timeout waiting for stopped event after pause requested for DAP thread(s) ",
    );
    let ghost heading = out@;
    let mut parts: Vec<String> = Vec::new();
    let mut i: usize = 0;
    while i < ids.len()
        invariant
            i <= ids@.len(),
            text::texts(parts@) =~= Seq::new(
                i as nat,
                |k: int| text::signed_decimal(ids@[k] as int),
            ),
        decreases ids@.len() - i,
    {
        let d = signed_decimal_chars(ids[i]);
        let part = string_of(&d);
        let ghost before = parts@;
        parts.push(part);
        assert(text::texts(parts@) =~= text::texts(before).push(part@));
        i = i + 1;
    }
    let joined = join_strings(&parts, ", ");
    assert(text::texts(parts@) =~= Seq::new(
        ids@.len(),
        |k: int| text::signed_decimal(ids@[k] as int),
    ));
    extend_str(&mut out, "[");
    extend_str(&mut out, joined.as_str());
    extend_str(&mut out, "]");
    assert(out@ =~= heading + thread_list(ids@));
    if let Some(pid) = debuggee {
        extend_str(&mut out, " in attached pid ");
        let d = decimal_chars(pid as u64);
        extend_chars(&mut out, &d);
    }
    extend_str(&mut out, "; the adapter may not be able to interrupt this runtime state");
    assert(out@ =~= heading + thread_list(ids@) + match debuggee {
        Some(pid) => " in attached pid "@ + text::decimal(pid as nat),
        None => Seq::empty(),
    } + "; the adapter may not be able to interrupt this runtime state"@);
    string_of(&out)
}

} // verus!
