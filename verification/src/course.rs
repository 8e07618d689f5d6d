//! The course of a command: the requests that it makes one after the other, and
//! what it answers in the end.

use vstd::prelude::*;

use crate::breakpoints;
use crate::breakpoints::{BreakpointErrorV, PendingChange};
use crate::debug_command;
use crate::debug_command::{
    add_locals, answer_field, catch_answer, dap_thread_ids, evaluate_arguments,
    execution_arguments, execution_request, filter_arguments, frame_id, has_variable,
    locals_answer, looks_unsupported, no_locals, parse_assignment, pause_timeout,
    scope_references, scopes_arguments, set_expression_arguments, set_variable_arguments,
    source_location, thread_answer, variables_arguments, Command, CommandV, ListError,
};
use crate::json;
use crate::json::{Json, JsonV};
use crate::session;
use crate::session::{stack_trace_arguments, State, StateV};
use crate::text;
use crate::text::{chars_of, extend_str, find_chars, string_of};

verus! {

// ---------------------------------------------------------------------------
// Steps
// ---------------------------------------------------------------------------

/// What a command goes on with when the reply to its request is there.
#[derive(Debug)]
pub enum Task {
    /// Ends with this answer.
    Confirm(String),
    Restart,
    PauseThreads,
    Threads,
    Select(i64),
    /// Ends with the result in the reply.
    Result,
    /// Ends with the value in the reply.
    Value,
    /// `setExpression` is in flight.
    Assign { lhs: String, rhs: String },
    /// The scopes in which the variable is searched are asked for.
    Scopes { lhs: String, rhs: String },
    /// The variables of the scope `reference` are asked for; the scopes `left`
    /// follow.
    Variables { lhs: String, rhs: String, reference: i64, left: Vec<i64> },
    LocalScopes,
    /// The variables of a scope are asked for; the scopes `left` follow.
    Locals { locals: Json, left: Vec<i64> },
}

#[verifier::ext_equal]
pub enum TaskV {
    Confirm(Seq<char>),
    Restart,
    PauseThreads,
    Threads,
    Select(i64),
    Result,
    Value,
    Assign { lhs: Seq<char>, rhs: Seq<char> },
    Scopes { lhs: Seq<char>, rhs: Seq<char> },
    Variables { lhs: Seq<char>, rhs: Seq<char>, reference: int, left: Seq<int> },
    LocalScopes,
    Locals { locals: JsonV, left: Seq<int> },
}

impl Task {
    pub open spec fn view(&self) -> TaskV {
        match self {
            Task::Confirm(s) => TaskV::Confirm(s@),
            Task::Restart => TaskV::Restart,
            Task::PauseThreads => TaskV::PauseThreads,
            Task::Threads => TaskV::Threads,
            Task::Select(id) => TaskV::Select(*id),
            Task::Result => TaskV::Result,
            Task::Value => TaskV::Value,
            Task::Assign { lhs, rhs } => TaskV::Assign { lhs: lhs@, rhs: rhs@ },
            Task::Scopes { lhs, rhs } => TaskV::Scopes { lhs: lhs@, rhs: rhs@ },
            Task::Variables { lhs, rhs, reference, left } => TaskV::Variables {
                lhs: lhs@,
                rhs: rhs@,
                reference: *reference as int,
                left: debug_command::int_seq(left@),
            },
            Task::LocalScopes => TaskV::LocalScopes,
            Task::Locals { locals, left } => TaskV::Locals {
                locals: locals.view(),
                left: debug_command::int_seq(left@),
            },
        }
    }
}

/// What was gathered so far is an object that has a text.
pub open spec fn task_ok(t: TaskV) -> bool {
    match t {
        TaskV::Locals { locals, left } => locals is Object && json::is_plain(locals),
        _ => true,
    }
}

/// What is to be done next for a command.
#[derive(Debug)]
pub enum Step {
    /// Send the request, and resume the task with the reply.
    Call { command: &'static str, arguments: Json, next: Task },
    /// Send the execution request, and wait for a stop.
    Execute { command: &'static str, arguments: Json },
    /// Ask each of the threads to pause, and wait for a stop.
    Pause(Vec<i64>),
    /// Find the restarted program.
    TrackRestart,
    /// List the threads of the reply beside those of the operating system.
    ListThreads(Json),
    /// Read the source, and show the lines around this one.
    ReadSource { path: String, line: u32 },
    /// Send the change of the breakpoints, and finish it with the reply.
    Change(PendingChange),
    Exit,
    Done(String),
    Failed(String),
}

#[verifier::ext_equal]
pub enum StepV {
    Call { command: Seq<char>, arguments: JsonV, next: TaskV },
    Execute { command: Seq<char>, arguments: JsonV },
    Pause(Seq<int>),
    TrackRestart,
    ListThreads(JsonV),
    ReadSource { path: Seq<char>, line: u32 },
    Change(PendingChange),
    Exit,
    Done(Seq<char>),
    Failed(Seq<char>),
}

impl Step {
    pub open spec fn view(&self) -> StepV {
        match self {
            Step::Call { command, arguments, next } => StepV::Call {
                command: command@,
                arguments: arguments.view(),
                next: next.view(),
            },
            Step::Execute { command, arguments } => StepV::Execute {
                command: command@,
                arguments: arguments.view(),
            },
            Step::Pause(ids) => StepV::Pause(debug_command::int_seq(ids@)),
            Step::TrackRestart => StepV::TrackRestart,
            Step::ListThreads(reply) => StepV::ListThreads(reply.view()),
            Step::ReadSource { path, line } => StepV::ReadSource { path: path@, line: *line },
            Step::Change(p) => StepV::Change(*p),
            Step::Exit => StepV::Exit,
            Step::Done(s) => StepV::Done(s@),
            Step::Failed(s) => StepV::Failed(s@),
        }
    }
}

/// A step whose task can be resumed.
pub open spec fn step_ok(s: StepV) -> bool {
    match s {
        StepV::Call { command, arguments, next } => task_ok(next),
        _ => true,
    }
}

// ---------------------------------------------------------------------------
// Replies
// ---------------------------------------------------------------------------

/// A reply: the body, or the text of the error.
pub open spec fn reply_of(reply: Result<Json, String>) -> Result<JsonV, Seq<char>> {
    match reply {
        Ok(body) => Ok(body.view()),
        Err(e) => Err(e@),
    }
}

/// A new execution request is numbered.
pub open spec fn acting(s: StateV) -> StateV {
    StateV { action_generation: session::next_generation(s.action_generation), ..s }
}

/// The threads are asked to pause; there has to be one.
pub open spec fn pausing(s: StateV, ids: Seq<int>) -> (StateV, StepV) {
    if ids.len() == 0 {
        (s, StepV::Failed("pause: adapter reported no DAP threads to pause"@))
    } else {
        (acting(s), StepV::Pause(ids))
    }
}

pub open spec fn scopes_value(frame: int) -> JsonV {
    JsonV::Object(map!["frameId"@ => JsonV::Int(frame)])
}

pub open spec fn variables_value(reference: int) -> JsonV {
    JsonV::Object(map!["variablesReference"@ => JsonV::Int(reference)])
}

pub open spec fn set_variable_value(reference: int, name: Seq<char>, value: Seq<char>) -> JsonV {
    JsonV::Object(
        map![
            "variablesReference"@ => JsonV::Int(reference),
            "name"@ => JsonV::Str(name),
            "value"@ => JsonV::Str(value),
        ],
    )
}

/// A `variables` reply lists a variable of that name.
pub open spec fn holds_variable(body: JsonV, name: Seq<char>) -> bool {
    exists|i: int|
        0 <= i < debug_command::list_in(body, "variables"@).len() && json::str_of(
            json::field(#[trigger] debug_command::list_in(body, "variables"@)[i], "name"@),
        ) == Some(name)
}

/// The variables of the first of the scopes are asked for. The search has failed
/// where none is left.
pub open spec fn search(lhs: Seq<char>, rhs: Seq<char>, left: Seq<int>) -> StepV {
    if left.len() == 0 {
        StepV::Failed("variable `"@ + lhs + "` not found in any frame scope"@)
    } else {
        StepV::Call {
            command: "variables"@,
            arguments: variables_value(left[0]),
            next: TaskV::Variables { lhs, rhs, reference: left[0], left: left.skip(1) },
        }
    }
}

/// The variables of the first of the scopes are asked for. The locals are
/// complete where none is left.
pub open spec fn gather(locals: Map<Seq<char>, JsonV>, left: Seq<int>) -> StepV {
    if left.len() == 0 {
        StepV::Done(json::json_text_of(JsonV::Object(locals)))
    } else {
        StepV::Call {
            command: "variables"@,
            arguments: variables_value(left[0]),
            next: TaskV::Locals { locals: JsonV::Object(locals), left: left.skip(1) },
        }
    }
}

/// What follows where `setExpression` failed: an adapter that does not know the
/// request is asked for the scopes of the innermost frame.
pub open spec fn after_refusal(s: StateV, lhs: Seq<char>, rhs: Seq<char>, error: Seq<char>) -> StepV {
    if !debug_command::names_unsupported(debug_command::lowercase_text(error)) {
        StepV::Failed(error)
    } else {
        match debug_command::frame_id_of(s) {
            Some(frame) => StepV::Call {
                command: "scopes"@,
                arguments: scopes_value(frame),
                next: TaskV::Scopes { lhs, rhs },
            },
            None => StepV::Failed("no active frame"@),
        }
    }
}

/// The frames of the selected thread, where the reply lists any.
pub open spec fn with_frames(s: StateV, body: JsonV) -> StateV {
    match json::array_of(json::field(body, "stackFrames"@)) {
        Some(frames) => StateV { top_frame: session::first_of(frames), call_frames: frames, ..s },
        None => s,
    }
}

/// What follows a reply that is not an error.
pub open spec fn after_body(s: StateV, t: TaskV, body: JsonV) -> (StateV, StepV) {
    match t {
        TaskV::Confirm(answer) => (s, StepV::Done(answer)),
        TaskV::Restart => (s, StepV::TrackRestart),
        TaskV::PauseThreads => pausing(
            s,
            debug_command::thread_ids(debug_command::list_in(body, "threads"@)),
        ),
        TaskV::Threads => (s, StepV::ListThreads(body)),
        TaskV::Select(id) => (with_frames(s, body), StepV::Done(selected_text(id))),
        TaskV::Result => (s, StepV::Done(session::text_field(body, "result"@, Seq::empty()))),
        TaskV::Value | TaskV::Assign { .. } => (
            s,
            StepV::Done(session::text_field(body, "value"@, Seq::empty())),
        ),
        TaskV::Scopes { lhs, rhs } => (
            s,
            search(
                lhs,
                rhs,
                debug_command::references(debug_command::list_in(body, "scopes"@), false),
            ),
        ),
        TaskV::Variables { lhs, rhs, reference, left } => (
            s,
            if holds_variable(body, lhs) {
                StepV::Call {
                    command: "setVariable"@,
                    arguments: set_variable_value(reference, lhs, rhs),
                    next: TaskV::Value,
                }
            } else {
                search(lhs, rhs, left)
            },
        ),
        TaskV::LocalScopes => (
            s,
            gather(
                Map::empty(),
                debug_command::references(debug_command::list_in(body, "scopes"@), true),
            ),
        ),
        TaskV::Locals { locals, left } => (
            s,
            gather(
                debug_command::with_locals(
                    locals->Object_0,
                    debug_command::list_in(body, "variables"@),
                ),
                left,
            ),
        ),
    }
}

pub open spec fn selected_text(id: i64) -> Seq<char> {
    "switched to thread "@ + text::signed_decimal(id as int)
}

/// What follows a reply. An error ends the command, unless its reply does not
/// matter or there is another way.
pub open spec fn resumed(s: StateV, t: TaskV, reply: Result<JsonV, Seq<char>>) -> (StateV, StepV) {
    match reply {
        Ok(body) => after_body(s, t, body),
        Err(error) => match t {
            TaskV::Select(id) => (s, StepV::Done(selected_text(id))),
            TaskV::Assign { lhs, rhs } => (s, after_refusal(s, lhs, rhs, error)),
            _ => (s, StepV::Failed(error)),
        },
    }
}

proof fn shorter(left: Seq<i64>)
    requires
        left.len() > 0,
    ensures
        debug_command::int_seq(left.remove(0)) == debug_command::int_seq(left).skip(1),
{
    assert(debug_command::int_seq(left.remove(0)) =~= debug_command::int_seq(left).skip(1));
}

fn begin_search(lhs: String, rhs: String, left: Vec<i64>) -> (r: Step)
    ensures
        r.view() == search(lhs@, rhs@, debug_command::int_seq(left@)),
{
    if left.len() == 0 {
        let mut out = chars_of("variable `");
        extend_str(&mut out, lhs.as_str());
        extend_str(&mut out, "` not found in any frame scope");
        return Step::Failed(string_of(&out));
    }
    let mut rest = left;
    proof {
        shorter(rest@);
    }
    let reference: i64 = rest.remove(0);
    Step::Call {
        command: "variables",
        arguments: variables_arguments(reference),
        next: Task::Variables { lhs, rhs, reference, left: rest },
    }
}

fn begin_gather(locals: Json, left: Vec<i64>) -> (r: Step)
    requires
        locals is Object,
        json::is_plain(locals.view()),
    ensures
        r.view() == gather(locals.view()->Object_0, debug_command::int_seq(left@)),
        step_ok(r.view()),
{
    if left.len() == 0 {
        return Step::Done(locals_answer(&locals));
    }
    let mut rest = left;
    proof {
        shorter(rest@);
    }
    let reference: i64 = rest.remove(0);
    Step::Call {
        command: "variables",
        arguments: variables_arguments(reference),
        next: Task::Locals { locals, left: rest },
    }
}

fn begin_pause(state: &mut State, ids: Vec<i64>) -> (r: Step)
    ensures
        (final(state).view(), r.view()) == pausing(
            old(state).view(),
            debug_command::int_seq(ids@),
        ),
{
    if ids.len() == 0 {
        return Step::Failed("pause: adapter reported no DAP threads to pause".to_owned());
    }
    state.begin_action();
    Step::Pause(ids)
}

fn refused(state: &State, lhs: String, rhs: String, error: String) -> (r: Step)
    ensures
        r.view() == after_refusal(state.view(), lhs@, rhs@, error@),
        step_ok(r.view()),
{
    if !looks_unsupported(error.as_str()) {
        return Step::Failed(error);
    }
    match frame_id(state) {
        Some(frame) => Step::Call {
            command: "scopes",
            arguments: scopes_arguments(frame),
            next: Task::Scopes { lhs, rhs },
        },
        None => Step::Failed("no active frame".to_owned()),
    }
}

fn resume_with_body(state: &mut State, task: Task, body: Json) -> (r: Step)
    requires
        task_ok(task.view()),
    ensures
        (final(state).view(), r.view()) == after_body(old(state).view(), task.view(), body.view()),
        step_ok(r.view()),
{
    match task {
        Task::Confirm(answer) => Step::Done(answer),
        Task::Restart => Step::TrackRestart,
        Task::PauseThreads => {
            let ids = dap_thread_ids(&body);
            begin_pause(state, ids)
        },
        Task::Threads => Step::ListThreads(body),
        Task::Select(id) => {
            state.record_frames(&body);
            Step::Done(thread_answer(id))
        },
        Task::Result => Step::Done(answer_field(&body, "result")),
        Task::Value => Step::Done(answer_field(&body, "value")),
        Task::Assign { .. } => Step::Done(answer_field(&body, "value")),
        Task::Scopes { lhs, rhs } => {
            let left = scope_references(&body, false);
            begin_search(lhs, rhs, left)
        },
        Task::Variables { lhs, rhs, reference, left } => {
            if has_variable(&body, lhs.as_str()) {
                Step::Call {
                    command: "setVariable",
                    arguments: set_variable_arguments(reference, lhs.as_str(), rhs.as_str()),
                    next: Task::Value,
                }
            } else {
                begin_search(lhs, rhs, left)
            }
        },
        Task::LocalScopes => {
            let left = scope_references(&body, true);
            let locals = no_locals();
            begin_gather(locals, left)
        },
        Task::Locals { locals, left } => {
            let mut locals = locals;
            proof {
                debug_command::locals_are_plain(
                    locals.view()->Object_0,
                    debug_command::list_in(body.view(), "variables"@),
                );
            }
            add_locals(&mut locals, &body);
            begin_gather(locals, left)
        },
    }
}

/// Goes on with a command when the reply to its request is there.
pub fn resume(state: &mut State, task: Task, reply: Result<Json, String>) -> (r: Step)
    requires
        task_ok(task.view()),
    ensures
        (final(state).view(), r.view()) == resumed(
            old(state).view(),
            task.view(),
            reply_of(reply),
        ),
        step_ok(r.view()),
{
    match reply {
        Ok(body) => resume_with_body(state, task, body),
        Err(error) => match task {
            Task::Select(id) => Step::Done(thread_answer(id)),
            Task::Assign { lhs, rhs } => refused(state, lhs, rhs, error),
            _ => Step::Failed(error),
        },
    }
}

// ---------------------------------------------------------------------------
// The beginning
// ---------------------------------------------------------------------------

pub open spec fn list_error_text(e: ListError) -> Seq<char> {
    match e {
        ListError::ExpectedLocation => "list: expected file:line"@,
        ListError::InvalidLine => "list: invalid line number"@,
        ListError::NoFrame => "list: no current frame"@,
        ListError::NoSource => "list: current frame has no source path"@,
    }
}

/// The thread that execution requests go to.
pub open spec fn execution_thread(s: StateV) -> int {
    match s.current_thread {
        Some(t) => t as int,
        None => 1,
    }
}

/// How a command begins, but for one that changes the breakpoints.
pub open spec fn begun(s: StateV, c: CommandV) -> (StateV, StepV)
    recommends
        !is_change(c),
{
    match c {
        CommandV::Execute(e) => (
            acting(s),
            StepV::Execute {
                command: debug_command::execution_command(e),
                arguments: debug_command::thread_value(execution_thread(s)),
            },
        ),
        CommandV::Pause => match s.current_thread {
            Some(t) => pausing(s, seq![t as int]),
            None => (
                s,
                StepV::Call {
                    command: "threads"@,
                    arguments: JsonV::Object(Map::empty()),
                    next: TaskV::PauseThreads,
                },
            ),
        },
        CommandV::Restart => (
            session::restarting(s),
            StepV::Call {
                command: "restart"@,
                arguments: JsonV::Object(Map::empty()),
                next: TaskV::Restart,
            },
        ),
        CommandV::CatchNothing => (
            s,
            StepV::Call {
                command: "setExceptionBreakpoints"@,
                arguments: debug_command::filter_value(Seq::empty()),
                next: TaskV::Confirm("exception breakpoints cleared"@),
            },
        ),
        CommandV::Catch(filters) => (
            s,
            StepV::Call {
                command: "setExceptionBreakpoints"@,
                arguments: debug_command::filter_value(filters),
                next: TaskV::Confirm("exception breakpoints: "@ + text::join(filters, ", "@)),
            },
        ),
        CommandV::Backtrace => (s, StepV::Done(debug_command::backtrace(s.call_frames))),
        CommandV::ListBreakpoints => (s, StepV::Done(breakpoints::listing(s.breakpoints))),
        CommandV::InvalidBreakpointId => (s, StepV::Failed("delete: invalid breakpoint id"@)),
        CommandV::Locals => (
            s,
            match debug_command::frame_id_of(s) {
                Some(frame) => StepV::Call {
                    command: "scopes"@,
                    arguments: scopes_value(frame),
                    next: TaskV::LocalScopes,
                },
                None => StepV::Failed("locals: not paused"@),
            },
        ),
        CommandV::Threads => (
            s,
            StepV::Call {
                command: "threads"@,
                arguments: JsonV::Object(Map::empty()),
                next: TaskV::Threads,
            },
        ),
        CommandV::SelectThread(id) => (
            StateV { current_thread: Some(id), ..s },
            StepV::Call {
                command: "stackTrace"@,
                arguments: session::stack_arguments(id as int),
                next: TaskV::Select(id),
            },
        ),
        CommandV::ListSource(operand) => (
            s,
            match debug_command::list_location(operand, s.call_frames) {
                Ok((path, line)) => StepV::ReadSource { path, line },
                Err(e) => StepV::Failed(list_error_text(e)),
            },
        ),
        CommandV::Print(expression) => (
            s,
            StepV::Call {
                command: "evaluate"@,
                arguments: JsonV::Object(
                    debug_command::with_frame(
                        map![
                            "expression"@ => JsonV::Str(expression),
                            "context"@ => JsonV::Str("repl"@),
                        ],
                        debug_command::frame_id_of(s),
                    ),
                ),
                next: TaskV::Result,
            },
        ),
        CommandV::Assign(rest) => (
            s,
            match debug_command::assignment(rest) {
                Some((lhs, rhs)) => StepV::Call {
                    command: "setExpression"@,
                    arguments: JsonV::Object(
                        debug_command::with_frame(
                            map![
                                "expression"@ => JsonV::Str(lhs),
                                "value"@ => JsonV::Str(rhs),
                            ],
                            debug_command::frame_id_of(s),
                        ),
                    ),
                    next: TaskV::Assign { lhs, rhs },
                },
                None => StepV::Failed("usage: dbg set <lhs> = <expr>"@),
            },
        ),
        CommandV::Exit => (s, StepV::Exit),
        CommandV::Unsupported(line) => (
            s,
            StepV::Failed("dap: unsupported command `"@ + line + "`"@),
        ),
        CommandV::DeleteBreakpoint(_) | CommandV::BreakFunction { .. } | CommandV::Break(_) => {
            arbitrary()
        },
    }
}

/// How a command begins that changes the breakpoints: the table is changed, and
/// the adapter is asked to follow; or the table stays, and the command fails.
pub open spec fn change_begins(
    s: StateV,
    after: StateV,
    c: CommandV,
    cwd: Option<Seq<char>>,
    r: StepV,
) -> bool {
    let t = s.breakpoints;
    match r {
        StepV::Change(p) => {
            &&& after == (StateV { breakpoints: after.breakpoints, ..s })
            &&& match c {
                CommandV::Break(b) => breakpoints::is_line_change(
                    t,
                    after.breakpoints,
                    breakpoints::resolved_path(cwd, b.file),
                    b,
                    p,
                ),
                CommandV::BreakFunction { name, condition } => breakpoints::is_function_change(
                    t,
                    after.breakpoints,
                    name,
                    condition,
                    None,
                    p,
                ),
                CommandV::DeleteBreakpoint(id) => breakpoints::is_deletion(
                    t,
                    after.breakpoints,
                    id,
                    p,
                ),
                _ => false,
            }
        },
        StepV::Failed(e) => {
            &&& after == s
            &&& match c {
                CommandV::Break(b) => {
                    &&& breakpoints::set_line(
                        t,
                        breakpoints::resolved_path(cwd, b.file),
                        b.line,
                        b.condition,
                        b.log_message,
                    ) is None
                    &&& e == breakpoints::error_text(BreakpointErrorV::Exhausted)
                },
                CommandV::BreakFunction { name, condition } => {
                    &&& breakpoints::set_function(t, name, condition, None) is None
                    &&& e == breakpoints::error_text(BreakpointErrorV::Exhausted)
                },
                CommandV::DeleteBreakpoint(id) => if id == 0 {
                    e == breakpoints::error_text(BreakpointErrorV::ZeroId)
                } else {
                    &&& !breakpoints::id_used(t, id as int)
                    &&& e == breakpoints::error_text(BreakpointErrorV::UnknownId(id))
                },
                _ => false,
            }
        },
        _ => false,
    }
}

/// A command that changes the breakpoints.
pub open spec fn is_change(c: CommandV) -> bool {
    c is DeleteBreakpoint || c is BreakFunction || c is Break
}

fn no_arguments() -> (r: Json)
    ensures
        r.view() == JsonV::Object(Map::empty()),
{
    Json::Object(Vec::new())
}

fn change_step(change: Result<PendingChange, breakpoints::BreakpointError>) -> (r: Step)
    ensures
        r.view() == match change {
            Ok(p) => StepV::Change(p),
            Err(e) => StepV::Failed(breakpoints::error_text(e.view())),
        },
{
    match change {
        Ok(p) => Step::Change(p),
        Err(e) => Step::Failed(e.message()),
    }
}

fn begin_assignment(state: &State, rest: &str) -> (r: Step)
    ensures
        (state.view(), r.view()) == begun(state.view(), CommandV::Assign(rest@)),
{
    match parse_assignment(rest) {
        Some((lhs, rhs)) => Step::Call {
            command: "setExpression",
            arguments: set_expression_arguments(lhs.as_str(), rhs.as_str(), frame_id(state)),
            next: Task::Assign { lhs, rhs },
        },
        None => Step::Failed("usage: dbg set <lhs> = <expr>".to_owned()),
    }
}

fn begin_listing(state: &State, operand: Option<&str>) -> (r: Step)
    ensures
        (state.view(), r.view()) == begun(
            state.view(),
            CommandV::ListSource(text::opt_str(operand)),
        ),
{
    match source_location(state, operand) {
        Ok((path, line)) => Step::ReadSource { path, line },
        Err(ListError::ExpectedLocation) => Step::Failed("list: expected file:line".to_owned()),
        Err(ListError::InvalidLine) => Step::Failed("list: invalid line number".to_owned()),
        Err(ListError::NoFrame) => Step::Failed("list: no current frame".to_owned()),
        Err(ListError::NoSource) => Step::Failed(
            "list: current frame has no source path".to_owned(),
        ),
    }
}

/// Begins a command: what to do first. Relative files are taken from `cwd`.
pub fn begin(state: &mut State, command: Command, cwd: Option<&str>) -> (r: Step)
    requires
        breakpoints::table_ok(old(state).view().breakpoints),
    ensures
        if is_change(command.view()) {
            change_begins(
                old(state).view(),
                final(state).view(),
                command.view(),
                text::opt_str(cwd),
                r.view(),
            )
        } else {
            (final(state).view(), r.view()) == begun(old(state).view(), command.view())
        },
        step_ok(r.view()),
        breakpoints::table_ok(final(state).view().breakpoints),
{
    let ghost start = state.view();
    match command {
        Command::Execute(e) => {
            let arguments = execution_arguments(state);
            state.begin_action();
            Step::Execute { command: execution_request(e), arguments }
        },
        Command::Pause => match state.current_thread {
            Some(t) => {
                let mut ids: Vec<i64> = Vec::new();
                ids.push(t);
                assert(debug_command::int_seq(ids@) =~= seq![t as int]);
                begin_pause(state, ids)
            },
            None => Step::Call {
                command: "threads",
                arguments: no_arguments(),
                next: Task::PauseThreads,
            },
        },
        Command::Restart => {
            state.begin_restart();
            Step::Call { command: "restart", arguments: no_arguments(), next: Task::Restart }
        },
        Command::CatchNothing => {
            let none: Vec<String> = Vec::new();
            assert(text::texts(none@) =~= Seq::empty());
            Step::Call {
                command: "setExceptionBreakpoints",
                arguments: filter_arguments(&none),
                next: Task::Confirm("exception breakpoints cleared".to_owned()),
            }
        },
        Command::Catch(filters) => Step::Call {
            command: "setExceptionBreakpoints",
            arguments: filter_arguments(&filters),
            next: Task::Confirm(catch_answer(&filters)),
        },
        Command::Backtrace => Step::Done(debug_command::format_backtrace(state)),
        Command::ListBreakpoints => Step::Done(state.breakpoints.format_breakpoints()),
        Command::InvalidBreakpointId => Step::Failed("delete: invalid breakpoint id".to_owned()),
        Command::Locals => match frame_id(state) {
            Some(frame) => Step::Call {
                command: "scopes",
                arguments: scopes_arguments(frame),
                next: Task::LocalScopes,
            },
            None => Step::Failed("locals: not paused".to_owned()),
        },
        Command::Threads => Step::Call {
            command: "threads",
            arguments: no_arguments(),
            next: Task::Threads,
        },
        Command::SelectThread(id) => {
            state.select_thread(id);
            Step::Call {
                command: "stackTrace",
                arguments: stack_trace_arguments(id),
                next: Task::Select(id),
            }
        },
        Command::ListSource(operand) => match operand {
            Some(s) => begin_listing(state, Some(s.as_str())),
            None => begin_listing(state, None),
        },
        Command::Print(expression) => Step::Call {
            command: "evaluate",
            arguments: evaluate_arguments(expression.as_str(), frame_id(state)),
            next: Task::Result,
        },
        Command::Assign(rest) => begin_assignment(state, rest.as_str()),
        Command::Exit => Step::Exit,
        Command::Unsupported(line) => {
            let mut out = chars_of("dap: unsupported command `");
            extend_str(&mut out, line.as_str());
            extend_str(&mut out, "`");
            Step::Failed(string_of(&out))
        },
        Command::Break(b) => {
            let change = state.breakpoints.begin_set_breakpoint(&b, cwd);
            change_step(change)
        },
        Command::BreakFunction { name, condition } => {
            let c: Option<&str> = match &condition {
                Some(s) => Some(s.as_str()),
                None => None,
            };
            let change = state.breakpoints.begin_set_function_breakpoint(name.as_str(), c, None);
            change_step(change)
        },
        Command::DeleteBreakpoint(id) => {
            let change = state.breakpoints.begin_delete_breakpoint(id);
            change_step(change)
        },
    }
}

// ---------------------------------------------------------------------------
// Pausing
// ---------------------------------------------------------------------------

/// The error with which a pause ends at once: of one thread that refuses it. Of
/// several threads any may stop the program.
pub fn pause_refused(threads: usize, last_error: Option<String>) -> (r: Option<String>)
    ensures
        r == if threads == 1 {
            last_error
        } else {
            None
        },
{
    if threads == 1 {
        last_error
    } else {
        None
    }
}

/// The answer to a pause, by what the wait for a stop came to.
pub open spec fn paused(
    outcome: Result<(), Seq<char>>,
    ids: Seq<i64>,
    debuggee: Option<u32>,
) -> Result<Seq<char>, Seq<char>> {
    match outcome {
        Ok(_) => Ok("paused"@),
        Err(e) => Err(
            if text::contains(e, "timeout waiting for stopped event"@) {
                debug_command::pause_timeout_text(ids, debuggee)
            } else {
                e
            },
        ),
    }
}

/// The answer to a pause, by what the wait for a stop came to. A wait that timed
/// out is reported with the threads that were asked.
pub fn pause_answer(outcome: Result<(), String>, ids: &[i64], debuggee: Option<u32>) -> (r: Result<
    String,
    String,
>)
    ensures
        ({
            let waited = match outcome {
                Ok(_) => Ok::<(), Seq<char>>(()),
                Err(e) => Err(e@),
            };
            match r {
                Ok(answer) => paused(waited, ids@, debuggee) == Ok::<Seq<char>, Seq<char>>(
                    answer@,
                ),
                Err(e) => paused(waited, ids@, debuggee) == Err::<Seq<char>, Seq<char>>(e@),
            }
        }),
{
    match outcome {
        Ok(_) => Ok("paused".to_owned()),
        Err(e) => {
            let wanted = chars_of("timeout waiting for stopped event");
            if find_chars(&chars_of(e.as_str()), &wanted, 0).is_some() {
                Err(pause_timeout(ids, debuggee))
            } else {
                Err(e)
            }
        },
    }
}

// ---------------------------------------------------------------------------
// Laws
// ---------------------------------------------------------------------------

/// Where a command stands after these replies.
pub open spec fn fed(s: StateV, step: StepV, replies: Seq<Result<JsonV, Seq<char>>>) -> (
    StateV,
    StepV,
)
    decreases replies.len(),
{
    if replies.len() == 0 {
        (s, step)
    } else {
        match step {
            StepV::Call { command, arguments, next } => {
                let (after, following) = resumed(s, next, replies[0]);
                fed(after, following, replies.skip(1))
            },
            _ => (s, step),
        }
    }
}

/// Replies that are no errors.
pub open spec fn accepted(bodies: Seq<JsonV>) -> Seq<Result<JsonV, Seq<char>>> {
    Seq::new(bodies.len(), |i: int| Ok(bodies[i]))
}

proof fn accepted_rest(bodies: Seq<JsonV>)
    requires
        bodies.len() > 0,
    ensures
        accepted(bodies).len() == bodies.len(),
        accepted(bodies)[0] == Ok::<JsonV, Seq<char>>(bodies[0]),
        accepted(bodies).skip(1) == accepted(bodies.skip(1)),
{
    assert(accepted(bodies).skip(1) =~= accepted(bodies.skip(1)));
}

/// The variable is set in the first of the scopes that holds it.
pub proof fn the_first_scope_with_the_variable_is_set(
    s: StateV,
    lhs: Seq<char>,
    rhs: Seq<char>,
    left: Seq<int>,
    bodies: Seq<JsonV>,
)
    requires
        0 < bodies.len() <= left.len(),
        forall|i: int| 0 <= i < bodies.len() - 1 ==> !holds_variable(#[trigger] bodies[i], lhs),
        holds_variable(bodies.last(), lhs),
    ensures
        fed(s, search(lhs, rhs, left), accepted(bodies)) == (
            s,
            StepV::Call {
                command: "setVariable"@,
                arguments: set_variable_value(left[bodies.len() - 1], lhs, rhs),
                next: TaskV::Value,
            },
        ),
    decreases bodies.len(),
{
    accepted_rest(bodies);
    let (after, following) = resumed(
        s,
        TaskV::Variables { lhs, rhs, reference: left[0], left: left.skip(1) },
        accepted(bodies)[0],
    );
    assert(fed(s, search(lhs, rhs, left), accepted(bodies)) == fed(
        after,
        following,
        accepted(bodies.skip(1)),
    ));
    if bodies.len() > 1 {
        assert(bodies.skip(1).last() == bodies.last());
        assert forall|i: int| 0 <= i < bodies.skip(1).len() - 1 implies !holds_variable(
            #[trigger] bodies.skip(1)[i],
            lhs,
        ) by {
            assert(bodies.skip(1)[i] == bodies[i + 1]);
        }
        assert(!holds_variable(bodies[0], lhs));
        the_first_scope_with_the_variable_is_set(s, lhs, rhs, left.skip(1), bodies.skip(1));
        assert(left.skip(1)[bodies.len() - 2] == left[bodies.len() - 1]);
    } else {
        assert(bodies.skip(1).len() == 0);
        assert(accepted(bodies.skip(1)).len() == 0);
        assert(bodies.last() == bodies[0]);
    }
}

/// A variable that no scope holds is not set.
pub proof fn a_variable_in_no_scope_is_not_set(
    s: StateV,
    lhs: Seq<char>,
    rhs: Seq<char>,
    left: Seq<int>,
    bodies: Seq<JsonV>,
)
    requires
        bodies.len() == left.len(),
        forall|i: int| 0 <= i < bodies.len() ==> !holds_variable(#[trigger] bodies[i], lhs),
    ensures
        fed(s, search(lhs, rhs, left), accepted(bodies)) == (
            s,
            StepV::Failed("variable `"@ + lhs + "` not found in any frame scope"@),
        ),
    decreases bodies.len(),
{
    if bodies.len() > 0 {
        accepted_rest(bodies);
        assert(!holds_variable(bodies[0], lhs));
        assert forall|i: int| 0 <= i < bodies.skip(1).len() implies !holds_variable(
            #[trigger] bodies.skip(1)[i],
            lhs,
        ) by {
            assert(bodies.skip(1)[i] == bodies[i + 1]);
        }
        a_variable_in_no_scope_is_not_set(s, lhs, rhs, left.skip(1), bodies.skip(1));
        assert(fed(s, search(lhs, rhs, left), accepted(bodies)) == fed(
            s,
            search(lhs, rhs, left.skip(1)),
            accepted(bodies.skip(1)),
        ));
    }
}

/// The locals of the scopes in these replies, together with `m`.
pub open spec fn all_locals(m: Map<Seq<char>, JsonV>, bodies: Seq<JsonV>) -> Map<Seq<char>, JsonV>
    decreases bodies.len(),
{
    if bodies.len() == 0 {
        m
    } else {
        all_locals(
            debug_command::with_locals(m, debug_command::list_in(bodies[0], "variables"@)),
            bodies.skip(1),
        )
    }
}

/// The answer holds the locals of every scope.
pub proof fn locals_are_those_of_every_scope(
    s: StateV,
    m: Map<Seq<char>, JsonV>,
    left: Seq<int>,
    bodies: Seq<JsonV>,
)
    requires
        bodies.len() == left.len(),
    ensures
        fed(s, gather(m, left), accepted(bodies)) == (
            s,
            StepV::Done(json::json_text_of(JsonV::Object(all_locals(m, bodies)))),
        ),
    decreases bodies.len(),
{
    if bodies.len() > 0 {
        accepted_rest(bodies);
        let next = debug_command::with_locals(
            m,
            debug_command::list_in(bodies[0], "variables"@),
        );
        locals_are_those_of_every_scope(s, next, left.skip(1), bodies.skip(1));
        assert(fed(s, gather(m, left), accepted(bodies)) == fed(
            s,
            gather(next, left.skip(1)),
            accepted(bodies.skip(1)),
        ));
    }
}

proof fn a_scope_keeps_what_is_there(m: Map<Seq<char>, JsonV>, variables: Seq<JsonV>, name: Seq<char>)
    requires
        m.dom().contains(name),
    ensures
        debug_command::with_locals(m, variables).dom().contains(name),
        debug_command::with_locals(m, variables)[name] == m[name],
    decreases variables.len(),
{
    if variables.len() > 0 {
        a_scope_keeps_what_is_there(m, variables.drop_last(), name);
    }
}

/// A variable of an inner scope hides those of the same name further out.
pub proof fn inner_scopes_come_first(m: Map<Seq<char>, JsonV>, bodies: Seq<JsonV>, name: Seq<char>)
    requires
        m.dom().contains(name),
    ensures
        all_locals(m, bodies).dom().contains(name),
        all_locals(m, bodies)[name] == m[name],
    decreases bodies.len(),
{
    if bodies.len() > 0 {
        let variables = debug_command::list_in(bodies[0], "variables"@);
        a_scope_keeps_what_is_there(m, variables, name);
        inner_scopes_come_first(debug_command::with_locals(m, variables), bodies.skip(1), name);
    }
}

/// A refused request ends the command with its error and changes nothing, but
/// for a thread that is selected all the same and an assignment that is tried
/// another way.
pub proof fn a_refused_request_ends_the_command(s: StateV, t: TaskV, error: Seq<char>)
    requires
        !(t is Select),
        t is Assign ==> !debug_command::names_unsupported(debug_command::lowercase_text(error)),
    ensures
        resumed(s, t, Err(error)) == (s, StepV::Failed(error)),
{
}

/// No reply to these requests changes the breakpoints.
pub proof fn replies_leave_breakpoints_alone(
    s: StateV,
    t: TaskV,
    reply: Result<JsonV, Seq<char>>,
)
    ensures
        resumed(s, t, reply).0.breakpoints == s.breakpoints,
{
}

} // verus!
