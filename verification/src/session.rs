//! The state of a debug session and what each message of the adapter does to
//! it.
//!
//! A message is turned into the next state and an action. The caller performs
//! the action: it wakes waiters, hands a reply to the one who asked, sends a
//! request.

use vstd::prelude::*;

use crate::breakpoints::Breakpoints;
use crate::dap_frame;
use crate::dap_frame::{encode_frame, DapFrameDecoder};
use crate::json;
use crate::json::{copy_items, json_text, parse_json, put, put_int, put_str, Json, JsonV};
use crate::process::ProcessIdentity;
use crate::text;
use crate::text::{
    chars_of, decimal_chars, extend_chars, extend_str, parse_bounded_chars, same_text, string_of,
};

verus! {

// ---------------------------------------------------------------------------
// Stops
// ---------------------------------------------------------------------------

/// Where the program stopped.
#[derive(Debug)]
pub struct HitEvent {
    pub location_key: String,
    pub thread: Option<String>,
    pub frame_symbol: Option<String>,
    pub file: Option<String>,
    pub line: Option<u32>,
}

pub struct HitV {
    pub location_key: Seq<char>,
    pub thread: Option<Seq<char>>,
    pub frame_symbol: Option<Seq<char>>,
    pub file: Option<Seq<char>>,
    pub line: Option<u32>,
}

impl HitEvent {
    pub open spec fn view(&self) -> HitV {
        HitV {
            location_key: self.location_key@,
            thread: text::opt_text(self.thread),
            frame_symbol: text::opt_text(self.frame_symbol),
            file: text::opt_text(self.file),
            line: self.line,
        }
    }

    /// A stop of which nothing is known.
    pub fn unknown() -> (r: HitEvent)
        ensures
            r.view() == unknown_hit(),
    {
        HitEvent {
            location_key: String::new(),
            thread: None,
            frame_symbol: None,
            file: None,
            line: None,
        }
    }
}

/// A stop of which nothing is known.
pub open spec fn unknown_hit() -> HitV {
    HitV { location_key: Seq::empty(), thread: None, frame_symbol: None, file: None, line: None }
}

/// The stop at a stack frame. A line number wraps at 32 bits.
pub open spec fn hit_at(frame: JsonV) -> HitV {
    let name = match json::str_of(json::field(frame, "name"@)) {
        Some(s) => s,
        None => "?"@,
    };
    let path = frame_path(frame);
    let line = match json::u64_of(json::field(frame, "line"@)) {
        Some(n) => (n % 0x1_0000_0000) as u32,
        None => 0u32,
    };
    match path {
        Some(p) => if p.len() > 0 {
            HitV {
                location_key: p + ":"@ + text::decimal(line as nat),
                thread: None,
                frame_symbol: Some(name),
                file: Some(p),
                line: Some(line),
            }
        } else {
            HitV {
                location_key: "?:"@ + text::decimal(line as nat),
                thread: None,
                frame_symbol: Some(name),
                file: None,
                line: Some(line),
            }
        },
        None => HitV {
            location_key: "?:"@ + text::decimal(line as nat),
            thread: None,
            frame_symbol: Some(name),
            file: None,
            line: Some(line),
        },
    }
}

/// The path of the source that a frame stands in.
pub open spec fn frame_path(frame: JsonV) -> Option<Seq<char>> {
    match json::field(frame, "source"@) {
        Some(source) => json::str_of(json::field(source, "path"@)),
        None => None,
    }
}

/// The path of the source that a frame stands in.
pub fn source_path(frame: &Json) -> (r: Option<&str>)
    ensures
        match r {
            Some(s) => frame_path(frame.view()) == Some(s@),
            None => frame_path(frame.view()) is None,
        },
{
    match frame.get("source") {
        Some(source) => source.get_str("path"),
        None => None,
    }
}

fn hit_of(frame: &Json) -> (r: HitEvent)
    ensures
        r.view() == hit_at(frame.view()),
{
    let name: String = match frame.get_str("name") {
        Some(s) => s.to_owned(),
        None => "?".to_owned(),
    };
    let line: u32 = match frame.get_u64("line") {
        Some(n) => (n % 0x1_0000_0000) as u32,
        None => 0,
    };
    let digits = decimal_chars(line as u64);
    match source_path(frame) {
        Some(p) => {
            let chars = chars_of(p);
            if chars.len() > 0 {
                let mut key = chars_of(p);
                extend_str(&mut key, ":");
                extend_chars(&mut key, &digits);
                return HitEvent {
                    location_key: string_of(&key),
                    thread: None,
                    frame_symbol: Some(name),
                    file: Some(p.to_owned()),
                    line: Some(line),
                };
            }
        },
        None => {},
    }
    let mut key = chars_of("?:");
    extend_chars(&mut key, &digits);
    HitEvent {
        location_key: string_of(&key),
        thread: None,
        frame_symbol: Some(name),
        file: None,
        line: Some(line),
    }
}

// ---------------------------------------------------------------------------
// The state
// ---------------------------------------------------------------------------

#[derive(Debug)]
pub struct State {
    /// The highest thread that a stop was seen of, or the one that was selected
    /// since the last stop. Requests go to it unless they name another.
    pub current_thread: Option<i64>,
    /// The highest thread that a stop was seen of, whatever was selected.
    pub highest_stop: Option<i64>,
    /// The innermost frame of the last stop.
    pub top_frame: Option<Json>,
    /// All frames of the last stop.
    pub call_frames: Vec<Json>,
    /// A stop that nobody has taken yet.
    pub pending_hit: Option<HitEvent>,
    pub pending_is_unscoped: bool,
    pub pending_action_generation: u64,
    pub breakpoints: Breakpoints,
    /// Set between a stop and the next execution.
    pub paused: bool,
    pub alive: bool,
    pub initialized: bool,
    pub terminated: bool,
    /// The process that the adapter launched.
    pub launched_pid: Option<u32>,
    pub launched_identity: Option<ProcessIdentity>,
    /// Counts execution requests. A stack reply carries the stop that it
    /// belongs to, so that a late one cannot fill a later request's state.
    pub action_generation: u64,
    /// The last execution request that reached the adapter's queue.
    pub armed_action_generation: u64,
    /// Counts stops.
    pub stop_generation: u64,
    /// The last stop whose frames were recorded.
    pub enriched_stop_generation: u64,
}

pub struct StateV {
    pub current_thread: Option<i64>,
    pub highest_stop: Option<i64>,
    pub top_frame: Option<JsonV>,
    pub call_frames: Seq<JsonV>,
    pub pending_hit: Option<HitV>,
    pub pending_is_unscoped: bool,
    pub pending_action_generation: u64,
    pub breakpoints: crate::breakpoints::TableV,
    pub paused: bool,
    pub alive: bool,
    pub initialized: bool,
    pub terminated: bool,
    pub launched_pid: Option<u32>,
    pub launched_identity: Option<ProcessIdentity>,
    pub action_generation: u64,
    pub armed_action_generation: u64,
    pub stop_generation: u64,
    pub enriched_stop_generation: u64,
}

pub open spec fn json_opt_view(j: Option<Json>) -> Option<JsonV> {
    match j {
        Some(v) => Some(v.view()),
        None => None,
    }
}

pub open spec fn hit_opt_view(h: Option<HitEvent>) -> Option<HitV> {
    match h {
        Some(v) => Some(v.view()),
        None => None,
    }
}

/// The number after `n`, which starts again at 0.
pub open spec fn next_generation(n: u64) -> u64 {
    if n == u64::MAX {
        0
    } else {
        (n + 1) as u64
    }
}

impl State {
    pub open spec fn view(&self) -> StateV {
        StateV {
            current_thread: self.current_thread,
            highest_stop: self.highest_stop,
            top_frame: json_opt_view(self.top_frame),
            call_frames: json::item_views(self.call_frames@),
            pending_hit: hit_opt_view(self.pending_hit),
            pending_is_unscoped: self.pending_is_unscoped,
            pending_action_generation: self.pending_action_generation,
            breakpoints: self.breakpoints.view(),
            paused: self.paused,
            alive: self.alive,
            initialized: self.initialized,
            terminated: self.terminated,
            launched_pid: self.launched_pid,
            launched_identity: self.launched_identity,
            action_generation: self.action_generation,
            armed_action_generation: self.armed_action_generation,
            stop_generation: self.stop_generation,
            enriched_stop_generation: self.enriched_stop_generation,
        }
    }

    pub fn new() -> (s: State)
        ensures
            s.view() == initial_state(),
            crate::breakpoints::table_ok(s.view().breakpoints),
            crate::breakpoints::ids_below_next(s.view().breakpoints),
    {
        State {
            current_thread: None,
            highest_stop: None,
            top_frame: None,
            call_frames: Vec::new(),
            pending_hit: None,
            pending_is_unscoped: false,
            pending_action_generation: 0,
            breakpoints: Breakpoints::new(),
            paused: false,
            alive: true,
            initialized: false,
            terminated: false,
            launched_pid: None,
            launched_identity: None,
            action_generation: 0,
            armed_action_generation: 0,
            stop_generation: 0,
            enriched_stop_generation: 0,
        }
    }

    /// Forgets a stop: the next execution begins.
    pub fn clear_pending(&mut self)
        ensures
            final(self).view() == (StateV {
                pending_hit: None,
                pending_is_unscoped: false,
                paused: false,
                ..old(self).view()
            }),
    {
        self.pending_hit = None;
        self.pending_is_unscoped = false;
        self.paused = false;
    }

    /// Forgets the stop of an earlier request before the next one is sent. A stop
    /// that names no thread stays: it may belong to the next request.
    pub fn begin_wait(&mut self)
        ensures
            final(self).view() == if old(self).pending_hit is Some && old(
                self,
            ).pending_is_unscoped {
                old(self).view()
            } else {
                StateV {
                    pending_hit: None,
                    pending_is_unscoped: false,
                    paused: false,
                    ..old(self).view()
                }
            },
    {
        if !(self.pending_hit.is_some() && self.pending_is_unscoped) {
            self.clear_pending();
        }
    }

    /// Takes the stop that is waiting.
    pub fn take_pending_hit(&mut self) -> (r: Option<HitEvent>)
        ensures
            hit_opt_view(r) == old(self).view().pending_hit,
            final(self).view() == (StateV { pending_hit: None, ..old(self).view() }),
    {
        self.pending_hit.take()
    }

    /// Numbers a new execution request.
    pub fn begin_action(&mut self)
        ensures
            final(self).view() == (StateV {
                action_generation: next_generation(old(self).action_generation),
                ..old(self).view()
            }),
    {
        self.action_generation = if self.action_generation == u64::MAX {
            0
        } else {
            self.action_generation + 1
        };
    }

    /// Forgets the frames and the process before a restart, so that what the
    /// restarted program reports is not mixed with the old one's.
    pub fn begin_restart(&mut self)
        ensures
            final(self).view() == restarting(old(self).view()),
    {
        self.begin_action();
        self.paused = false;
        self.top_frame = None;
        self.call_frames = Vec::new();
        self.pending_hit = None;
        self.pending_action_generation = self.action_generation;
        self.armed_action_generation = self.action_generation;
        self.launched_pid = None;
        self.launched_identity = None;
    }

    /// Records the launched process.
    pub fn set_launched(&mut self, pid: u32, identity: Option<ProcessIdentity>)
        ensures
            final(self).view() == (StateV {
                launched_pid: Some(pid),
                launched_identity: identity,
                ..old(self).view()
            }),
    {
        self.launched_pid = Some(pid);
        self.launched_identity = identity;
    }

    /// The connection to the adapter is gone.
    pub fn mark_dead(&mut self)
        ensures
            final(self).view() == (StateV { alive: false, ..old(self).view() }),
    {
        self.alive = false;
    }

    /// The session ends: those who wait for a stop give up.
    pub fn mark_quit(&mut self)
        ensures
            final(self).view() == (StateV { alive: false, terminated: true, ..old(self).view() }),
    {
        self.alive = false;
        self.terminated = true;
    }

    /// Selects the thread that requests go to until the next stop.
    pub fn select_thread(&mut self, id: i64)
        ensures
            final(self).view() == (StateV { current_thread: Some(id), ..old(self).view() }),
    {
        self.current_thread = Some(id);
    }

    /// Records the frames of the selected thread, where the reply lists any.
    pub fn record_frames(&mut self, response: &Json)
        ensures
            final(self).view() == match json::array_of(
                json::field(response.view(), "stackFrames"@),
            ) {
                Some(frames) => (StateV {
                    top_frame: first_of(frames),
                    call_frames: frames,
                    ..old(self).view()
                }),
                None => old(self).view(),
            },
    {
        if let Some(frames) = response.get_array("stackFrames") {
            proof {
                json::item_views_are_views(frames@);
            }
            self.top_frame = if frames.len() > 0 {
                Some(frames[0].copy())
            } else {
                None
            };
            self.call_frames = copy_items(frames);
        }
    }
}

pub open spec fn first_of(frames: Seq<JsonV>) -> Option<JsonV> {
    if frames.len() > 0 {
        Some(frames[0])
    } else {
        None
    }
}

/// The state of a session that has just begun.
pub open spec fn initial_state() -> StateV {
    StateV {
        current_thread: None,
        highest_stop: None,
        top_frame: None,
        call_frames: Seq::empty(),
        pending_hit: None,
        pending_is_unscoped: false,
        pending_action_generation: 0,
        breakpoints: crate::breakpoints::TableV {
            lines: Seq::empty(),
            functions: Seq::empty(),
            next_id: 1,
        },
        paused: false,
        alive: true,
        initialized: false,
        terminated: false,
        launched_pid: None,
        launched_identity: None,
        action_generation: 0,
        armed_action_generation: 0,
        stop_generation: 0,
        enriched_stop_generation: 0,
    }
}

/// The state while a restart is under way.
pub open spec fn restarting(s: StateV) -> StateV {
    let g = next_generation(s.action_generation);
    StateV {
        action_generation: g,
        paused: false,
        top_frame: None,
        call_frames: Seq::empty(),
        pending_hit: None,
        pending_action_generation: g,
        armed_action_generation: g,
        launched_pid: None,
        launched_identity: None,
        ..s
    }
}

/// What the frames that belong to a stop do to the state. Frames of a stop
/// that is not the last one, that belongs to an earlier execution, or that was
/// recorded before, do nothing.
pub open spec fn after_stack(s: StateV, body: JsonV, stop_generation: u64) -> StateV {
    if s.stop_generation != stop_generation || s.pending_action_generation != s.action_generation
        || s.enriched_stop_generation == stop_generation {
        s
    } else {
        let frames = match json::array_of(json::field(body, "stackFrames"@)) {
            Some(f) => f,
            None => Seq::empty(),
        };
        StateV {
            call_frames: frames,
            top_frame: first_of(frames),
            pending_hit: Some(
                if frames.len() > 0 {
                    hit_at(frames[0])
                } else {
                    unknown_hit()
                },
            ),
            pending_action_generation: s.action_generation,
            enriched_stop_generation: stop_generation,
            ..s
        }
    }
}

/// Takes in the frames that belong to a stop; says whether they were of use.
pub fn handle_stack_response(state: &mut State, body: &Json, stop_generation: u64) -> (r: bool)
    ensures
        final(state).view() == after_stack(old(state).view(), body.view(), stop_generation),
        r == !(old(state).stop_generation != stop_generation
            || old(state).pending_action_generation != old(state).action_generation
            || old(state).enriched_stop_generation == stop_generation),
{
    if state.stop_generation != stop_generation || state.pending_action_generation
        != state.action_generation || state.enriched_stop_generation == stop_generation {
        return false;
    }
    let frames: Vec<Json> = match body.get_array("stackFrames") {
        Some(f) => copy_items(f),
        None => Vec::new(),
    };
    proof {
        json::item_views_are_views(frames@);
    }
    if frames.len() > 0 {
        state.top_frame = Some(frames[0].copy());
        state.pending_hit = Some(hit_of(&frames[0]));
    } else {
        state.top_frame = None;
        state.pending_hit = Some(HitEvent::unknown());
    }
    state.call_frames = frames;
    state.pending_action_generation = state.action_generation;
    state.enriched_stop_generation = stop_generation;
    true
}

// ---------------------------------------------------------------------------
// Requests in flight
// ---------------------------------------------------------------------------

/// A request that the adapter has not answered yet.
#[derive(Debug)]
pub struct PendingCall {
    pub seq: i64,
    pub command: String,
}

pub struct CallV {
    pub seq: int,
    pub command: Seq<char>,
}

/// The protocol side of a session.
#[derive(Debug)]
pub struct Driver {
    pub decoder: DapFrameDecoder,
    pub next_seq: i64,
    pub pending: Vec<PendingCall>,
}

pub struct DriverV {
    pub next_seq: int,
    pub pending: Seq<CallV>,
}

pub open spec fn call_views(s: Seq<PendingCall>) -> Seq<CallV> {
    Seq::new(s.len(), |i: int| CallV { seq: s[i].seq as int, command: s[i].command@ })
}

impl Driver {
    pub open spec fn view(&self) -> DriverV {
        DriverV { next_seq: self.next_seq as int, pending: call_views(self.pending@) }
    }
}

/// Each request in flight has a number of its own, below the next one.
pub open spec fn driver_ok(d: DriverV) -> bool {
    &&& 1 <= d.next_seq
    &&& forall|i: int| 0 <= i < d.pending.len() ==> 1 <= (#[trigger] d.pending[i]).seq < d.next_seq
    &&& forall|i: int, j: int|
        0 <= i < j < d.pending.len() ==> (#[trigger] d.pending[i]).seq != (
        #[trigger] d.pending[j]).seq
}

/// The position of the request with that number, from `k` on.
pub open spec fn call_position(pending: Seq<CallV>, seq: int, k: int) -> Option<int>
    decreases pending.len() - k,
{
    if k < 0 || k >= pending.len() {
        None
    } else if pending[k].seq == seq {
        Some(k)
    } else {
        call_position(pending, seq, k + 1)
    }
}

/// A request as it is sent.
pub open spec fn request_value(seq: int, command: Seq<char>, arguments: JsonV) -> JsonV {
    JsonV::Object(
        map![
            "seq"@ => JsonV::Int(seq),
            "type"@ => JsonV::Str("request"@),
            "command"@ => JsonV::Str(command),
            "arguments"@ => arguments,
        ],
    )
}

/// The bytes that carry a message.
pub open spec fn message_bytes(message: JsonV) -> Seq<u8> {
    dap_frame::frame(vstd::utf8::encode_utf8(json::json_text_of(message)))
}

/// The bytes carry a message: they are its frame, and its text reads back.
pub open spec fn carries(bytes: Seq<u8>, message: JsonV) -> bool {
    &&& bytes == message_bytes(message)
    &&& json::parsed_json(vstd::utf8::encode_utf8(json::json_text_of(message))) == Some(message)
}

/// The arguments of the `stackTrace` request for a thread.
pub open spec fn stack_arguments(thread: int) -> JsonV {
    JsonV::Object(
        map![
            "threadId"@ => JsonV::Int(thread),
            "startFrame"@ => JsonV::Int(0),
            "levels"@ => JsonV::Int(20),
        ],
    )
}

/// The arguments of the `stackTrace` request for a thread.
pub fn stack_trace_arguments(thread: i64) -> (r: Json)
    ensures
        r.view() == stack_arguments(thread as int),
{
    let mut fields: Vec<(String, Json)> = Vec::new();
    put_int(&mut fields, "threadId", thread);
    put_int(&mut fields, "startFrame", 0);
    put_int(&mut fields, "levels", 20);
    Json::Object(fields)
}

proof fn stack_arguments_are_plain(thread: int)
    requires
        i64::MIN <= thread <= i64::MAX,
    ensures
        json::is_plain(stack_arguments(thread)),
{
    let m = stack_arguments(thread)->Object_0;
    assert forall|k: Seq<char>| #[trigger] m.dom().contains(k) implies json::is_plain(m[k]) by {
        if k == "levels"@ {
        } else if k == "startFrame"@ {
        } else {
            assert(k == "threadId"@);
        }
    }
}

proof fn request_is_plain(seq: int, command: Seq<char>, arguments: JsonV)
    requires
        i64::MIN <= seq <= i64::MAX,
        json::is_plain(arguments),
    ensures
        json::is_plain(request_value(seq, command, arguments)),
{
    let m = request_value(seq, command, arguments)->Object_0;
    assert forall|k: Seq<char>| #[trigger] m.dom().contains(k) implies json::is_plain(m[k]) by {
        if k == "arguments"@ {
        } else if k == "command"@ {
        } else if k == "type"@ {
        } else {
            assert(k == "seq"@);
        }
    }
}

proof fn request_nests(seq: int, command: Seq<char>, arguments: JsonV, n: int)
    requires
        n > 0,
        json::nests_within(arguments, n - 1),
    ensures
        json::nests_within(request_value(seq, command, arguments), n),
{
    let m = request_value(seq, command, arguments)->Object_0;
    assert forall|k: Seq<char>| #[trigger] m.dom().contains(k) implies json::nests_within(
        m[k],
        n - 1,
    ) by {
        if k == "arguments"@ {
        } else if k == "command"@ {
        } else if k == "type"@ {
        } else {
            assert(k == "seq"@);
        }
    }
}

/// The bytes of a request.
fn request_bytes(seq: i64, command: &str, arguments: Json) -> (r: Vec<u8>)
    ensures
        json::is_plain(arguments.view()) ==> r@ == message_bytes(
            request_value(seq as int, command@, arguments.view()),
        ),
        json::is_plain(arguments.view()) && json::nests_within(
            arguments.view(),
            json::DEEPEST_NESTING - 1,
        ) ==> carries(r@, request_value(seq as int, command@, arguments.view())),
{
    proof {
        if json::is_plain(arguments.view()) {
            request_is_plain(seq as int, command@, arguments.view());
        }
        if json::nests_within(arguments.view(), json::DEEPEST_NESTING - 1) {
            request_nests(
                seq as int,
                command@,
                arguments.view(),
                json::DEEPEST_NESTING as int,
            );
        }
    }
    let mut fields: Vec<(String, Json)> = Vec::new();
    put_int(&mut fields, "seq", seq);
    put_str(&mut fields, "type", "request");
    put_str(&mut fields, "command", command);
    put(&mut fields, "arguments", arguments);
    let message = Json::Object(fields);
    let body = json_text(&message);
    encode_frame(body.as_str().as_bytes())
}

impl Driver {
    pub fn new() -> (d: Driver)
        ensures
            d.view() == (DriverV { next_seq: 1, pending: Seq::empty() }),
            d.decoder.inbox@ == Seq::<u8>::empty(),
            !d.decoder.resync_oversized,
            driver_ok(d.view()),
    {
        let d = Driver { decoder: DapFrameDecoder::new(), next_seq: 1, pending: Vec::new() };
        assert(d.view().pending =~= Seq::empty());
        d
    }

    /// Numbers a request and gives the bytes to send. An execution request is
    /// armed: stops from now on belong to it.
    pub fn begin_call(
        &mut self,
        state: &mut State,
        command: &str,
        arguments: Json,
        arm_action: bool,
    ) -> (r: (i64, Vec<u8>))
        requires
            old(self).next_seq < i64::MAX,
        ensures
            r.0 == old(self).next_seq,
            json::is_plain(arguments.view()) ==> r.1@ == message_bytes(
                request_value(r.0 as int, command@, arguments.view()),
            ),
            json::is_plain(arguments.view()) && json::nests_within(
                arguments.view(),
                json::DEEPEST_NESTING - 1,
            ) ==> carries(r.1@, request_value(r.0 as int, command@, arguments.view())),
            final(self).view() == (DriverV {
                next_seq: old(self).next_seq + 1,
                ..old(self).view()
            }),
            final(self).decoder == old(self).decoder,
            final(state).view() == (StateV {
                armed_action_generation: if arm_action {
                    old(state).action_generation
                } else {
                    old(state).armed_action_generation
                },
                ..old(state).view()
            }),
            driver_ok(old(self).view()) ==> driver_ok(final(self).view()),
    {
        if arm_action {
            state.armed_action_generation = state.action_generation;
        }
        let seq: i64 = self.next_seq;
        self.next_seq = seq + 1;
        let bytes = request_bytes(seq, command, arguments);
        (seq, bytes)
    }

    /// The request was sent: its reply is waited for.
    pub fn call_sent(&mut self, seq: i64, command: &str)
        ensures
            final(self).view() == (DriverV {
                pending: old(self).view().pending.push(
                    CallV { seq: seq as int, command: command@ },
                ),
                ..old(self).view()
            }),
            final(self).decoder == old(self).decoder,
            driver_ok(old(self).view()) && 1 <= seq < old(self).next_seq && call_position(
                old(self).view().pending,
                seq as int,
                0,
            ) is None ==> driver_ok(final(self).view()),
    {
        let ghost before = self.view();
        self.pending.push(PendingCall { seq: seq, command: command.to_owned() });
        assert(self.view().pending =~= before.pending.push(
            CallV { seq: seq as int, command: command@ },
        ));
        proof {
            call_position_is_there(before.pending, seq as int, 0);
        }
    }

    /// The connection is gone: the requests in flight, none of which will be
    /// answered.
    pub fn drain_pending(&mut self) -> (r: Vec<PendingCall>)
        ensures
            call_views(r@) == old(self).view().pending,
            final(self).view() == (DriverV { pending: Seq::empty(), ..old(self).view() }),
            final(self).decoder == old(self).decoder,
    {
        let mut all: Vec<PendingCall> = Vec::new();
        std::mem::swap(&mut all, &mut self.pending);
        assert(self.view().pending =~= Seq::empty());
        all
    }

    fn position_of(&self, seq: i64) -> (r: Option<usize>)
        ensures
            match r {
                Some(k) => {
                    &&& k < self.pending@.len()
                    &&& call_position(self.view().pending, seq as int, 0) == Some(k as int)
                },
                None => call_position(self.view().pending, seq as int, 0) is None,
            },
    {
        let ghost s = self.view().pending;
        let mut i: usize = 0;
        while i < self.pending.len()
            invariant
                i <= self.pending@.len(),
                s == self.view().pending,
                call_position(s, seq as int, 0) == call_position(s, seq as int, i as int),
            decreases self.pending@.len() - i,
        {
            assert(s[i as int].seq == self.pending@[i as int].seq);
            if self.pending[i].seq == seq {
                return Some(i);
            }
            i = i + 1;
        }
        None
    }
}

proof fn call_position_is_there(pending: Seq<CallV>, seq: int, k: int)
    requires
        0 <= k,
    ensures
        match call_position(pending, seq, k) {
            Some(i) => k <= i < pending.len() && pending[i].seq == seq,
            None => forall|i: int| k <= i < pending.len() ==> (#[trigger] pending[i]).seq != seq,
        },
    decreases pending.len() - k,
{
    if k < pending.len() && pending[k].seq != seq {
        call_position_is_there(pending, seq, k + 1);
    }
}

// ---------------------------------------------------------------------------
// Messages
// ---------------------------------------------------------------------------

/// What is to be done about a message.
#[derive(Debug)]
pub enum Action {
    Nothing,
    /// Wake those who wait on the state.
    Wake,
    /// Hand the reply to the one who sent the request of that number.
    Reply { seq: i64, result: Result<Json, String> },
    /// Send the bytes, and hand the reply to `handle_stack_response`.
    FetchStack { seq: i64, bytes: Vec<u8>, stop_generation: u64 },
    /// The program wrote this.
    Output(String),
    /// Find out the identity of the launched process and record it.
    Identify(u32),
}

pub enum ActionV {
    Nothing,
    Wake,
    Reply { seq: int, result: Result<JsonV, Seq<char>> },
    FetchStack { seq: int, bytes: Seq<u8>, stop_generation: u64 },
    Output(Seq<char>),
    Identify(u32),
}

impl Action {
    pub open spec fn view(&self) -> ActionV {
        match self {
            Action::Nothing => ActionV::Nothing,
            Action::Wake => ActionV::Wake,
            Action::Reply { seq, result } => ActionV::Reply {
                seq: *seq as int,
                result: match result {
                    Ok(j) => Ok(j.view()),
                    Err(s) => Err(s@),
                },
            },
            Action::FetchStack { seq, bytes, stop_generation } => ActionV::FetchStack {
                seq: *seq as int,
                bytes: bytes@,
                stop_generation: *stop_generation,
            },
            Action::Output(s) => ActionV::Output(s@),
            Action::Identify(pid) => ActionV::Identify(*pid),
        }
    }
}

/// The pid in the body of a `process` event, as a number or as text.
pub open spec fn system_process_id(body: JsonV) -> Option<int> {
    let raw = json::field(body, "systemProcessId"@);
    match json::u64_of(raw) {
        Some(n) => if n <= u32::MAX {
            Some(n)
        } else {
            None
        },
        None => match json::str_of(raw) {
            Some(s) => text::parse_unsigned(s, u32::MAX as int),
            None => None,
        },
    }
}

/// The pid in the body of a `process` event, as a number or as text.
pub fn extract_system_process_id(body: &Json) -> (r: Option<u32>)
    ensures
        match r {
            Some(n) => system_process_id(body.view()) == Some(n as int),
            None => system_process_id(body.view()) is None,
        },
{
    if let Some(n) = body.get_u64("systemProcessId") {
        if n <= u32::MAX as u64 {
            return Some(n as u32);
        }
        return None;
    }
    if let Some(s) = body.get_str("systemProcessId") {
        let chars = chars_of(s);
        return match parse_bounded_chars(&chars, u32::MAX as u64) {
            Some(n) => Some(n as u32),
            None => None,
        };
    }
    None
}

pub open spec fn text_field(v: JsonV, key: Seq<char>, default: Seq<char>) -> Seq<char> {
    match json::str_of(json::field(v, key)) {
        Some(s) => s,
        None => default,
    }
}

/// The body of a message; nothing where it has none.
pub open spec fn body_of(message: JsonV) -> JsonV {
    match json::field(message, "body"@) {
        Some(b) => b,
        None => JsonV::Null,
    }
}

/// What a reply carries: the body of a success, or the adapter's message.
pub open spec fn reply_of(message: JsonV) -> Result<JsonV, Seq<char>> {
    if json::bool_of(json::field(message, "success"@)) == Some(true) {
        Ok(body_of(message))
    } else {
        Err(text_field(message, "message"@, "request failed"@))
    }
}

/// The state, the driver and the action that follow a message.
pub struct Dispatch {
    pub state: StateV,
    pub driver: DriverV,
    pub action: ActionV,
}

/// The highest thread that a stop was seen of, with one more stop.
pub open spec fn highest_thread(seen: Option<i64>, thread: Option<int>) -> Option<i64> {
    match (seen, thread) {
        (Some(a), Some(b)) => if b > a {
            Some(b as i64)
        } else {
            seen
        },
        (None, Some(b)) => Some(b as i64),
        (_, None) => seen,
    }
}

/// A stop: the frames are fetched where the thread is known; otherwise the
/// stop is announced at once, with nothing known of it. A thread that was
/// selected before is selected no longer.
pub open spec fn after_stopped(s: StateV, d: DriverV, body: JsonV) -> Dispatch {
    let g = next_generation(s.stop_generation);
    let thread = json::i64_of(json::field(body, "threadId"@));
    let highest = highest_thread(s.highest_stop, thread);
    let stopped = StateV {
        paused: true,
        current_thread: highest,
        highest_stop: highest,
        stop_generation: g,
        pending_hit: None,
        pending_action_generation: s.armed_action_generation,
        ..s
    };
    match thread {
        Some(id) => Dispatch {
            state: StateV { pending_is_unscoped: false, ..stopped },
            driver: DriverV {
                next_seq: d.next_seq + 1,
                pending: d.pending.push(CallV { seq: d.next_seq, command: "stackTrace"@ }),
            },
            action: ActionV::FetchStack {
                seq: d.next_seq,
                bytes: message_bytes(
                    request_value(d.next_seq, "stackTrace"@, stack_arguments(id)),
                ),
                stop_generation: g,
            },
        },
        None => Dispatch {
            state: StateV {
                pending_hit: Some(unknown_hit()),
                pending_is_unscoped: true,
                ..stopped
            },
            driver: d,
            action: ActionV::Wake,
        },
    }
}

/// What an event does.
pub open spec fn after_event(s: StateV, d: DriverV, name: Seq<char>, body: JsonV) -> Dispatch {
    if name == "initialized"@ {
        Dispatch {
            state: StateV { initialized: true, ..s },
            driver: d,
            action: ActionV::Wake,
        }
    } else if name == "stopped"@ {
        after_stopped(s, d, body)
    } else if name == "continued"@ {
        Dispatch {
            state: StateV { paused: false, call_frames: Seq::empty(), top_frame: None, ..s },
            driver: d,
            action: ActionV::Nothing,
        }
    } else if name == "output"@ {
        let category = text_field(body, "category"@, "console"@);
        Dispatch {
            state: s,
            driver: d,
            action: if category == "stdout"@ || category == "stderr"@ || category == "console"@ {
                ActionV::Output(text_field(body, "output"@, Seq::empty()))
            } else {
                ActionV::Nothing
            },
        }
    } else if name == "terminated"@ || name == "exited"@ {
        Dispatch {
            state: StateV { terminated: true, alive: false, ..s },
            driver: d,
            action: ActionV::Wake,
        }
    } else if name == "process"@ {
        Dispatch {
            state: s,
            driver: d,
            action: match system_process_id(body) {
                Some(pid) => ActionV::Identify(pid as u32),
                None => ActionV::Nothing,
            },
        }
    } else {
        Dispatch { state: s, driver: d, action: ActionV::Nothing }
    }
}

/// What a message does. A reply to a request that is not in flight is ignored.
pub open spec fn after_message(s: StateV, d: DriverV, message: JsonV) -> Dispatch {
    let kind = text_field(message, "type"@, Seq::empty());
    if kind == "response"@ {
        let seq = match json::i64_of(json::field(message, "request_seq"@)) {
            Some(n) => n,
            None => 0,
        };
        match call_position(d.pending, seq, 0) {
            Some(k) => Dispatch {
                state: s,
                driver: DriverV { pending: d.pending.remove(k), ..d },
                action: ActionV::Reply { seq: seq, result: reply_of(message) },
            },
            None => Dispatch { state: s, driver: d, action: ActionV::Nothing },
        }
    } else if kind == "event"@ {
        after_event(s, d, text_field(message, "event"@, Seq::empty()), body_of(message))
    } else {
        Dispatch { state: s, driver: d, action: ActionV::Nothing }
    }
}

fn text_or<'a>(v: &'a Json, key: &str, default: &'a str) -> (r: &'a str)
    ensures
        r@ == text_field(v.view(), key@, default@),
{
    match v.get_str(key) {
        Some(s) => s,
        None => default,
    }
}

fn copy_body(message: &Json) -> (r: Json)
    ensures
        r.view() == body_of(message.view()),
{
    match message.get("body") {
        Some(b) => b.copy(),
        None => Json::Null,
    }
}

impl Driver {
    fn dispatch_stopped(&mut self, state: &mut State, body: &Json) -> (action: Action)
        requires
            old(self).next_seq < i64::MAX,
        ensures
            after_stopped(old(state).view(), old(self).view(), body.view()) == (Dispatch {
                state: final(state).view(),
                driver: final(self).view(),
                action: action.view(),
            }),
            final(self).decoder == old(self).decoder,
    {
        let thread = body.get_i64("threadId");
        state.paused = true;
        state.highest_stop = match (state.highest_stop, thread) {
            (Some(a), Some(b)) => if b > a {
                thread
            } else {
                state.highest_stop
            },
            (None, Some(_)) => thread,
            (_, None) => state.highest_stop,
        };
        state.current_thread = state.highest_stop;
        state.stop_generation = if state.stop_generation == u64::MAX {
            0
        } else {
            state.stop_generation + 1
        };
        state.pending_hit = None;
        state.pending_action_generation = state.armed_action_generation;
        match thread {
            Some(id) => {
                state.pending_is_unscoped = false;
                let seq: i64 = self.next_seq;
                self.next_seq = seq + 1;
                proof {
                    stack_arguments_are_plain(id as int);
                }
                let bytes = request_bytes(seq, "stackTrace", stack_trace_arguments(id));
                self.call_sent(seq, "stackTrace");
                Action::FetchStack {
                    seq: seq,
                    bytes: bytes,
                    stop_generation: state.stop_generation,
                }
            },
            None => {
                state.pending_hit = Some(HitEvent::unknown());
                state.pending_is_unscoped = true;
                Action::Wake
            },
        }
    }

    fn dispatch_event(&mut self, state: &mut State, name: &str, body: &Json) -> (action: Action)
        requires
            old(self).next_seq < i64::MAX,
        ensures
            after_event(old(state).view(), old(self).view(), name@, body.view()) == (Dispatch {
                state: final(state).view(),
                driver: final(self).view(),
                action: action.view(),
            }),
            final(self).decoder == old(self).decoder,
    {
        if same_text(name, "initialized") {
            state.initialized = true;
            Action::Wake
        } else if same_text(name, "stopped") {
            self.dispatch_stopped(state, body)
        } else if same_text(name, "continued") {
            state.paused = false;
            state.call_frames = Vec::new();
            state.top_frame = None;
            Action::Nothing
        } else if same_text(name, "output") {
            let category = text_or(body, "category", "console");
            if same_text(category, "stdout") || same_text(category, "stderr") || same_text(
                category,
                "console",
            ) {
                let output: String = match body.get_str("output") {
                    Some(s) => s.to_owned(),
                    None => String::new(),
                };
                Action::Output(output)
            } else {
                Action::Nothing
            }
        } else if same_text(name, "terminated") || same_text(name, "exited") {
            state.terminated = true;
            state.alive = false;
            Action::Wake
        } else if same_text(name, "process") {
            match extract_system_process_id(body) {
                Some(pid) => Action::Identify(pid),
                None => Action::Nothing,
            }
        } else {
            Action::Nothing
        }
    }

    /// Takes in one message of the adapter.
    pub fn dispatch_incoming(&mut self, state: &mut State, message: &Json) -> (action: Action)
        requires
            old(self).next_seq < i64::MAX,
        ensures
            after_message(old(state).view(), old(self).view(), message.view()) == (Dispatch {
                state: final(state).view(),
                driver: final(self).view(),
                action: action.view(),
            }),
            final(self).decoder == old(self).decoder,
            driver_ok(old(self).view()) ==> driver_ok(final(self).view()),
    {
        let ghost d = self.view();
        let ghost s = state.view();
        proof {
            if driver_ok(d) {
                messages_keep_the_driver_in_order(s, d, message.view());
            }
        }
        let kind: String = match message.get_str("type") {
            Some(k) => k.to_owned(),
            None => String::new(),
        };
        if same_text(kind.as_str(), "response") {
            let seq: i64 = match message.get_i64("request_seq") {
                Some(n) => n,
                None => 0,
            };
            match self.position_of(seq) {
                Some(k) => {
                    self.pending.remove(k);
                    assert(self.view().pending =~= d.pending.remove(k as int));
                    let result: Result<Json, String> = if message.get_bool("success") == Some(
                        true,
                    ) {
                        Ok(copy_body(message))
                    } else {
                        Err(text_or(message, "message", "request failed").to_owned())
                    };
                    Action::Reply { seq: seq, result: result }
                },
                None => Action::Nothing,
            }
        } else if same_text(kind.as_str(), "event") {
            let name: String = match message.get_str("event") {
                Some(n) => n.to_owned(),
                None => String::new(),
            };
            let body = copy_body(message);
            self.dispatch_event(state, name.as_str(), &body)
        } else {
            Action::Nothing
        }
    }
}

/// What one look at the inbox yields.
#[derive(Debug)]
pub enum Incoming {
    /// No complete message has arrived.
    NeedMore,
    /// Bytes were dropped: they made no message.
    Dropped,
    Message(Action),
}

/// What one look at the inbox yields, given the state, the driver and what the
/// frame reader finds.
pub open spec fn after_frame(
    s: StateV,
    d: DriverV,
    step: Result<Option<Seq<u8>>, dap_frame::FrameError>,
) -> Option<Dispatch> {
    match step {
        Ok(Some(body)) => match json::parsed_json(body) {
            Some(message) => Some(after_message(s, d, message)),
            None => None,
        },
        _ => None,
    }
}

impl Driver {
    /// Adds bytes that have arrived.
    pub fn receive(&mut self, bytes: &[u8])
        ensures
            final(self).decoder.inbox@ == old(self).decoder.inbox@ + bytes@,
            final(self).decoder.resync_oversized == old(self).decoder.resync_oversized,
            final(self).view() == old(self).view(),
    {
        let mut i: usize = 0;
        while i < bytes.len()
            invariant
                i <= bytes@.len(),
                self.decoder.inbox@ == old(self).decoder.inbox@ + bytes@.take(i as int),
                self.decoder.resync_oversized == old(self).decoder.resync_oversized,
                self.view() == old(self).view(),
            decreases bytes@.len() - i,
        {
            self.decoder.inbox.push(bytes[i]);
            i = i + 1;
            assert(bytes@.take(i as int) =~= bytes@.take(i - 1).push(bytes@[i - 1]));
        }
        assert(bytes@.take(bytes@.len() as int) =~= bytes@);
    }

    /// Takes the next message out of the inbox and handles it.
    pub fn next_message(&mut self, state: &mut State) -> (r: Incoming)
        requires
            old(self).next_seq < i64::MAX,
        ensures
            ({
                let step = dap_frame::frame_step(
                    old(self).decoder.inbox@,
                    old(self).decoder.resync_oversized,
                );
                let after = after_frame(old(state).view(), old(self).view(), step.result);
                &&& final(self).decoder.inbox@ == step.rest
                &&& final(self).decoder.resync_oversized == step.resync
                &&& match r {
                    Incoming::NeedMore => {
                        &&& step.result == Ok::<Option<Seq<u8>>, dap_frame::FrameError>(None)
                        &&& final(state).view() == old(state).view()
                        &&& final(self).view() == old(self).view()
                    },
                    Incoming::Dropped => {
                        &&& step.result != Ok::<Option<Seq<u8>>, dap_frame::FrameError>(None)
                        &&& after is None
                        &&& final(state).view() == old(state).view()
                        &&& final(self).view() == old(self).view()
                    },
                    Incoming::Message(action) => after == Some(
                        (Dispatch {
                            state: final(state).view(),
                            driver: final(self).view(),
                            action: action.view(),
                        }),
                    ),
                }
            }),
            driver_ok(old(self).view()) ==> driver_ok(final(self).view()),
    {
        match self.decoder.next_frame() {
            Ok(Some(body)) => match parse_json(&body) {
                Some(message) => Incoming::Message(self.dispatch_incoming(state, &message)),
                None => Incoming::Dropped,
            },
            Ok(None) => Incoming::NeedMore,
            Err(_) => Incoming::Dropped,
        }
    }
}

// ---------------------------------------------------------------------------
// Laws
// ---------------------------------------------------------------------------

/// Whatever message arrives, each request in flight keeps a number of its own.
pub proof fn messages_keep_the_driver_in_order(s: StateV, d: DriverV, message: JsonV)
    requires
        driver_ok(d),
    ensures
        driver_ok(after_message(s, d, message).driver),
{
    let e = after_message(s, d, message).driver;
    let kind = text_field(message, "type"@, Seq::empty());
    if kind == "response"@ {
        let seq = match json::i64_of(json::field(message, "request_seq"@)) {
            Some(n) => n,
            None => 0,
        };
        if let Some(k) = call_position(d.pending, seq, 0) {
            call_position_is_there(d.pending, seq, 0);
            assert forall|i: int| 0 <= i < e.pending.len() implies #[trigger] e.pending[i]
                == d.pending[if i < k {
                i
            } else {
                i + 1
            }] by {}
        }
    }
}

/// No message answers a request twice: once a reply was handed out, a second
/// one to the same request is ignored.
pub proof fn a_request_is_answered_once(s: StateV, d: DriverV, first: JsonV, s2: StateV, again: JsonV)
    requires
        driver_ok(d),
        after_message(s, d, first).action is Reply,
        text_field(again, "type"@, Seq::empty()) == "response"@,
        json::i64_of(json::field(again, "request_seq"@)) == json::i64_of(
            json::field(first, "request_seq"@),
        ),
    ensures
        after_message(s2, after_message(s, d, first).driver, again).action is Nothing,
{
    let kind = text_field(first, "type"@, Seq::empty());
    let name = text_field(first, "event"@, Seq::empty());
    if kind == "response"@ {
        let seq = match json::i64_of(json::field(first, "request_seq"@)) {
            Some(n) => n,
            None => 0,
        };
        let e = after_message(s, d, first).driver;
        call_position_is_there(d.pending, seq, 0);
        let k = call_position(d.pending, seq, 0)->0;
        call_position_is_there(e.pending, seq, 0);
        if let Some(i) = call_position(e.pending, seq, 0) {
            assert(e.pending[i] == d.pending[if i < k {
                i
            } else {
                i + 1
            }]);
        }
    }
}

/// The frames of a stop are recorded once: when they were, and the stop was
/// taken, the same reply again changes nothing.
pub proof fn a_taken_stop_stays_taken(s: StateV, body: JsonV, again: JsonV, stop: u64)
    requires
        after_stack(s, body, stop) != s,
    ensures
        ({
            let taken = StateV { pending_hit: None, ..after_stack(s, body, stop) };
            after_stack(taken, again, stop) == taken
        }),
{
}

/// Frames that arrive after the next execution was asked for change nothing.
pub proof fn frames_of_an_earlier_execution_are_ignored(s: StateV, body: JsonV, stop: u64)
    requires
        s.pending_action_generation == s.action_generation,
    ensures
        ({
            let resumed = StateV {
                action_generation: next_generation(s.action_generation),
                ..s
            };
            after_stack(resumed, body, stop) == resumed
        }),
{
}

/// A stop belongs to the execution request that was armed when it arrived, not
/// to one that was only numbered.
pub proof fn a_stop_belongs_to_the_armed_request(s: StateV, d: DriverV, body: JsonV)
    ensures
        after_stopped(s, d, body).state.pending_action_generation == s.armed_action_generation,
        after_stopped(s, d, body).state.action_generation == s.action_generation,
        after_stopped(s, d, body).state.paused,
{
}

/// Bytes that carry a message deliver it, whatever follows them: the frame is
/// taken out whole, and its body reads as the message.
pub proof fn a_carried_message_arrives(
    bytes: Seq<u8>,
    message: JsonV,
    rest: Seq<u8>,
    resync: bool,
)
    requires
        carries(bytes, message),
        vstd::utf8::encode_utf8(json::json_text_of(message)).len()
            <= dap_frame::MAX_DAP_FRAME_BYTES,
    ensures
        ({
            let step = dap_frame::frame_step(bytes + rest, resync);
            &&& step.rest == rest
            &&& !step.resync
            &&& step.result matches Ok(Some(body)) && json::parsed_json(body) == Some(message)
        }),
{
    let body = vstd::utf8::encode_utf8(json::json_text_of(message));
    dap_frame::frame_read_back(body, rest, resync);
}

/// No message lowers the highest thread that a stop was seen of.
pub proof fn messages_never_lower_the_highest_stop(s: StateV, d: DriverV, message: JsonV)
    requires
        s.highest_stop is Some,
    ensures
        after_message(s, d, message).state.highest_stop is Some,
        after_message(s, d, message).state.highest_stop->0 >= s.highest_stop->0,
{
}

/// A thread that was selected before a stop has no part in what the stop does:
/// requests go to the highest thread that stopped.
pub proof fn a_stop_ends_a_selection(s: StateV, d: DriverV, body: JsonV, selected: Option<i64>)
    ensures
        after_stopped(StateV { current_thread: selected, ..s }, d, body) == after_stopped(
            s,
            d,
            body,
        ),
        after_stopped(s, d, body).state.current_thread == after_stopped(
            s,
            d,
            body,
        ).state.highest_stop,
{
}

/// No message touches the breakpoints.
pub proof fn messages_leave_breakpoints_alone(s: StateV, d: DriverV, message: JsonV)
    ensures
        after_message(s, d, message).state.breakpoints == s.breakpoints,
{
}

/// The stop that is recorded is the one at the innermost frame: it is at the
/// frame's own line of the frame's own file, under the frame's own name, and
/// all frames of the reply are kept in their order.
pub proof fn a_stop_is_where_its_innermost_frame_stands(
    s: StateV,
    reply: Map<Seq<char>, JsonV>,
    frames: Seq<JsonV>,
    frame: Map<Seq<char>, JsonV>,
    source: Map<Seq<char>, JsonV>,
    name: Seq<char>,
    path: Seq<char>,
    line: u32,
)
    requires
        s.pending_action_generation == s.action_generation,
        s.enriched_stop_generation != s.stop_generation,
        reply.contains_pair("stackFrames"@, JsonV::Array(frames)),
        frames.len() > 0,
        frames[0] == JsonV::Object(frame),
        frame.contains_pair("name"@, JsonV::Str(name)),
        frame.contains_pair("line"@, JsonV::Int(line as int)),
        frame.contains_pair("source"@, JsonV::Object(source)),
        source.contains_pair("path"@, JsonV::Str(path)),
        path.len() > 0,
    ensures
        ({
            let after = after_stack(s, JsonV::Object(reply), s.stop_generation);
            &&& after.pending_hit == Some(
                HitV {
                    location_key: path + ":"@ + text::decimal(line as nat),
                    thread: None,
                    frame_symbol: Some(name),
                    file: Some(path),
                    line: Some(line),
                },
            )
            &&& after.call_frames == frames
            &&& after.top_frame == Some(frames[0])
        }),
{
}

/// Of a frame only its name, its source and its line make the stop: whatever
/// else it holds changes nothing.
pub proof fn other_fields_of_a_frame_do_not_count(
    a: Map<Seq<char>, JsonV>,
    b: Map<Seq<char>, JsonV>,
)
    requires
        forall|k: Seq<char>|
            k == "name"@ || k == "source"@ || k == "line"@ ==> a.dom().contains(k)
                == #[trigger] b.dom().contains(k) && a[k] == b[k],
    ensures
        hit_at(JsonV::Object(a)) == hit_at(JsonV::Object(b)),
{
    assert(a.dom().contains("name"@) == b.dom().contains("name"@));
    assert(a.dom().contains("source"@) == b.dom().contains("source"@));
    assert(a.dom().contains("line"@) == b.dom().contains("line"@));
}

/// A frame without a source still tells its line.
pub proof fn a_frame_without_a_source_has_a_line(frame: Map<Seq<char>, JsonV>, line: u32)
    requires
        frame.contains_pair("line"@, JsonV::Int(line as int)),
        !frame.dom().contains("source"@),
    ensures
        hit_at(JsonV::Object(frame)).file is None,
        hit_at(JsonV::Object(frame)).line == Some(line),
        hit_at(JsonV::Object(frame)).location_key == "?:"@ + text::decimal(line as nat),
{
}

/// A reply goes to the one who made the request that it answers, with the body
/// where the request succeeded and the adapter's message where it did not; the
/// request is then no longer in flight, and the others are.
pub proof fn a_reply_goes_to_its_request(
    s: StateV,
    d: DriverV,
    message: Map<Seq<char>, JsonV>,
    k: int,
    success: bool,
    body: JsonV,
    error: Seq<char>,
)
    requires
        driver_ok(d),
        0 <= k < d.pending.len(),
        d.pending[k].seq <= i64::MAX,
        message.contains_pair("type"@, JsonV::Str("response"@)),
        message.contains_pair("request_seq"@, JsonV::Int(d.pending[k].seq)),
        message.contains_pair("success"@, JsonV::Bool(success)),
        message.contains_pair("body"@, body),
        message.contains_pair("message"@, JsonV::Str(error)),
    ensures
        ({
            let after = after_message(s, d, JsonV::Object(message));
            &&& after.state == s
            &&& after.driver == (DriverV { pending: d.pending.remove(k), ..d })
            &&& after.action == (ActionV::Reply {
                seq: d.pending[k].seq,
                result: if success {
                    Ok(body)
                } else {
                    Err(error)
                },
            })
        }),
{
    let seq = d.pending[k].seq;
    call_position_is_there(d.pending, seq, 0);
    assert(d.pending[k].seq == seq);
    let i = call_position(d.pending, seq, 0)->0;
    if i != k {
        assert(d.pending[i].seq == d.pending[k].seq);
    }
}

/// An event message, with what it carries.
pub open spec fn is_event(message: Map<Seq<char>, JsonV>, name: Seq<char>, body: JsonV) -> bool {
    &&& message.contains_pair("type"@, JsonV::Str("event"@))
    &&& message.contains_pair("event"@, JsonV::Str(name))
    &&& message.contains_pair("body"@, body)
}

proof fn events_differ()
    ensures
        "response"@ != "event"@,
        "stopped"@ != "initialized"@,
        "continued"@ != "initialized"@,
        "continued"@ != "stopped"@,
        "output"@ != "initialized"@,
        "output"@ != "stopped"@,
        "output"@ != "continued"@,
        "terminated"@ != "initialized"@,
        "terminated"@ != "stopped"@,
        "terminated"@ != "continued"@,
        "terminated"@ != "output"@,
        "exited"@ != "initialized"@,
        "exited"@ != "stopped"@,
        "exited"@ != "continued"@,
        "exited"@ != "output"@,
        "process"@ != "initialized"@,
        "process"@ != "stopped"@,
        "process"@ != "continued"@,
        "process"@ != "output"@,
        "process"@ != "terminated"@,
        "process"@ != "exited"@,
{
    reveal_strlit("response");
    reveal_strlit("event");
    reveal_strlit("stopped");
    reveal_strlit("initialized");
    reveal_strlit("continued");
    reveal_strlit("output");
    reveal_strlit("terminated");
    reveal_strlit("exited");
    reveal_strlit("process");
    assert("response"@.len() == 8 && "event"@.len() == 5);
    assert("stopped"@[0] == 's' && "initialized"@[0] == 'i' && "continued"@[0] == 'c');
    assert("output"@[0] == 'o' && "terminated"@[0] == 't' && "exited"@[0] == 'e');
    assert("process"@[0] == 'p');
}

/// A stop of a thread pauses the session and asks for that thread's frames, from
/// the innermost on; the reply to that request will tell where the program is.
pub proof fn a_stop_asks_for_the_frames_of_its_thread(
    s: StateV,
    d: DriverV,
    message: Map<Seq<char>, JsonV>,
    body: Map<Seq<char>, JsonV>,
    thread: i64,
)
    requires
        is_event(message, "stopped"@, JsonV::Object(body)),
        body.contains_pair("threadId"@, JsonV::Int(thread as int)),
    ensures
        ({
            let after = after_message(s, d, JsonV::Object(message));
            &&& after.state.paused
            &&& after.state.pending_hit is None
            &&& !after.state.pending_is_unscoped
            &&& after.state.stop_generation == next_generation(s.stop_generation)
            &&& s.highest_stop is None ==> after.state.current_thread == Some(thread)
            &&& s.highest_stop matches Some(h) ==> after.state.current_thread == Some(
                if thread > h {
                    thread
                } else {
                    h
                },
            )
            &&& after.driver.next_seq == d.next_seq + 1
            &&& after.driver.pending == d.pending.push(
                CallV { seq: d.next_seq, command: "stackTrace"@ },
            )
            &&& after.action == (ActionV::FetchStack {
                seq: d.next_seq,
                bytes: message_bytes(
                    JsonV::Object(
                        map![
                            "seq"@ => JsonV::Int(d.next_seq),
                            "type"@ => JsonV::Str("request"@),
                            "command"@ => JsonV::Str("stackTrace"@),
                            "arguments"@ => JsonV::Object(
                                map![
                                    "threadId"@ => JsonV::Int(thread as int),
                                    "startFrame"@ => JsonV::Int(0),
                                    "levels"@ => JsonV::Int(20),
                                ],
                            ),
                        ],
                    ),
                ),
                stop_generation: after.state.stop_generation,
            })
        }),
{
    events_differ();
}

/// A stop without a thread is announced at once, as one of which nothing is
/// known.
pub proof fn a_stop_without_a_thread_is_announced(
    s: StateV,
    d: DriverV,
    message: Map<Seq<char>, JsonV>,
    body: Map<Seq<char>, JsonV>,
)
    requires
        is_event(message, "stopped"@, JsonV::Object(body)),
        !body.dom().contains("threadId"@),
    ensures
        ({
            let after = after_message(s, d, JsonV::Object(message));
            &&& after.state.paused
            &&& after.state.pending_hit == Some(unknown_hit())
            &&& after.state.pending_is_unscoped
            &&& after.driver == d
            &&& after.action is Wake
        }),
{
    events_differ();
}

/// What the program writes is handed on as it is, and nothing else is: what an
/// adapter writes for itself is not the program's.
pub proof fn the_programs_output_is_handed_on(
    s: StateV,
    d: DriverV,
    message: Map<Seq<char>, JsonV>,
    body: Map<Seq<char>, JsonV>,
    category: Seq<char>,
    written: Seq<char>,
)
    requires
        is_event(message, "output"@, JsonV::Object(body)),
        body.contains_pair("category"@, JsonV::Str(category)),
        body.contains_pair("output"@, JsonV::Str(written)),
    ensures
        ({
            let after = after_message(s, d, JsonV::Object(message));
            &&& after.state == s
            &&& after.driver == d
            &&& category == "stdout"@ || category == "stderr"@ || category == "console"@
                ==> after.action == ActionV::Output(written)
            &&& category == "telemetry"@ || category == "important"@ ==> after.action is Nothing
        }),
{
    events_differ();
    reveal_strlit("stdout");
    reveal_strlit("stderr");
    reveal_strlit("console");
    reveal_strlit("telemetry");
    reveal_strlit("important");
    assert("telemetry"@.len() == 9 && "important"@.len() == 9);
    assert("stdout"@.len() == 6 && "stderr"@.len() == 6 && "console"@.len() == 7);
}

/// The other events do what their names say: the session is initialized, the
/// program runs again and its frames are forgotten, the program is over, or the
/// process that was launched is known.
pub proof fn events_do_what_their_names_say(
    s: StateV,
    d: DriverV,
    message: Map<Seq<char>, JsonV>,
    body: Map<Seq<char>, JsonV>,
    pid: u32,
)
    requires
        body.contains_pair("systemProcessId"@, JsonV::Int(pid as int)) || body.contains_pair(
            "systemProcessId"@,
            JsonV::Str(text::decimal(pid as nat)),
        ),
    ensures
        ({
            let after = after_message(s, d, JsonV::Object(message));
            &&& is_event(message, "initialized"@, JsonV::Object(body)) ==> after.state == (StateV {
                initialized: true,
                ..s
            }) && after.action is Wake
            &&& is_event(message, "continued"@, JsonV::Object(body)) ==> after.state == (StateV {
                paused: false,
                call_frames: Seq::empty(),
                top_frame: None,
                ..s
            })
            &&& is_event(message, "terminated"@, JsonV::Object(body)) || is_event(
                message,
                "exited"@,
                JsonV::Object(body),
            ) ==> after.state == (StateV { terminated: true, alive: false, ..s })
                && after.action is Wake
            &&& is_event(message, "process"@, JsonV::Object(body)) ==> after.state == s
                && after.action == ActionV::Identify(pid)
        }),
{
    events_differ();
    text::parse_of_decimal(pid as nat, u32::MAX as int);
}

/// A message that is neither a reply nor an event does nothing.
pub proof fn other_messages_do_nothing(
    s: StateV,
    d: DriverV,
    message: Map<Seq<char>, JsonV>,
    kind: Seq<char>,
)
    requires
        message.contains_pair("type"@, JsonV::Str(kind)),
        kind != "response"@,
        kind != "event"@,
    ensures
        ({
            let after = after_message(s, d, JsonV::Object(message));
            after.state == s && after.driver == d && after.action is Nothing
        }),
{
}

/// A request says what it is: its number, its command and its arguments stand in
/// the fields of the protocol.
pub proof fn a_request_says_what_it_is(seq: int, command: Seq<char>, arguments: JsonV)
    ensures
        ({
            let m = request_value(seq, command, arguments)->Object_0;
            &&& m.contains_pair("seq"@, JsonV::Int(seq))
            &&& m.contains_pair("type"@, JsonV::Str("request"@))
            &&& m.contains_pair("command"@, JsonV::Str(command))
            &&& m.contains_pair("arguments"@, arguments)
        }),
{
    reveal_strlit("seq");
    reveal_strlit("type");
    reveal_strlit("command");
    reveal_strlit("arguments");
    assert("seq"@.len() == 3 && "type"@.len() == 4 && "command"@.len() == 7);
    assert("arguments"@.len() == 9);
}

/// A restart forgets where the program stood and which process it was, and
/// begins a new execution that no stop from before belongs to; the breakpoints
/// stay.
pub proof fn a_restart_begins_anew(s: StateV)
    ensures
        ({
            let r = restarting(s);
            &&& !r.paused
            &&& r.top_frame is None
            &&& r.call_frames.len() == 0
            &&& r.pending_hit is None
            &&& r.launched_pid is None
            &&& r.launched_identity is None
            &&& r.breakpoints == s.breakpoints
            &&& r.action_generation != s.action_generation
            &&& r.armed_action_generation == r.action_generation
            &&& r.pending_action_generation == r.action_generation
        }),
{
}

/// A source with an empty path is as good as none; a frame without a name is
/// shown as unknown, and one without a line is at line zero.
pub proof fn what_a_frame_lacks_is_shown_as_unknown(
    frame: Map<Seq<char>, JsonV>,
    source: Map<Seq<char>, JsonV>,
    line: u32,
)
    requires
        frame.contains_pair("source"@, JsonV::Object(source)),
    ensures
        source.contains_pair("path"@, JsonV::Str(Seq::empty())) && frame.contains_pair(
            "line"@,
            JsonV::Int(line as int),
        ) ==> hit_at(JsonV::Object(frame)).file is None && hit_at(
            JsonV::Object(frame),
        ).location_key == "?:"@ + text::decimal(line as nat) && hit_at(JsonV::Object(frame)).line
            == Some(line),
        !frame.dom().contains("name"@) ==> hit_at(JsonV::Object(frame)).frame_symbol == Some("?"@),
        !frame.dom().contains("line"@) ==> hit_at(JsonV::Object(frame)).line == Some(0u32),
{
}

} // verus!
