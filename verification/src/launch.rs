//! Starting a debug adapter: the address it announces, whether an attach can
//! succeed, and the handshake.

use vstd::prelude::*;

use crate::json::{put, put_str, Json, JsonV};
use crate::session::State;
use crate::text;
use crate::text::{
    chars_of, cut, decimal_chars, extend_chars, extend_str, find_chars, lower_ascii,
    parse_bounded_chars, parse_i64_chars, rfind_chars, signed_decimal_chars, starts_with_chars,
    string_of, trim_chars, words_of,
};

verus! {

// ---------------------------------------------------------------------------
// The announced address
// ---------------------------------------------------------------------------

/// The text that bytes stand for when each malformed part is replaced.
pub uninterp spec fn lossy_text(bytes: Seq<u8>) -> Seq<char>;

/// `String::from_utf8_lossy` decodes bytes as UTF-8 and puts a replacement
/// character where they are malformed. Valid UTF-8 is decoded as it is.
#[verifier::external_body]
fn decode_lossy(bytes: &[u8]) -> (r: String)
    ensures
        r@ == lossy_text(bytes@),
        vstd::utf8::valid_utf8(bytes@) ==> r@ == vstd::utf8::decode_utf8(bytes@),
{
    String::from_utf8_lossy(bytes).to_string()
}

/// The first position at or after `i` that holds no decimal digit, or the end.
pub open spec fn skip_digits(s: Seq<char>, i: int) -> int
    decreases s.len() - i,
{
    if 0 <= i < s.len() && text::is_digit(s[i]) {
        skip_digits(s, i + 1)
    } else {
        i
    }
}

/// `host:port`, where the text after the colon begins with a port number.
pub open spec fn host_port(host: Seq<char>, after_colon: Seq<char>) -> Option<Seq<char>> {
    let digits = after_colon.take(skip_digits(after_colon, 0));
    if digits.len() > 0 && text::parse_unsigned(digits, u16::MAX as int) is Some {
        Some(host + ":"@ + digits)
    } else {
        None
    }
}

/// The address in one word: a scheme before it is dropped, and so are square
/// brackets round the host.
pub open spec fn address_in_word(word: Seq<char>) -> Option<Seq<char>> {
    let t = match text::find(word, "://"@) {
        Some(i) => word.skip(i + 3),
        None => word,
    };
    if text::starts_with(t, "["@) && text::find(t, "]"@) is Some {
        let close = text::find(t, "]"@)->0;
        let after = t.skip(close + 1);
        if text::starts_with(after, ":"@) {
            host_port(t.subrange(1, close), after.skip(1))
        } else {
            None
        }
    } else {
        match text::rfind(t, ":"@) {
            Some(colon) => if colon > 0 {
                host_port(t.take(colon), t.skip(colon + 1))
            } else {
                None
            },
            None => None,
        }
    }
}

/// The address in the first word that holds one, from word `k` on.
pub open spec fn address_in_words(words: Seq<Seq<char>>, k: int) -> Option<Seq<char>>
    decreases words.len() - k,
{
    if k < 0 || k >= words.len() {
        None
    } else {
        match address_in_word(words[k]) {
            Some(a) => Some(a),
            None => address_in_words(words, k + 1),
        }
    }
}

/// The address in a line.
pub open spec fn address_in_line(line: Seq<char>) -> Option<Seq<char>> {
    address_in_words(text::words(line), 0)
}

fn join_host_port(host: &Vec<char>, after_colon: &Vec<char>) -> (r: Option<Vec<char>>)
    ensures
        match r {
            Some(v) => host_port(host@, after_colon@) == Some(v@),
            None => host_port(host@, after_colon@) is None,
        },
{
    let mut n: usize = 0;
    while n < after_colon.len() && '0' <= after_colon[n] && after_colon[n] <= '9'
        invariant
            n <= after_colon@.len(),
            skip_digits(after_colon@, 0) == skip_digits(after_colon@, n as int),
        decreases after_colon@.len() - n,
    {
        n = n + 1;
    }
    let digits = cut(after_colon, 0, n);
    assert(digits@ =~= after_colon@.take(n as int));
    if digits.len() == 0 {
        return None;
    }
    match parse_bounded_chars(&digits, u16::MAX as u64) {
        Some(_) => {
            let mut out: Vec<char> = Vec::new();
            extend_chars(&mut out, host);
            extend_str(&mut out, ":");
            extend_chars(&mut out, &digits);
            assert(out@ =~= host@ + ":"@ + digits@);
            Some(out)
        },
        None => None,
    }
}

fn word_address(word: &Vec<char>) -> (r: Option<Vec<char>>)
    ensures
        match r {
            Some(v) => address_in_word(word@) == Some(v@),
            None => address_in_word(word@) is None,
        },
{
    proof {
        reveal_strlit("://");
        reveal_strlit("[");
        reveal_strlit("]");
        reveal_strlit(":");
    }
    let scheme = chars_of("://");
    let open = chars_of("[");
    let close = chars_of("]");
    let colon = chars_of(":");
    let t: Vec<char> = match find_chars(word, &scheme, 0) {
        Some(i) => cut(word, i + 3, word.len()),
        None => cut(word, 0, word.len()),
    };
    proof {
        let want = match text::find(word@, "://"@) {
            Some(i) => word@.skip(i + 3),
            None => word@,
        };
        assert(t@ =~= want);
    }
    if starts_with_chars(&t, &open) {
        if let Some(end) = find_chars(&t, &close, 0) {
            proof {
                text::find_from_is_first(t@, "]"@, 0);
                assert(t@.subrange(0, 1)[0] == '[');
                assert(t@.subrange(end as int, end + 1)[0] == ']');
            }
            let host = cut(&t, 1, end);
            let after = cut(&t, end + 1, t.len());
            assert(after@ =~= t@.skip(end + 1));
            if starts_with_chars(&after, &colon) {
                let port = cut(&after, 1, after.len());
                assert(port@ =~= after@.skip(1));
                return join_host_port(&host, &port);
            }
            return None;
        }
    }
    match rfind_chars(&t, &colon) {
        Some(i) => {
            if i == 0 {
                return None;
            }
            let host = cut(&t, 0, i);
            let port = cut(&t, i + 1, t.len());
            assert(host@ =~= t@.take(i as int));
            assert(port@ =~= t@.skip(i + 1));
            join_host_port(&host, &port)
        },
        None => None,
    }
}

/// The address in a line that an adapter printed: `127.0.0.1:34407` out of
/// `DAP server listening at: 127.0.0.1:34407` or of
/// `Listening for: connection://[127.0.0.1]:34407`.
pub fn extract_host_port(line: &str) -> (r: Option<String>)
    ensures
        match r {
            Some(s) => address_in_line(line@) == Some(s@),
            None => address_in_line(line@) is None,
        },
{
    let chars = chars_of(line);
    let words = words_of(&chars);
    let ghost ws = text::words(line@);
    let mut k: usize = 0;
    while k < words.len()
        invariant
            k <= words@.len(),
            ws == text::words(line@),
            text::pieces(words@) == ws,
            address_in_line(line@) == address_in_words(ws, k as int),
        decreases words@.len() - k,
    {
        assert(ws[k as int] == words@[k as int]@);
        if let Some(a) = word_address(&words[k]) {
            return Some(string_of(&a));
        }
        k = k + 1;
    }
    None
}

/// What the complete lines in `buf` announce: the address in the first line
/// with the marker that holds one, and the bytes after the lines looked at.
pub open spec fn announced_address(buf: Seq<u8>, marker: Seq<char>) -> (
    Option<Seq<char>>,
    Seq<u8>,
)
    decreases buf.len(),
{
    match text::find(buf, seq![10u8]) {
        Some(i) => if 0 <= i < buf.len() {
            let line = lossy_text(buf.take(i));
            let rest = buf.skip(i + 1);
            if text::contains(line, marker) && address_in_line(line) is Some {
                (address_in_line(line), rest)
            } else {
                announced_address(rest, marker)
            }
        } else {
            (None, buf)
        },
        None => (None, buf),
    }
}

fn find_newline(buf: &Vec<u8>) -> (r: Option<usize>)
    ensures
        match r {
            Some(i) => {
                &&& text::find(buf@, seq![10u8]) == Some(i as int)
                &&& i < buf@.len()
                &&& i < usize::MAX
            },
            None => text::find(buf@, seq![10u8]) is None,
        },
{
    let ghost nl = seq![10u8];
    let mut i: usize = 0;
    while i < buf.len()
        invariant
            i <= buf@.len(),
            nl == seq![10u8],
            text::find(buf@, nl) == text::find_from(buf@, nl, i as int),
        decreases buf@.len() - i,
    {
        assert(buf@.subrange(i as int, i + 1) =~= seq![buf@[i as int]]);
        if buf[i] == 10 {
            return Some(i);
        }
        assert(!text::occurs_at(buf@, nl, i as int)) by {
            assert(buf@.subrange(i as int, i + 1)[0] != nl[0]);
        }
        i = i + 1;
    }
    None
}

/// Takes complete lines out of `buf` until one with the marker holds an
/// address.
pub fn scan_for_marker(buf: &mut Vec<u8>, marker: &str) -> (r: Option<String>)
    ensures
        final(buf)@ == announced_address(old(buf)@, marker@).1,
        match r {
            Some(s) => announced_address(old(buf)@, marker@).0 == Some(s@),
            None => announced_address(old(buf)@, marker@).0 is None,
        },
{
    let marker_chars = chars_of(marker);
    loop
        invariant
            marker_chars@ == marker@,
            announced_address(old(buf)@, marker@) == announced_address(buf@, marker@),
        decreases buf@.len(),
    {
        match find_newline(buf) {
            Some(i) => {
                let ghost before = buf@;
                let rest = buf.split_off(i + 1);
                let line_bytes: &[u8] = vstd::slice::slice_subrange(buf.as_slice(), 0, i);
                assert(line_bytes@ =~= before.take(i as int));
                let line = decode_lossy(line_bytes);
                *buf = rest;
                assert(buf@ =~= before.skip(i + 1));
                let line_chars = chars_of(line.as_str());
                if find_chars(&line_chars, &marker_chars, 0).is_some() {
                    if let Some(address) = extract_host_port(line.as_str()) {
                        return Some(address);
                    }
                }
            },
            None => {
                return None;
            },
        }
    }
}

// ---------------------------------------------------------------------------
// Attaching
// ---------------------------------------------------------------------------

/// Why an attach cannot succeed.
#[derive(Clone, Copy, Debug, PartialEq, Eq, Structural)]
pub enum AttachRefusal {
    NoSuchProcess(u32),
    /// The kernel lets only the parent of a process trace it.
    Restricted { pid: u32, ptrace_scope: i32 },
}

/// The message that is shown for a refusal.
pub open spec fn refusal_text(e: AttachRefusal) -> Seq<char> {
    match e {
        AttachRefusal::NoSuchProcess(pid) => "no process with pid "@ + text::decimal(pid as nat)
            + " (or /proc not mounted). Verify the PID is correct and still running."@,
        AttachRefusal::Restricted { pid, ptrace_scope } => "cannot attach to pid "@
            + text::decimal(pid as nat) + ": kernel.yama.ptrace_scope = "@ + text::signed_decimal(
            ptrace_scope as int,
        ) + " restricts ptrace to the target's parent process, and dbg's daemon is not the parent. Fix one of:\n  - relaunch the target through `dbg start <type> <target> --args ...` (preferred — daemon becomes parent, no kernel changes)\n  - `sudo sysctl kernel.yama.ptrace_scope=0` for the duration of this session\n  - have the target call prctl(PR_SET_PTRACER, <dbg-daemon-pid>) before you attach"@,
    }
}

impl AttachRefusal {
    /// The message that is shown for the refusal.
    pub fn message(&self) -> (r: String)
        ensures
            r@ == refusal_text(*self),
    {
        match self {
            AttachRefusal::NoSuchProcess(pid) => {
                let mut out = chars_of("no process with pid ");
                let d = decimal_chars(*pid as u64);
                extend_chars(&mut out, &d);
                extend_str(
                    &mut out,
                    " (or /proc not mounted). Verify the PID is correct and still running.",
                );
                string_of(&out)
            },
            AttachRefusal::Restricted { pid, ptrace_scope } => {
                let mut out = chars_of("cannot attach to pid ");
                let d = decimal_chars(*pid as u64);
                extend_chars(&mut out, &d);
                extend_str(&mut out, ": kernel.yama.ptrace_scope = ");
                let n = signed_decimal_chars(*ptrace_scope as i64);
                extend_chars(&mut out, &n);
                extend_str(
                    &mut out,
                    " restricts ptrace to the target's parent process, and dbg's daemon is not the parent. Fix one of:\n  - relaunch the target through `dbg start <type> <target> --args ...` (preferred — daemon becomes parent, no kernel changes)\n  - `sudo sysctl kernel.yama.ptrace_scope=0` for the duration of this session\n  - have the target call prctl(PR_SET_PTRACER, <dbg-daemon-pid>) before you attach",
                );
                string_of(&out)
            },
        }
    }
}

/// Whether an attach can succeed: the process runs, and the kernel does not
/// restrict tracing.
pub fn preflight_attach_decide(pid: u32, pid_alive: bool, ptrace_scope: i32) -> (r: Result<
    (),
    AttachRefusal,
>)
    ensures
        r == if !pid_alive {
            Err::<(), AttachRefusal>(AttachRefusal::NoSuchProcess(pid))
        } else if ptrace_scope == 0 {
            Ok(())
        } else {
            Err(AttachRefusal::Restricted { pid: pid, ptrace_scope: ptrace_scope })
        },
{
    if !pid_alive {
        return Err(AttachRefusal::NoSuchProcess(pid));
    }
    if ptrace_scope == 0 {
        return Ok(());
    }
    Err(AttachRefusal::Restricted { pid: pid, ptrace_scope: ptrace_scope })
}

/// The restriction that the kernel's file states; none where it cannot be read.
pub open spec fn ptrace_scope_of(content: Option<Seq<char>>) -> int {
    match content {
        Some(s) => match text::parse_signed(text::trim(s)) {
            Some(n) => if i32::MIN <= n <= i32::MAX {
                n
            } else {
                0
            },
            None => 0,
        },
        None => 0,
    }
}

/// The restriction that the kernel's file states; none where it cannot be read.
pub fn parse_ptrace_scope(content: Option<&str>) -> (r: i32)
    ensures
        r == ptrace_scope_of(
            match content {
                Some(s) => Some(s@),
                None => None,
            },
        ),
{
    match content {
        Some(s) => {
            let chars = chars_of(s);
            let trimmed = trim_chars(&chars);
            match parse_i64_chars(&trimmed) {
                Some(n) => if i32::MIN as i64 <= n && n <= i32::MAX as i64 {
                    n as i32
                } else {
                    0
                },
                None => 0,
            }
        },
        None => 0,
    }
}

/// Whether to try an attach. `alive` is given where the process files can be
/// read; where they cannot, nothing is refused and the adapter is left to find
/// out. `scope` is the text of the kernel's restriction.
pub fn preflight_attach(pid: u32, alive: Option<bool>, scope: Option<&str>) -> (r: Result<
    (),
    AttachRefusal,
>)
    ensures
        r == match alive {
            None => Ok::<(), AttachRefusal>(()),
            Some(false) => Err(AttachRefusal::NoSuchProcess(pid)),
            Some(true) => {
                let restriction = ptrace_scope_of(
                    match scope {
                        Some(s) => Some(s@),
                        None => None,
                    },
                );
                if restriction == 0 {
                    Ok(())
                } else {
                    Err(AttachRefusal::Restricted { pid: pid, ptrace_scope: restriction as i32 })
                }
            },
        },
{
    match alive {
        None => Ok(()),
        Some(pid_alive) => preflight_attach_decide(pid, pid_alive, parse_ptrace_scope(scope)),
    }
}

// ---------------------------------------------------------------------------
// The handshake
// ---------------------------------------------------------------------------

/// The arguments of the `initialize` request.
pub open spec fn initialize_value(adapter: Seq<char>) -> JsonV {
    JsonV::Object(
        map![
            "clientID"@ => JsonV::Str("dbg-cli"@),
            "clientName"@ => JsonV::Str("dbg"@),
            "adapterID"@ => JsonV::Str(adapter),
            "pathFormat"@ => JsonV::Str("path"@),
            "linesStartAt1"@ => JsonV::Bool(true),
            "columnsStartAt1"@ => JsonV::Bool(true),
            "supportsVariableType"@ => JsonV::Bool(true),
            "supportsRunInTerminalRequest"@ => JsonV::Bool(false),
        ],
    )
}

/// The arguments of the `initialize` request.
pub fn initialize_arguments(adapter: &str) -> (r: Json)
    ensures
        r.view() == initialize_value(adapter@),
{
    let mut fields: Vec<(String, Json)> = Vec::new();
    put_str(&mut fields, "clientID", "dbg-cli");
    put_str(&mut fields, "clientName", "dbg");
    put_str(&mut fields, "adapterID", adapter);
    put_str(&mut fields, "pathFormat", "path");
    put(&mut fields, "linesStartAt1", Json::Bool(true));
    put(&mut fields, "columnsStartAt1", Json::Bool(true));
    put(&mut fields, "supportsVariableType", Json::Bool(true));
    put(&mut fields, "supportsRunInTerminalRequest", Json::Bool(false));
    Json::Object(fields)
}

/// The arguments of the `disconnect` request: a debuggee that was launched ends
/// with the session, one that was attached to goes on.
pub fn disconnect_arguments(is_attach: bool) -> (r: Json)
    ensures
        r.view() == JsonV::Object(map!["terminateDebuggee"@ => JsonV::Bool(!is_attach)]),
{
    let mut fields: Vec<(String, Json)> = Vec::new();
    put(&mut fields, "terminateDebuggee", Json::Bool(!is_attach));
    Json::Object(fields)
}

/// What a wait comes to.
#[derive(Clone, Copy, Debug, PartialEq, Eq, Structural)]
pub enum Wait {
    Continue,
    Done,
    TimedOut,
    Terminated,
}

/// Whether to go on waiting for the adapter to be initialized.
pub fn initialized_wait(state: &State, expired: bool) -> (r: Wait)
    ensures
        r == if state.alive && !state.initialized && !state.terminated {
            if expired {
                Wait::TimedOut
            } else {
                Wait::Continue
            }
        } else if state.terminated && !state.initialized {
            Wait::Terminated
        } else {
            Wait::Done
        },
{
    if state.alive && !state.initialized && !state.terminated {
        if expired {
            Wait::TimedOut
        } else {
            Wait::Continue
        }
    } else if state.terminated && !state.initialized {
        Wait::Terminated
    } else {
        Wait::Done
    }
}

/// Whether to go on waiting for a first stop. A program that was started
/// without a stop at its entry just runs: that is no error.
pub fn prompt_wait(state: &State, expired: bool, slice_timed_out: bool) -> (r: Wait)
    ensures
        r == if state.alive && !state.paused && !state.terminated && !expired && !(slice_timed_out
            && state.call_frames@.len() == 0) {
            Wait::Continue
        } else {
            Wait::Done
        },
{
    if state.alive && !state.paused && !state.terminated && !expired && !(slice_timed_out
        && state.call_frames.len() == 0) {
        Wait::Continue
    } else {
        Wait::Done
    }
}

/// The stop that is held belongs to the request that runs now. One that names no
/// thread belongs to any.
pub open spec fn holds_own_stop(state: &State) -> bool {
    state.pending_hit is Some && (state.pending_is_unscoped || state.pending_action_generation
        == state.action_generation)
}

/// Whether to go on waiting for the stop that ends a request.
pub fn stop_wait(state: &State, expired: bool) -> (r: Wait)
    ensures
        r == if holds_own_stop(state) {
            Wait::Done
        } else if state.terminated || !state.alive {
            Wait::Terminated
        } else if expired {
            Wait::TimedOut
        } else {
            Wait::Continue
        },
{
    let held = match &state.pending_hit {
        Some(_) => true,
        None => false,
    };
    if held && (state.pending_is_unscoped || state.pending_action_generation
        == state.action_generation) {
        Wait::Done
    } else if state.terminated || !state.alive {
        Wait::Terminated
    } else if expired {
        Wait::TimedOut
    } else {
        Wait::Continue
    }
}

/// The error where `configurationDone` fails: an attach most often fails for
/// the wrong pid.
pub open spec fn configuration_error(
    attach: bool,
    pid: Option<u32>,
    error: Seq<char>,
) -> Seq<char> {
    if !attach {
        error
    } else {
        match pid {
            Some(p) => "DAP configurationDone failed while attaching to pid "@ + text::decimal(
                p as nat,
            ) + ": "@ + error
                + ". Verify that the PID is the managed/debuggable child process, not a shell or launcher parent."@,
            None => "DAP configurationDone failed during attach: "@ + error,
        }
    }
}

pub fn configuration_error_text(attach: bool, pid: Option<u32>, error: &str) -> (r: String)
    ensures
        r@ == configuration_error(attach, pid, error@),
{
    if !attach {
        return error.to_owned();
    }
    match pid {
        Some(p) => {
            let mut out = chars_of("DAP configurationDone failed while attaching to pid ");
            let d = decimal_chars(p as u64);
            extend_chars(&mut out, &d);
            extend_str(&mut out, ": ");
            extend_str(&mut out, error);
            extend_str(
                &mut out,
                ". Verify that the PID is the managed/debuggable child process, not a shell or launcher parent.",
            );
            string_of(&out)
        },
        None => {
            let mut out = chars_of("DAP configurationDone failed during attach: ");
            extend_str(&mut out, error);
            string_of(&out)
        },
    }
}

/// The error of a request that was refused, or that was not answered in time.
pub open spec fn call_error(command: Seq<char>, error: Option<Seq<char>>) -> Seq<char> {
    "DAP "@ + command + ": "@ + match error {
        Some(e) => e,
        None => "timeout"@,
    }
}

pub fn call_error_text(command: &str, error: Option<&str>) -> (r: String)
    ensures
        r@ == call_error(
            command@,
            match error {
                Some(e) => Some(e@),
                None => None,
            },
        ),
{
    let mut out = chars_of("DAP ");
    extend_str(&mut out, command);
    extend_str(&mut out, ": ");
    match error {
        Some(e) => {
            extend_str(&mut out, e);
        },
        None => {
            extend_str(&mut out, "timeout");
        },
    }
    string_of(&out)
}

/// Whether the listener at the adapter's address has to belong to the adapter:
/// netcoredbg is told its port, and another process may have taken it.
pub fn requires_listener_owner(preassigned: bool, bin: &str) -> (r: bool)
    ensures
        r == (preassigned && text::contains(text::lowered(bin@), "netcoredbg"@)),
{
    let name = lower_ascii(bin);
    let wanted = chars_of("netcoredbg");
    preassigned && find_chars(&name, &wanted, 0).is_some()
}

/// What to do next about a connection.
#[derive(Clone, Copy, Debug, PartialEq, Eq, Structural)]
pub enum Connect {
    /// Try to connect.
    Try,
    /// Wait for the adapter to listen.
    AwaitOwner,
    /// Another process holds the port, and time is up.
    NotOwned,
}

/// Whether to connect: not before the listener belongs to the adapter, where
/// that is asked for.
pub fn connect_decide(require_owner: bool, owned: bool, expired: bool) -> (r: Connect)
    ensures
        r == if require_owner && !owned {
            if expired {
                Connect::NotOwned
            } else {
                Connect::AwaitOwner
            }
        } else {
            Connect::Try
        },
{
    if require_owner && !owned {
        if expired {
            Connect::NotOwned
        } else {
            Connect::AwaitOwner
        }
    } else {
        Connect::Try
    }
}

// ---------------------------------------------------------------------------
// The stages
// ---------------------------------------------------------------------------

/// The stages of a handshake. The launch request is sent without waiting for its
/// reply: some adapters give it only after the configuration is done.
#[derive(Clone, Copy, Debug, PartialEq, Eq, Structural)]
pub enum Stage {
    Initialize,
    SendLaunch,
    AwaitInitialized,
    Configure,
    AwaitLaunch,
    Ready,
}

/// Why a stage failed.
#[derive(Debug)]
pub enum StageError {
    Refused(String),
    TimedOut,
    /// The adapter ended, or the connection to it.
    Gone,
}

pub enum StageErrorV {
    Refused(Seq<char>),
    TimedOut,
    Gone,
}

impl StageError {
    pub open spec fn view(&self) -> StageErrorV {
        match self {
            StageError::Refused(e) => StageErrorV::Refused(e@),
            StageError::TimedOut => StageErrorV::TimedOut,
            StageError::Gone => StageErrorV::Gone,
        }
    }
}

pub open spec fn next_stage(stage: Stage) -> Stage {
    match stage {
        Stage::Initialize => Stage::SendLaunch,
        Stage::SendLaunch => Stage::AwaitInitialized,
        Stage::AwaitInitialized => Stage::Configure,
        Stage::Configure => Stage::AwaitLaunch,
        Stage::AwaitLaunch => Stage::Ready,
        Stage::Ready => Stage::Ready,
    }
}

/// The error of a request that was made in a stage.
pub open spec fn request_error(command: Seq<char>, e: StageErrorV) -> Seq<char> {
    match e {
        StageErrorV::Refused(s) => call_error(command, Some(s)),
        StageErrorV::TimedOut => call_error(command, None),
        StageErrorV::Gone => "DAP driver thread gone"@,
    }
}

/// What is shown where a stage failed.
pub open spec fn stage_error_text(
    stage: Stage,
    e: StageErrorV,
    attach: bool,
    pid: Option<u32>,
) -> Seq<char> {
    match stage {
        Stage::Initialize => request_error("initialize"@, e),
        Stage::SendLaunch | Stage::Ready => "DAP driver thread gone"@,
        Stage::AwaitInitialized => match e {
            StageErrorV::Gone => "adapter terminated before initialized event"@,
            _ => "timeout waiting for DAP initialized event"@,
        },
        Stage::Configure => configuration_error(attach, pid, request_error("configurationDone"@, e)),
        Stage::AwaitLaunch => match e {
            StageErrorV::Refused(s) => call_error("launch"@, Some(s)),
            _ => "DAP launch: timeout waiting for response"@,
        },
    }
}

fn request_error_text(command: &str, e: StageError) -> (r: String)
    ensures
        r@ == request_error(command@, e.view()),
{
    match e {
        StageError::Refused(s) => call_error_text(command, Some(s.as_str())),
        StageError::TimedOut => call_error_text(command, None),
        StageError::Gone => "DAP driver thread gone".to_owned(),
    }
}

/// The stage that follows, or the error with which the launch ends. `attach` and
/// `pid` say what the adapter was asked for.
pub fn after_stage(
    stage: Stage,
    outcome: Result<(), StageError>,
    attach: bool,
    pid: Option<u32>,
) -> (r: Result<Stage, String>)
    ensures
        match (outcome, r) {
            (Ok(_), Ok(s)) => s == next_stage(stage),
            (Err(e), Err(t)) => t@ == stage_error_text(stage, e.view(), attach, pid),
            _ => false,
        },
{
    match outcome {
        Ok(_) => Ok(
            match stage {
                Stage::Initialize => Stage::SendLaunch,
                Stage::SendLaunch => Stage::AwaitInitialized,
                Stage::AwaitInitialized => Stage::Configure,
                Stage::Configure => Stage::AwaitLaunch,
                Stage::AwaitLaunch => Stage::Ready,
                Stage::Ready => Stage::Ready,
            },
        ),
        Err(e) => Err(
            match stage {
                Stage::Initialize => request_error_text("initialize", e),
                Stage::SendLaunch | Stage::Ready => "DAP driver thread gone".to_owned(),
                Stage::AwaitInitialized => match e {
                    StageError::Gone => "adapter terminated before initialized event".to_owned(),
                    _ => "timeout waiting for DAP initialized event".to_owned(),
                },
                Stage::Configure => configuration_error_text(
                    attach,
                    pid,
                    request_error_text("configurationDone", e).as_str(),
                ),
                Stage::AwaitLaunch => match e {
                    StageError::Refused(s) => call_error_text("launch", Some(s.as_str())),
                    _ => "DAP launch: timeout waiting for response".to_owned(),
                },
            },
        ),
    }
}

// ---------------------------------------------------------------------------
// Laws
// ---------------------------------------------------------------------------

/// Digits are skipped up to what follows them.
proof fn digits_are_skipped(digits: Seq<char>, tail: Seq<char>, i: int)
    requires
        text::all_digits(digits),
        0 <= i <= digits.len(),
        tail.len() > 0 ==> !text::is_digit(tail[0]),
    ensures
        skip_digits(digits + tail, i) == digits.len(),
    decreases digits.len() - i,
{
    if i < digits.len() {
        assert((digits + tail)[i] == digits[i]);
        digits_are_skipped(digits, tail, i + 1);
    } else if tail.len() > 0 {
        assert((digits + tail)[i] == tail[0]);
    }
}

/// A host, a colon and a port: the port is read up to its last digit.
proof fn a_port_is_read(host: Seq<char>, port: nat, tail: Seq<char>)
    requires
        tail.len() > 0 ==> !text::is_digit(tail[0]),
    ensures
        host_port(host, text::decimal(port) + tail) == if port <= u16::MAX {
            Some(host + ":"@ + text::decimal(port))
        } else {
            None
        },
{
    let digits = text::decimal(port);
    text::number_of_decimal(port);
    digits_are_skipped(digits, tail, 0);
    assert((digits + tail).take(digits.len() as int) == digits);
    assert(text::is_digit(digits[0]));
}

/// A host and a port that stand in a word are its address, whatever stands
/// behind them. A number that is no port makes no address.
pub proof fn a_host_and_a_port_are_an_address(host: Seq<char>, port: nat, tail: Seq<char>)
    requires
        host.len() > 0,
        host[0] != '[',
        !tail.contains(':'),
        tail.len() > 0 ==> !text::is_digit(tail[0]),
        !text::contains(host + ":"@ + text::decimal(port) + tail, "://"@),
    ensures
        address_in_word(host + ":"@ + text::decimal(port) + tail) == if port <= u16::MAX {
            Some(host + ":"@ + text::decimal(port))
        } else {
            None
        },
{
    reveal_strlit(":");
    reveal_strlit("[");
    assert(":"@ == seq![':']);
    let digits = text::decimal(port);
    text::number_of_decimal(port);
    let t = host + ":"@ + digits + tail;
    let h = host.len() as int;
    assert(t[0] == host[0]);
    assert(!text::starts_with(t, "["@)) by {
        if text::starts_with(t, "["@) {
            assert(t.subrange(0, 1)[0] == t[0]);
            assert("["@[0] == '[');
        }
    }
    text::rfind_from_is_last(t, ":"@, t.len() - 1);
    assert(t.subrange(h, h + 1) == ":"@);
    assert(text::occurs_at(t, ":"@, h));
    assert forall|j: int| h < j implies !text::occurs_at(t, ":"@, j) by {
        if text::occurs_at(t, ":"@, j) {
            assert(t.subrange(j, j + 1)[0] == t[j]);
            assert(t[j] == ':');
            if j <= h + digits.len() {
                assert(t[j] == digits[j - h - 1]);
                assert(text::is_digit(digits[j - h - 1]));
            } else {
                assert(t[j] == tail[j - h - 1 - digits.len()]);
            }
        }
    }
    assert(text::rfind(t, ":"@) == Some(h));
    assert(t.take(h) == host);
    assert(t.skip(h + 1) == digits + tail);
    a_port_is_read(host, port, tail);
}

/// A host in square brackets may itself hold colons: the brackets fall away.
pub proof fn brackets_round_a_host_fall_away(host: Seq<char>, port: nat, tail: Seq<char>)
    requires
        !host.contains(']'),
        tail.len() > 0 ==> !text::is_digit(tail[0]),
        !text::contains("["@ + host + "]:"@ + text::decimal(port) + tail, "://"@),
    ensures
        address_in_word("["@ + host + "]:"@ + text::decimal(port) + tail) == if port <= u16::MAX {
            Some(host + ":"@ + text::decimal(port))
        } else {
            None
        },
{
    reveal_strlit(":");
    reveal_strlit("[");
    reveal_strlit("]");
    reveal_strlit("]:");
    let digits = text::decimal(port);
    let t = "["@ + host + "]:"@ + digits + tail;
    let c = host.len() as int + 1;
    assert(t.subrange(0, 1) == "["@);
    assert(t.subrange(c, c + 1) == "]"@);
    assert forall|j: int| 0 <= j < c implies !text::occurs_at(t, "]"@, j) by {
        if text::occurs_at(t, "]"@, j) {
            assert(t.subrange(j, j + 1)[0] == t[j]);
            assert(t[j] == ']');
            if j > 0 {
                assert(t[j] == host[j - 1]);
            }
        }
    }
    text::first_is_find_from(t, "]"@, 0, c);
    let after = t.skip(c + 1);
    assert(after == ":"@ + digits + tail);
    assert(after.subrange(0, 1) == ":"@);
    assert(after.skip(1) == digits + tail);
    assert(t.subrange(1, c) == host);
    a_port_is_read(host, port, tail);
}

/// A scheme before an address does not count.
pub proof fn a_scheme_is_dropped(scheme: Seq<char>, rest: Seq<char>)
    requires
        !scheme.contains(':'),
        !text::contains(rest, "://"@),
    ensures
        address_in_word(scheme + "://"@ + rest) == address_in_word(rest),
{
    reveal_strlit("://");
    let w = scheme + "://"@ + rest;
    let n = scheme.len() as int;
    assert(w.subrange(n, n + 3) == "://"@);
    assert forall|j: int| 0 <= j < n implies !text::occurs_at(w, "://"@, j) by {
        if text::occurs_at(w, "://"@, j) {
            assert(w.subrange(j, j + 3)[0] == w[j]);
            assert(w[j] == scheme[j]);
            assert("://"@[0] == ':');
        }
    }
    text::first_is_find_from(w, "://"@, 0, n);
    assert(w.skip(n + 3) == rest);
}

/// The first word of a line that holds an address gives the line's address; a
/// line without one has none.
pub proof fn the_first_address_of_a_line_counts(words: Seq<Seq<char>>, k: int)
    requires
        forall|i: int| 0 <= i < words.len() ==> text::is_word(#[trigger] words[i]),
        0 <= k <= words.len(),
        forall|i: int| 0 <= i < k ==> address_in_word(#[trigger] words[i]) is None,
        k < words.len() ==> address_in_word(words[k]) is Some,
    ensures
        address_in_line(text::join(words, " "@)) == if k < words.len() {
            address_in_word(words[k])
        } else {
            None
        },
{
    text::joined_words_are_read_back(words);
    first_address_from(words, 0, k);
}

proof fn first_address_from(words: Seq<Seq<char>>, i: int, k: int)
    requires
        0 <= i <= k <= words.len(),
        forall|j: int| i <= j < k ==> address_in_word(#[trigger] words[j]) is None,
        k < words.len() ==> address_in_word(words[k]) is Some,
    ensures
        address_in_words(words, i) == if k < words.len() {
            address_in_word(words[k])
        } else {
            None
        },
    decreases k - i,
{
    if i < k {
        first_address_from(words, i + 1, k);
    }
}

/// A line without the marker, or without an address, is passed over. The first
/// one that has both announces the address, and what follows it is kept. What
/// is no complete line yet is kept too.
pub proof fn a_line_with_the_marker_announces(line: Seq<u8>, rest: Seq<u8>, marker: Seq<char>)
    requires
        !line.contains(10u8),
    ensures
        text::contains(lossy_text(line), marker) && address_in_line(lossy_text(line)) is Some
            ==> announced_address(line + seq![10u8] + rest, marker) == (
            address_in_line(lossy_text(line)),
            rest,
        ),
        !(text::contains(lossy_text(line), marker) && address_in_line(lossy_text(line)) is Some)
            ==> announced_address(line + seq![10u8] + rest, marker) == announced_address(
            rest,
            marker,
        ),
        announced_address(line, marker) == (None::<Seq<char>>, line),
{
    let nl = seq![10u8];
    let b = line + nl + rest;
    let n = line.len() as int;
    assert(b.subrange(n, n + 1) == nl);
    assert forall|j: int| 0 <= j < n implies !text::occurs_at(b, nl, j) by {
        if text::occurs_at(b, nl, j) {
            assert(b.subrange(j, j + 1)[0] == b[j]);
            assert(b[j] == line[j]);
        }
    }
    text::first_is_find_from(b, nl, 0, n);
    assert(b.take(n) == line);
    assert(b.skip(n + 1) == rest);
    text::find_from_is_first(line, nl, 0);
    if text::find(line, nl) is Some {
        let j = text::find(line, nl)->0;
        assert(line.subrange(j, j + 1)[0] == line[j]);
    }
}

/// The restriction is the number that the kernel's file holds, with white space
/// round it.
pub proof fn the_restriction_is_the_number_in_the_file(a: Seq<char>, n: i32, b: Seq<char>)
    requires
        text::trim(a + text::signed_decimal(n as int) + b) == text::signed_decimal(n as int),
    ensures
        ptrace_scope_of(Some(a + text::signed_decimal(n as int) + b)) == n,
        ptrace_scope_of(None) == 0,
{
    text::parse_of_signed_decimal(n as int);
}

/// A handshake goes through its stages in this order, and stays where it is
/// once it is ready.
pub proof fn stages_follow_one_another()
    ensures
        next_stage(Stage::Initialize) == Stage::SendLaunch,
        next_stage(Stage::SendLaunch) == Stage::AwaitInitialized,
        next_stage(Stage::AwaitInitialized) == Stage::Configure,
        next_stage(Stage::Configure) == Stage::AwaitLaunch,
        next_stage(Stage::AwaitLaunch) == Stage::Ready,
        next_stage(Stage::Ready) == Stage::Ready,
{
}

/// The error of a request names the request and what it was answered.
pub proof fn an_error_names_its_request(command: Seq<char>, error: Seq<char>)
    ensures
        call_error(command, Some(error)) == "DAP "@ + command + ": "@ + error,
        call_error(command, None) == "DAP "@ + command + ": timeout"@,
        request_error(command, StageErrorV::Refused(error)) == "DAP "@ + command + ": "@ + error,
        request_error(command, StageErrorV::TimedOut) == "DAP "@ + command + ": timeout"@,
{
    reveal_strlit(": ");
    reveal_strlit("timeout");
    reveal_strlit(": timeout");
    assert(": "@ + "timeout"@ == ": timeout"@);
    assert("DAP "@ + command + ": "@ + "timeout"@ == "DAP "@ + command + (": "@ + "timeout"@));
}

/// Where a configuration fails, an attach names the process and still shows the
/// error; a launch shows the error alone.
pub proof fn a_failed_attach_names_the_process(pid: u32, error: Seq<char>)
    ensures
        configuration_error(false, Some(pid), error) == error,
        configuration_error(false, None, error) == error,
        text::contains(configuration_error(true, Some(pid), error), text::decimal(pid as nat)),
        text::contains(configuration_error(true, Some(pid), error), error),
        text::ends_with(configuration_error(true, None, error), error),
{
    let before = "DAP configurationDone failed while attaching to pid "@;
    let d = text::decimal(pid as nat);
    let after =
        ". Verify that the PID is the managed/debuggable child process, not a shell or launcher parent."@;
    let s = configuration_error(true, Some(pid), error);
    text::what_is_found_stands_there(s, d);
    text::what_is_found_stands_there(s, error);
    assert(s == before + d + (": "@ + error + after));
    assert(s == (before + d + ": "@) + error + after);
    let t = configuration_error(true, None, error);
    assert(t.subrange(t.len() - error.len(), t.len() as int) == error);
}

/// A refusal names the process, and the restriction where there is one.
pub proof fn a_refusal_names_the_process(pid: u32, ptrace_scope: i32)
    ensures
        text::contains(
            refusal_text(AttachRefusal::NoSuchProcess(pid)),
            text::decimal(pid as nat),
        ),
        text::contains(
            refusal_text(AttachRefusal::Restricted { pid, ptrace_scope }),
            "pid "@ + text::decimal(pid as nat) + ": kernel.yama.ptrace_scope = "@
                + text::signed_decimal(ptrace_scope as int),
        ),
{
    reveal_strlit("cannot attach to pid ");
    reveal_strlit("cannot attach to ");
    reveal_strlit("pid ");
    let d = text::decimal(pid as nat);
    let n = "no process with pid "@;
    let s = refusal_text(AttachRefusal::NoSuchProcess(pid));
    text::what_is_found_stands_there(s, d);
    assert(s == n + d
        + " (or /proc not mounted). Verify the PID is correct and still running."@);
    let r = refusal_text(AttachRefusal::Restricted { pid, ptrace_scope });
    let named = "pid "@ + d + ": kernel.yama.ptrace_scope = "@ + text::signed_decimal(
        ptrace_scope as int,
    );
    text::what_is_found_stands_there(r, named);
    assert("cannot attach to pid "@ == "cannot attach to "@ + "pid "@);
    let m = ("cannot attach to "@ + named).len() as int;
    assert(r == "cannot attach to "@ + named + r.skip(m));
}

} // verus!
