//! Framing of Debug Adapter Protocol messages: a header that gives the length
//! of the body in bytes, an empty line, and the body.

use vstd::prelude::*;

use crate::text;
use crate::text::{
    chars_of, cut, decimal_chars, extend_chars, extend_str, parse_bounded_chars, split_chars,
    starts_with_chars, string_of, trim_chars,
};

verus! {

/// The longest body that a frame may announce.
pub const MAX_DAP_FRAME_BYTES: usize = 8388608;

/// The longest header that is read.
pub const MAX_DAP_HEADER_BYTES: usize = 4096;

/// Why a stretch of the inbox was given up.
#[derive(Clone, Copy, Debug, PartialEq, Eq, Structural)]
pub enum FrameError {
    HeaderTooLong,
    HeaderNotUtf8,
    DuplicateLength,
    InvalidLength,
    MissingLength,
    FrameTooLong,
}

impl FrameError {
    /// The message that is shown for the error.
    pub fn message(&self) -> (r: &'static str)
        ensures
            r@ == match self {
                FrameError::HeaderTooLong => "DAP header exceeded maximum size"@,
                FrameError::HeaderNotUtf8 => "DAP header is not valid UTF-8"@,
                FrameError::DuplicateLength => "duplicate DAP Content-Length header"@,
                FrameError::InvalidLength => "invalid DAP Content-Length"@,
                FrameError::MissingLength => "missing DAP Content-Length header"@,
                FrameError::FrameTooLong => "DAP frame exceeds maximum size"@,
            },
    {
        match self {
            FrameError::HeaderTooLong => "DAP header exceeded maximum size",
            FrameError::HeaderNotUtf8 => "DAP header is not valid UTF-8",
            FrameError::DuplicateLength => "duplicate DAP Content-Length header",
            FrameError::InvalidLength => "invalid DAP Content-Length",
            FrameError::MissingLength => "missing DAP Content-Length header",
            FrameError::FrameTooLong => "DAP frame exceeds maximum size",
        }
    }
}

/// `std::str::from_utf8` returns the text that the bytes encode, and fails on
/// bytes that are not valid UTF-8.
#[verifier::external_body]
fn utf8_text(bytes: &[u8]) -> (r: Option<&str>)
    ensures
        r is Some <==> vstd::utf8::valid_utf8(bytes@),
        r matches Some(s) ==> s@ == vstd::utf8::decode_utf8(bytes@),
{
    std::str::from_utf8(bytes).ok()
}

// ---------------------------------------------------------------------------
// What a frame is
// ---------------------------------------------------------------------------

/// The bytes that open the length field of a header.
pub open spec fn marker() -> Seq<u8> {
    vstd::utf8::encode_utf8("Content-Length:"@)
}

/// The bytes that end a header.
pub open spec fn terminator() -> Seq<u8> {
    vstd::utf8::encode_utf8("\r\n\r\n"@)
}

/// The length that the header lines from `k` on announce, where `found` is the
/// one that earlier lines announced.
pub open spec fn announced_from(lines: Seq<Seq<char>>, k: int, found: Option<int>) -> Result<
    Option<int>,
    FrameError,
>
    decreases lines.len() - k,
{
    if k < 0 || k >= lines.len() {
        Ok(found)
    } else if text::starts_with(lines[k], "Content-Length:"@) {
        if found is Some {
            Err(FrameError::DuplicateLength)
        } else {
            match text::parse_unsigned(
                text::trim(lines[k].skip("Content-Length:"@.len() as int)),
                usize::MAX as int,
            ) {
                Some(n) => announced_from(lines, k + 1, Some(n)),
                None => Err(FrameError::InvalidLength),
            }
        }
    } else {
        announced_from(lines, k + 1, found)
    }
}

/// The length that a header announces.
pub open spec fn announced(header: Seq<char>) -> Result<Option<int>, FrameError> {
    announced_from(text::split(header, "\r\n"@), 0, None)
}

/// What one step of reading yields: the result, the bytes that stay in the
/// inbox, and whether the reader now looks for the next header.
pub struct FrameStep {
    pub result: Result<Option<Seq<u8>>, FrameError>,
    pub rest: Seq<u8>,
    pub resync: bool,
}

/// A step on an inbox whose first bytes belong to a header.
pub open spec fn header_step(inbox: Seq<u8>) -> FrameStep {
    match text::find(inbox, terminator()) {
        None => if inbox.len() > MAX_DAP_HEADER_BYTES {
            FrameStep {
                result: Err(FrameError::HeaderTooLong),
                rest: match text::rfind(inbox, marker()) {
                    Some(k) => inbox.skip(k),
                    None => inbox.skip(inbox.len() - marker().len()),
                },
                resync: false,
            }
        } else {
            FrameStep { result: Ok(None), rest: inbox, resync: false }
        },
        Some(h) => {
            let body = h + terminator().len();
            if h > MAX_DAP_HEADER_BYTES {
                FrameStep {
                    result: Err(FrameError::HeaderTooLong),
                    rest: inbox.skip(body),
                    resync: false,
                }
            } else if !vstd::utf8::valid_utf8(inbox.take(h)) {
                FrameStep {
                    result: Err(FrameError::HeaderNotUtf8),
                    rest: inbox.skip(body),
                    resync: false,
                }
            } else {
                match announced(vstd::utf8::decode_utf8(inbox.take(h))) {
                    Err(e) => FrameStep { result: Err(e), rest: inbox.skip(body), resync: false },
                    Ok(None) => FrameStep {
                        result: Err(FrameError::MissingLength),
                        rest: inbox.skip(body),
                        resync: false,
                    },
                    Ok(Some(n)) => if n > MAX_DAP_FRAME_BYTES {
                        FrameStep {
                            result: Err(FrameError::FrameTooLong),
                            rest: inbox.skip(body),
                            resync: true,
                        }
                    } else if inbox.len() < body + n {
                        FrameStep { result: Ok(None), rest: inbox, resync: false }
                    } else {
                        FrameStep {
                            result: Ok(Some(inbox.subrange(body, body + n))),
                            rest: inbox.skip(body + n),
                            resync: false,
                        }
                    },
                }
            }
        },
    }
}

/// The last `n` bytes of `s`, or all of it where it is shorter.
pub open spec fn suffix(s: Seq<u8>, n: int) -> Seq<u8> {
    if s.len() <= n {
        s
    } else {
        s.skip(s.len() - n)
    }
}

/// One step of reading.
pub open spec fn frame_step(inbox: Seq<u8>, resync: bool) -> FrameStep {
    if resync {
        match text::find(inbox, marker()) {
            Some(i) => header_step(inbox.skip(i)),
            None => FrameStep {
                result: Ok(None),
                rest: suffix(inbox, marker().len() - 1),
                resync: true,
            },
        }
    } else {
        header_step(inbox)
    }
}

// ---------------------------------------------------------------------------
// Bytes
// ---------------------------------------------------------------------------

fn bytes_stand_at(s: &[u8], p: &[u8], i: usize) -> (r: bool)
    requires
        i + p@.len() <= s@.len(),
    ensures
        r == text::occurs_at(s@, p@, i as int),
{
    let n: usize = s.len();
    let mut k: usize = 0;
    while k < p.len()
        invariant
            k <= p@.len(),
            n == s@.len(),
            i + p@.len() <= s@.len(),
            forall|j: int| 0 <= j < k ==> s@[i + j] == p@[j],
        decreases p@.len() - k,
    {
        if s[i + k] != p[k] {
            assert(s@.subrange(i as int, i + p@.len())[k as int] != p@[k as int]);
            return false;
        }
        k = k + 1;
    }
    assert(s@.subrange(i as int, i + p@.len()) =~= p@);
    true
}

fn find_bytes(s: &[u8], p: &[u8]) -> (r: Option<usize>)
    ensures
        match r {
            Some(k) => text::find(s@, p@) == Some(k as int) && k + p@.len() <= s@.len(),
            None => text::find(s@, p@) is None,
        },
{
    if p.len() > s.len() {
        return None;
    }
    let last: usize = s.len() - p.len();
    let mut i: usize = 0;
    loop
        invariant
            last + p@.len() == s@.len(),
            i <= last,
            text::find(s@, p@) == text::find_from(s@, p@, i as int),
        decreases last - i,
    {
        if bytes_stand_at(s, p, i) {
            return Some(i);
        }
        if i == last {
            assert(text::find_from(s@, p@, i + 1) is None);
            return None;
        }
        i = i + 1;
    }
}

fn rfind_bytes(s: &[u8], p: &[u8]) -> (r: Option<usize>)
    ensures
        match r {
            Some(k) => text::rfind(s@, p@) == Some(k as int) && k + p@.len() <= s@.len(),
            None => text::rfind(s@, p@) is None,
        },
{
    if p.len() > s.len() {
        return None;
    }
    let mut i: usize = s.len() - p.len();
    loop
        invariant
            i + p@.len() <= s@.len(),
            text::rfind(s@, p@) == text::rfind_from(s@, p@, i as int),
        decreases i,
    {
        if bytes_stand_at(s, p, i) {
            return Some(i);
        }
        if i == 0 {
            assert(text::rfind_from(s@, p@, -1) is None);
            return None;
        }
        i = i - 1;
    }
}

fn drop_prefix(v: &mut Vec<u8>, n: usize)
    requires
        n <= old(v)@.len(),
    ensures
        final(v)@ == old(v)@.skip(n as int),
{
    let rest = v.split_off(n);
    *v = rest;
    assert(v@ =~= old(v)@.skip(n as int));
}

/// The marker and the terminator, byte for byte.
pub proof fn marks()
    ensures
        marker().len() == 15,
        terminator() == seq![13u8, 10u8, 13u8, 10u8],
        "Content-Length:"@.len() == 15,
{
    reveal_strlit("Content-Length:");
    reveal_strlit("\r\n\r\n");
    vstd::utf8::is_ascii_chars_encode_utf8("Content-Length:"@);
    let t = "\r\n\r\n"@;
    vstd::utf8::is_ascii_chars_encode_utf8(t);
    assert(t[0] as u8 == 13 && t[1] as u8 == 10 && t[2] as u8 == 13 && t[3] as u8 == 10);
    assert(terminator() =~= seq![13u8, 10u8, 13u8, 10u8]);
}

// ---------------------------------------------------------------------------
// The decoder
// ---------------------------------------------------------------------------

/// The length that a header announces.
fn announced_length(header: &str) -> (r: Result<Option<usize>, FrameError>)
    ensures
        match r {
            Ok(None) => announced(header@) == Ok::<Option<int>, FrameError>(None),
            Ok(Some(n)) => announced(header@) == Ok::<Option<int>, FrameError>(Some(n as int)),
            Err(e) => announced(header@) == Err::<Option<int>, FrameError>(e),
        },
{
    let chars = chars_of(header);
    let newline = chars_of("\r\n");
    let name = chars_of("Content-Length:");
    proof {
        reveal_strlit("\r\n");
    }
    let lines = split_chars(&chars, &newline);
    let ghost all = text::split(header@, "\r\n"@);
    let mut found: Option<usize> = None;
    let mut k: usize = 0;
    while k < lines.len()
        invariant
            k <= lines@.len(),
            text::pieces(lines@) == all,
            name@ == "Content-Length:"@,
            all == text::split(header@, "\r\n"@),
            announced(header@) == announced_from(
                all,
                k as int,
                match found {
                    Some(n) => Some(n as int),
                    None => None,
                },
            ),
        decreases lines@.len() - k,
    {
        assert(all[k as int] == lines@[k as int]@);
        if starts_with_chars(&lines[k], &name) {
            if found.is_some() {
                return Err(FrameError::DuplicateLength);
            }
            let rest = cut(&lines[k], name.len(), lines[k].len());
            assert(rest@ =~= all[k as int].skip(name@.len() as int));
            let number = trim_chars(&rest);
            match parse_bounded_chars(&number, usize::MAX as u64) {
                Some(n) => {
                    found = Some(n as usize);
                },
                None => {
                    return Err(FrameError::InvalidLength);
                },
            }
        }
        k = k + 1;
    }
    Ok(found)
}

/// Reassembles frames from the bytes that an adapter sends.
#[derive(Debug)]
pub struct DapFrameDecoder {
    pub inbox: Vec<u8>,
    /// Set once a frame was refused for its length: the bytes up to the next
    /// header are then dropped without trusting the announced length.
    pub resync_oversized: bool,
}

impl DapFrameDecoder {
    pub fn new() -> (d: Self)
        ensures
            d.inbox@ == Seq::<u8>::empty(),
            !d.resync_oversized,
    {
        DapFrameDecoder { inbox: Vec::with_capacity(16384), resync_oversized: false }
    }

    /// Takes the next frame's body out of the inbox.
    pub fn next_frame(&mut self) -> (r: Result<Option<Vec<u8>>, FrameError>)
        ensures
            ({
                let step = frame_step(old(self).inbox@, old(self).resync_oversized);
                &&& final(self).inbox@ == step.rest
                &&& final(self).resync_oversized == step.resync
                &&& match r {
                    Ok(None) => step.result == Ok::<Option<Seq<u8>>, FrameError>(None),
                    Ok(Some(body)) => step.result == Ok::<Option<Seq<u8>>, FrameError>(
                        Some(body@),
                    ),
                    Err(e) => step.result == Err::<Option<Seq<u8>>, FrameError>(e),
                }
            }),
    {
        proof {
            marks();
        }
        let name: &[u8] = "Content-Length:".as_bytes();
        let end: &[u8] = "\r\n\r\n".as_bytes();
        if self.resync_oversized {
            match find_bytes(&self.inbox, name) {
                Some(pos) => {
                    drop_prefix(&mut self.inbox, pos);
                    self.resync_oversized = false;
                },
                None => {
                    let keep: usize = name.len() - 1;
                    if self.inbox.len() > keep {
                        let discard: usize = self.inbox.len() - keep;
                        drop_prefix(&mut self.inbox, discard);
                    }
                    return Ok(None);
                },
            }
        }
        let ghost inbox = self.inbox@;
        let size: usize = self.inbox.len();
        let header_end: usize = match find_bytes(&self.inbox, end) {
            Some(pos) => pos,
            None => {
                if self.inbox.len() > MAX_DAP_HEADER_BYTES {
                    let keep: usize = match rfind_bytes(&self.inbox, name) {
                        Some(pos) => pos,
                        None => self.inbox.len() - name.len(),
                    };
                    drop_prefix(&mut self.inbox, keep);
                    return Err(FrameError::HeaderTooLong);
                }
                return Ok(None);
            },
        };
        if header_end > MAX_DAP_HEADER_BYTES {
            drop_prefix(&mut self.inbox, header_end + 4);
            return Err(FrameError::HeaderTooLong);
        }
        let header_bytes: &[u8] = vstd::slice::slice_subrange(
            self.inbox.as_slice(),
            0,
            header_end,
        );
        assert(header_bytes@ =~= inbox.take(header_end as int));
        let length: Result<Option<usize>, FrameError> = match utf8_text(header_bytes) {
            Some(header) => announced_length(header),
            None => Err(FrameError::HeaderNotUtf8),
        };
        let n: usize = match length {
            Ok(Some(n)) => n,
            Ok(None) => {
                drop_prefix(&mut self.inbox, header_end + 4);
                return Err(FrameError::MissingLength);
            },
            Err(e) => {
                drop_prefix(&mut self.inbox, header_end + 4);
                return Err(e);
            },
        };
        if n > MAX_DAP_FRAME_BYTES {
            drop_prefix(&mut self.inbox, header_end + 4);
            self.resync_oversized = true;
            return Err(FrameError::FrameTooLong);
        }
        let total: usize = header_end + 4 + n;
        if size < total {
            return Ok(None);
        }
        let rest = self.inbox.split_off(total);
        let body = self.inbox.split_off(header_end + 4);
        self.inbox = rest;
        assert(body@ =~= inbox.subrange(header_end + 4, total as int));
        assert(self.inbox@ =~= inbox.skip(total as int));
        Ok(Some(body))
    }
}

/// Takes one frame's body off the front of `inbox`.
pub fn take_frame(inbox: &mut Vec<u8>) -> (r: Option<Vec<u8>>)
    ensures
        ({
            let step = frame_step(old(inbox)@, false);
            &&& final(inbox)@ == step.rest
            &&& match r {
                Some(body) => step.result == Ok::<Option<Seq<u8>>, FrameError>(Some(body@)),
                None => !(step.result matches Ok(Some(_))),
            }
        }),
{
    let mut bytes: Vec<u8> = Vec::new();
    std::mem::swap(&mut bytes, inbox);
    let mut decoder = DapFrameDecoder { inbox: bytes, resync_oversized: false };
    let frame = decoder.next_frame();
    *inbox = decoder.inbox;
    match frame {
        Ok(body) => body,
        Err(_) => None,
    }
}

// ---------------------------------------------------------------------------
// Encoding
// ---------------------------------------------------------------------------

/// The header of a frame with a body of `n` bytes, without its terminator.
pub open spec fn header_text(n: nat) -> Seq<char> {
    "Content-Length: "@ + text::decimal(n)
}

/// The frame that carries `body`.
pub open spec fn frame(body: Seq<u8>) -> Seq<u8> {
    vstd::utf8::encode_utf8(header_text(body.len()) + "\r\n\r\n"@) + body
}

/// The frame that carries `body`.
pub fn encode_frame(body: &[u8]) -> (r: Vec<u8>)
    ensures
        r@ == frame(body@),
{
    let mut header = chars_of("Content-Length: ");
    let digits = decimal_chars(body.len() as u64);
    extend_chars(&mut header, &digits);
    extend_str(&mut header, "\r\n\r\n");
    let header_string = string_of(&header);
    let mut out: Vec<u8> = Vec::new();
    let bytes: &[u8] = header_string.as_str().as_bytes();
    copy_bytes(&mut out, bytes);
    copy_bytes(&mut out, body);
    out
}

fn copy_bytes(out: &mut Vec<u8>, s: &[u8])
    ensures
        final(out)@ == old(out)@ + s@,
{
    let mut i: usize = 0;
    while i < s.len()
        invariant
            i <= s@.len(),
            out@ == old(out)@ + s@.take(i as int),
        decreases s@.len() - i,
    {
        out.push(s[i]);
        i = i + 1;
        assert(s@.take(i as int) =~= s@.take(i - 1).push(s@[i - 1]));
    }
    assert(s@.take(s@.len() as int) =~= s@);
}

// ---------------------------------------------------------------------------
// Laws
// ---------------------------------------------------------------------------

proof fn header_is_ascii(n: nat)
    ensures
        vstd::utf8::is_ascii_chars(header_text(n)),
        header_text(n).len() >= 17,
        forall|i: int| 0 <= i < header_text(n).len() ==> #[trigger] header_text(n)[i] != '\r',
{
    reveal_strlit("Content-Length: ");
    text::number_of_decimal(n);
    let h = header_text(n);
    let d = text::decimal(n);
    assert forall|i: int| 0 <= i < h.len() implies '\0' <= #[trigger] h[i] <= '\u{7f}' && h[i]
        != '\r' by {
        if i >= 16 {
            assert(h[i] == d[i - 16]);
            assert(text::is_digit(d[i - 16]));
        }
    }
}

proof fn header_announces(n: nat)
    requires
        n <= usize::MAX,
    ensures
        announced(header_text(n)) == Ok::<Option<int>, FrameError>(Some(n as int)),
{
    let h = header_text(n);
    let d = text::decimal(n);
    header_is_ascii(n);
    reveal_strlit("Content-Length: ");
    reveal_strlit("Content-Length:");
    reveal_strlit("\r\n");
    text::find_from_is_first(h, "\r\n"@, 0);
    assert(text::find(h, "\r\n"@) is None) by {
        if let Some(k) = text::find(h, "\r\n"@) {
            assert(h.subrange(k, k + 2)[0] == "\r\n"@[0]);
            assert(h[k] == '\r');
        }
    }
    let lines = text::split(h, "\r\n"@);
    assert(lines =~= seq![h]) by {
        assert(h.skip(0) =~= h);
    }
    assert(h.subrange(0, 15) =~= "Content-Length:"@);
    let tail = h.skip(15);
    assert(tail =~= seq![' '] + d);
    text::number_of_decimal(n);
    assert(text::is_digit(d[0]));
    assert(text::is_digit(d[d.len() - 1]));
    assert(tail[0] == ' ');
    assert(tail[1] == d[0]);
    assert(text::skip_white(tail, 1) == 1);
    assert(text::skip_white(tail, 0) == 1);
    assert(text::trim_start(tail) =~= d);
    assert(text::trim_end(d) == d);
    text::parse_of_decimal(n, usize::MAX as int);
    assert(announced_from(lines, 1, Some(n as int)) == Ok::<Option<int>, FrameError>(
        Some(n as int),
    ));
}

/// Reading gives back what was written: a frame followed by any bytes yields
/// its body and leaves those bytes, whether or not a refused frame came before.
pub proof fn frame_read_back(body: Seq<u8>, rest: Seq<u8>, resync: bool)
    requires
        body.len() <= MAX_DAP_FRAME_BYTES,
    ensures
        frame_step(frame(body) + rest, resync) == (FrameStep {
            result: Ok(Some(body)),
            rest: rest,
            resync: false,
        }),
{
    let n = body.len();
    let h = header_text(n);
    let k = h.len() as int;
    let full = h + "\r\n\r\n"@;
    let inbox = frame(body) + rest;
    marks();
    header_is_ascii(n);
    reveal_strlit("\r\n\r\n");
    assert(vstd::utf8::is_ascii_chars(full));
    vstd::utf8::is_ascii_chars_encode_utf8(full);
    vstd::utf8::is_ascii_chars_encode_utf8(h);
    assert forall|i: int| 0 <= i < h.len() implies inbox[i] == h[i] as u8 && inbox[i] != 13u8 by {
        assert(full[i] == h[i]);
        assert(h[i] != '\r');
    }
    assert(full[k] as u8 == 13 && full[k + 1] as u8 == 10 && full[k + 2] as u8 == 13 && full[k
        + 3] as u8 == 10);
    assert(inbox.subrange(k, k + 4) =~= terminator());
    assert forall|j: int| 0 <= j < h.len() implies !text::occurs_at(inbox, terminator(), j) by {
        if text::occurs_at(inbox, terminator(), j) {
            assert(inbox.subrange(j, j + 4)[0] == 13u8);
            assert(inbox[j] == 13u8);
        }
    }
    text::first_is_find_from(inbox, terminator(), 0, k);
    text::number_of_decimal(n);
    decimal_is_short(n);
    reveal_strlit("Content-Length: ");
    assert(inbox.take(k) =~= vstd::utf8::encode_utf8(h));
    vstd::utf8::encode_utf8_valid_utf8(h);
    vstd::utf8::encode_utf8_decode_utf8(h);
    header_announces(n);
    assert(inbox.subrange(k + 4, k + 4 + n) =~= body);
    assert(inbox.skip(k + 4 + n) =~= rest);
    assert(header_step(inbox) == (FrameStep {
        result: Ok(Some(body)),
        rest: rest,
        resync: false,
    }));
    if resync {
        reveal_strlit("Content-Length:");
        vstd::utf8::is_ascii_chars_encode_utf8("Content-Length:"@);
        assert(inbox.subrange(0, 15) =~= marker()) by {
            assert forall|i: int| 0 <= i < 15 implies inbox[i] == marker()[i] by {
                assert(h[i] == "Content-Length:"@[i]);
            }
        }
        text::first_is_find_from(inbox, marker(), 0, 0);
        assert(inbox.skip(0) =~= inbox);
    }
}

/// The decimal form of a length that a frame may have is short.
proof fn decimal_is_short(n: nat)
    requires
        n <= MAX_DAP_FRAME_BYTES,
    ensures
        text::decimal(n).len() <= 7,
{
    reveal_with_fuel(text::decimal, 8);
}

/// Bytes that arrive later do not change what was already complete: a frame
/// that can be read is read in the same way with more bytes behind it.
pub proof fn later_bytes_keep_a_frame(inbox: Seq<u8>, more: Seq<u8>, resync: bool)
    requires
        frame_step(inbox, resync).result matches Ok(Some(_)),
    ensures
        frame_step(inbox + more, resync) == (FrameStep {
            result: frame_step(inbox, resync).result,
            rest: frame_step(inbox, resync).rest + more,
            resync: frame_step(inbox, resync).resync,
        }),
{
    marks();
    if resync {
        find_extends(inbox, more, marker());
        text::find_from_is_first(inbox, marker(), 0);
        let i = text::find(inbox, marker())->0;
        assert(inbox.skip(i) + more =~= (inbox + more).skip(i));
        header_extends(inbox.skip(i), more);
    } else {
        header_extends(inbox, more);
    }
}

proof fn find_extends(s: Seq<u8>, more: Seq<u8>, p: Seq<u8>)
    requires
        text::find(s, p) is Some,
    ensures
        text::find(s + more, p) == text::find(s, p),
{
    text::find_from_is_first(s, p, 0);
    let k = text::find(s, p)->0;
    let t = s + more;
    assert(t.subrange(k, k + p.len()) =~= s.subrange(k, k + p.len()));
    assert forall|j: int| 0 <= j < k implies !text::occurs_at(t, p, j) by {
        assert(t.subrange(j, j + p.len()) =~= s.subrange(j, j + p.len()));
        assert(!text::occurs_at(s, p, j));
    }
    text::first_is_find_from(t, p, 0, k);
}

proof fn header_extends(inbox: Seq<u8>, more: Seq<u8>)
    requires
        header_step(inbox).result matches Ok(Some(_)),
    ensures
        header_step(inbox + more) == (FrameStep {
            result: header_step(inbox).result,
            rest: header_step(inbox).rest + more,
            resync: header_step(inbox).resync,
        }),
{
    marks();
    find_extends(inbox, more, terminator());
    text::find_from_is_first(inbox, terminator(), 0);
    let h = text::find(inbox, terminator())->0;
    let t = inbox + more;
    assert(t.take(h) =~= inbox.take(h));
    let n = announced(vstd::utf8::decode_utf8(inbox.take(h)))->Ok_0->0;
    announced_is_natural(text::split(vstd::utf8::decode_utf8(inbox.take(h)), "\r\n"@), 0, None);
    assert(t.subrange(h + 4, h + 4 + n) =~= inbox.subrange(h + 4, h + 4 + n));
    assert(t.skip(h + 4 + n) =~= inbox.skip(h + 4 + n) + more);
}

proof fn announced_is_natural(lines: Seq<Seq<char>>, k: int, found: Option<int>)
    requires
        found matches Some(n) ==> 0 <= n,
    ensures
        announced_from(lines, k, found) matches Ok(Some(n)) ==> 0 <= n,
    decreases lines.len() - k,
{
    if 0 <= k < lines.len() {
        let rest = text::trim(lines[k].skip("Content-Length:"@.len() as int));
        if text::starts_with(lines[k], "Content-Length:"@) {
            if found is None {
                if let Some(n) = text::parse_unsigned(rest, usize::MAX as int) {
                    text::parse_is_natural(rest, usize::MAX as int);
                    announced_is_natural(lines, k + 1, Some(n));
                }
            }
        } else {
            announced_is_natural(lines, k + 1, found);
        }
    }
}

/// A refused header costs exactly the bytes up to its end: what follows the
/// first terminator is kept.
pub proof fn refused_header_keeps_what_follows(inbox: Seq<u8>)
    requires
        text::find(inbox, terminator()) is Some,
        frame_step(inbox, false).result is Err,
    ensures
        frame_step(inbox, false).rest == inbox.skip(text::find(inbox, terminator())->0 + 4),
{
    marks();
}

/// Waiting for more bytes loses none of them.
pub proof fn waiting_keeps_the_inbox(inbox: Seq<u8>)
    requires
        frame_step(inbox, false).result == Ok::<Option<Seq<u8>>, FrameError>(None),
    ensures
        frame_step(inbox, false).rest == inbox,
        !frame_step(inbox, false).resync,
{
}

/// While the next header is being looked for, what is kept is shorter than the
/// marker that opens a header, however much has arrived.
pub proof fn resynchronizing_is_bounded(inbox: Seq<u8>)
    requires
        frame_step(inbox, true).resync,
        frame_step(inbox, true).result is Ok,
    ensures
        frame_step(inbox, true).rest.len() < marker().len(),
{
    marks();
}

/// Every step that yields a frame, and every refusal but one, shortens the
/// inbox. The one left out is a header without end that begins with the marker
/// and repeats it nowhere: nothing of it is dropped.
pub proof fn steps_make_progress(inbox: Seq<u8>)
    requires
        !(text::find(inbox, terminator()) is None && text::rfind(inbox, marker()) == Some(0int)),
        frame_step(inbox, false).result != Ok::<Option<Seq<u8>>, FrameError>(None),
    ensures
        frame_step(inbox, false).rest.len() < inbox.len(),
{
    marks();
    text::find_from_is_first(inbox, terminator(), 0);
    text::rfind_from_is_last(inbox, marker(), inbox.len() - marker().len());
    if let Some(h) = text::find(inbox, terminator()) {
        announced_is_natural(
            text::split(vstd::utf8::decode_utf8(inbox.take(h)), "\r\n"@),
            0,
            None,
        );
    }
}

/// A line that announces a length, with white space round the number.
pub open spec fn announces(line: Seq<char>, n: nat) -> bool {
    exists|a: Seq<char>, b: Seq<char>|
        #![trigger a + text::decimal(n) + b]
        line == "Content-Length:"@ + (a + text::decimal(n) + b) && text::trim(
            a + text::decimal(n) + b,
        ) == text::decimal(n)
}

proof fn a_length_is_read(line: Seq<char>, n: nat)
    requires
        announces(line, n),
        n <= usize::MAX,
    ensures
        text::starts_with(line, "Content-Length:"@),
        text::parse_unsigned(
            text::trim(line.skip("Content-Length:"@.len() as int)),
            usize::MAX as int,
        ) == Some(n as int),
{
    let h = "Content-Length:"@;
    let (a, b) = choose|a: Seq<char>, b: Seq<char>|
        #![trigger a + text::decimal(n) + b]
        line == h + (a + text::decimal(n) + b) && text::trim(a + text::decimal(n) + b)
            == text::decimal(n);
    assert(line.subrange(0, h.len() as int) == h);
    assert(line.skip(h.len() as int) == a + text::decimal(n) + b);
    text::parse_of_decimal(n, usize::MAX as int);
}

proof fn lines_without_a_length(lines: Seq<Seq<char>>, i: int, k: int, found: Option<int>)
    requires
        0 <= i <= k <= lines.len(),
        forall|j: int|
            i <= j < k ==> !text::starts_with(#[trigger] lines[j], "Content-Length:"@),
    ensures
        announced_from(lines, i, found) == announced_from(lines, k, found),
    decreases k - i,
{
    if i < k {
        lines_without_a_length(lines, i + 1, k, found);
    }
}

/// The one line that announces a length counts, wherever it stands among the
/// lines of the header. Without one there is none.
pub proof fn the_length_may_stand_in_any_line(lines: Seq<Seq<char>>, k: int, n: nat)
    requires
        0 <= k <= lines.len(),
        n <= usize::MAX,
        k < lines.len() ==> announces(lines[k], n),
        forall|j: int|
            0 <= j < lines.len() && j != k ==> !text::starts_with(
                #[trigger] lines[j],
                "Content-Length:"@,
            ),
    ensures
        announced_from(lines, 0, None) == if k < lines.len() {
            Ok::<Option<int>, FrameError>(Some(n as int))
        } else {
            Ok(None)
        },
{
    lines_without_a_length(lines, 0, k, None);
    if k < lines.len() {
        a_length_is_read(lines[k], n);
        lines_without_a_length(lines, k + 1, lines.len() as int, Some(n as int));
    }
}

/// A second length is refused, even where it is the same one.
pub proof fn a_second_length_is_refused(lines: Seq<Seq<char>>, i: int, j: int, n: nat)
    requires
        0 <= i < j < lines.len(),
        n <= usize::MAX,
        announces(lines[i], n),
        text::starts_with(lines[j], "Content-Length:"@),
        forall|k: int|
            0 <= k < j && k != i ==> !text::starts_with(#[trigger] lines[k], "Content-Length:"@),
    ensures
        announced_from(lines, 0, None) == Err::<Option<int>, FrameError>(
            FrameError::DuplicateLength,
        ),
{
    lines_without_a_length(lines, 0, i, None);
    a_length_is_read(lines[i], n);
    lines_without_a_length(lines, i + 1, j, Some(n as int));
}

/// After a frame was refused for its length, whatever stands before the next
/// header is dropped, and the frame behind it is read.
pub proof fn the_next_frame_is_found(junk: Seq<u8>, body: Seq<u8>, rest: Seq<u8>)
    requires
        body.len() <= MAX_DAP_FRAME_BYTES,
        text::find(junk + (frame(body) + rest), marker()) == Some(junk.len() as int),
    ensures
        frame_step(junk + (frame(body) + rest), true) == (FrameStep {
            result: Ok(Some(body)),
            rest: rest,
            resync: false,
        }),
{
    let s = junk + (frame(body) + rest);
    assert(s.skip(junk.len() as int) == frame(body) + rest);
    frame_read_back(body, rest, false);
}

/// A body comes out as long as its header says, from right behind the header's
/// end, and what follows it stays.
pub proof fn a_body_is_as_long_as_announced(inbox: Seq<u8>, h: int, n: int)
    requires
        text::find(inbox, terminator()) == Some(h),
        h <= MAX_DAP_HEADER_BYTES,
        vstd::utf8::valid_utf8(inbox.take(h)),
        announced(vstd::utf8::decode_utf8(inbox.take(h))) == Ok::<Option<int>, FrameError>(Some(n)),
        0 <= n,
    ensures
        n > MAX_DAP_FRAME_BYTES ==> frame_step(inbox, false).result == Err::<
            Option<Seq<u8>>,
            FrameError,
        >(FrameError::FrameTooLong) && frame_step(inbox, false).resync,
        n <= MAX_DAP_FRAME_BYTES && inbox.len() < h + 4 + n ==> frame_step(inbox, false).result
            == Ok::<Option<Seq<u8>>, FrameError>(None),
        n <= MAX_DAP_FRAME_BYTES && h + 4 + n <= inbox.len() ==> frame_step(inbox, false).result
            == Ok::<Option<Seq<u8>>, FrameError>(Some(inbox.subrange(h + 4, h + 4 + n)))
            && frame_step(inbox, false).rest == inbox.skip(h + 4 + n),
{
    marks();
}

/// A header ends by the limit: a longer one is refused, whether or not its end
/// has arrived.
pub proof fn a_header_has_a_limit(inbox: Seq<u8>)
    ensures
        text::find(inbox, terminator()) is None && inbox.len() > MAX_DAP_HEADER_BYTES
            ==> frame_step(inbox, false).result == Err::<Option<Seq<u8>>, FrameError>(
            FrameError::HeaderTooLong,
        ),
        text::find(inbox, terminator()) is None && inbox.len() <= MAX_DAP_HEADER_BYTES
            ==> frame_step(inbox, false).result == Ok::<Option<Seq<u8>>, FrameError>(None),
        text::find(inbox, terminator()) is Some && text::find(inbox, terminator())->0
            > MAX_DAP_HEADER_BYTES ==> frame_step(inbox, false).result == Err::<
            Option<Seq<u8>>,
            FrameError,
        >(FrameError::HeaderTooLong),
{
}

} // verus!
