//! Reading the files that profilers leave, up to a limit.

use vstd::prelude::*;

use crate::text;
use crate::text::{decimal_chars, extend_chars, extend_str, string_of};

verus! {

/// The largest file that is imported.
pub const MAX_IMPORT_BYTES: u64 = 268435456;

/// How many bytes are asked for at once.
pub const CHUNK_BYTES: u64 = 8192;

/// Why a file is refused before it is read.
pub open spec fn too_large_text(kind: Seq<char>, path: Seq<char>, size: nat) -> Seq<char> {
    kind + " "@ + path + " is too large ("@ + text::decimal(size) + " bytes; maximum is "@
        + text::decimal(MAX_IMPORT_BYTES as nat) + ")"@
}

/// Checks the size that a file is said to have.
pub fn check_import_size(kind: &str, path: &str, size: u64) -> (r: Result<(), String>)
    ensures
        match r {
            Ok(_) => size <= MAX_IMPORT_BYTES,
            Err(e) => size > MAX_IMPORT_BYTES && e@ == too_large_text(kind@, path@, size as nat),
        },
{
    if size <= MAX_IMPORT_BYTES {
        return Ok(());
    }
    let mut out: Vec<char> = Vec::new();
    extend_str(&mut out, kind);
    extend_str(&mut out, " ");
    extend_str(&mut out, path);
    extend_str(&mut out, " is too large (");
    extend_chars(&mut out, &decimal_chars(size));
    extend_str(&mut out, " bytes; maximum is ");
    extend_chars(&mut out, &decimal_chars(MAX_IMPORT_BYTES));
    extend_str(&mut out, ")");
    assert(out@ =~= too_large_text(kind@, path@, size as nat));
    Err(string_of(&out))
}

/// What came of the bytes that were asked for.
#[derive(Debug, Clone, Copy, PartialEq, Eq, Structural)]
pub enum Progress {
    More,
    Complete,
    /// The file is longer than the limit.
    TooLong,
}

/// How many bytes to ask for: what is left up to the limit, in chunks. At the
/// limit one byte is asked for, to see whether the file goes on.
pub open spec fn asked(bytes: Seq<u8>, limit: nat) -> int {
    let left = limit - bytes.len();
    if left == 0 {
        1
    } else if left < CHUNK_BYTES {
        left
    } else {
        CHUNK_BYTES as int
    }
}

/// What came of a chunk, and what is kept then. An empty one is the end of the
/// file.
pub open spec fn supplied(bytes: Seq<u8>, limit: nat, chunk: Seq<u8>) -> (Progress, Seq<u8>) {
    if chunk.len() == 0 {
        (Progress::Complete, bytes)
    } else if bytes.len() >= limit {
        (Progress::TooLong, bytes)
    } else {
        (Progress::More, bytes + chunk)
    }
}

/// A file that is being read. It may grow meanwhile: not more than the limit
/// is ever kept.
#[derive(Debug)]
pub struct BoundedRead {
    pub limit: u64,
    pub bytes: Vec<u8>,
}

impl BoundedRead {
    pub open spec fn within_limit(self) -> bool {
        self.bytes@.len() <= self.limit
    }

    pub fn new(limit: u64) -> (r: BoundedRead)
        ensures
            r.limit == limit,
            r.bytes@ == Seq::<u8>::empty(),
            r.within_limit(),
    {
        BoundedRead { limit, bytes: Vec::new() }
    }

    /// How many bytes to ask for.
    pub fn wanted(&self) -> (r: usize)
        requires
            self.within_limit(),
        ensures
            r == asked(self.bytes@, self.limit as nat),
    {
        let left: u64 = self.limit - self.bytes.len() as u64;
        if left == 0 {
            1
        } else if left < CHUNK_BYTES {
            left as usize
        } else {
            CHUNK_BYTES as usize
        }
    }

    /// Takes what was read; nothing at the end of the file.
    pub fn supply(&mut self, chunk: &[u8]) -> (r: Progress)
        requires
            old(self).within_limit(),
            chunk@.len() <= asked(old(self).bytes@, old(self).limit as nat),
        ensures
            final(self).within_limit(),
            final(self).limit == old(self).limit,
            (r, final(self).bytes@) == supplied(old(self).bytes@, old(self).limit as nat, chunk@),
    {
        if chunk.len() == 0 {
            return Progress::Complete;
        }
        if self.bytes.len() as u64 == self.limit {
            return Progress::TooLong;
        }
        let ghost start = self.bytes@;
        let mut i: usize = 0;
        assert(self.bytes@ =~= start + chunk@.take(0));
        while i < chunk.len()
            invariant
                i <= chunk@.len(),
                self.limit == old(self).limit,
                start == old(self).bytes@,
                self.bytes@ == start + chunk@.take(i as int),
            decreases chunk@.len() - i,
        {
            self.bytes.push(chunk[i]);
            i = i + 1;
            assert(self.bytes@ =~= start + chunk@.take(i as int));
        }
        assert(chunk@.take(i as int) =~= chunk@);
        Progress::More
    }
}

/// What is kept of a file that comes in these chunks.
pub open spec fn fed(bytes: Seq<u8>, limit: nat, chunks: Seq<Seq<u8>>) -> Option<Seq<u8>>
    decreases chunks.len(),
{
    if chunks.len() == 0 {
        Some(bytes)
    } else {
        match supplied(bytes, limit, chunks[0]) {
            (Progress::More, more) => fed(more, limit, chunks.skip(1)),
            (Progress::Complete, _) => Some(bytes),
            (Progress::TooLong, _) => None,
        }
    }
}

/// Each chunk holds something, and not more than was asked for.
pub open spec fn answers(bytes: Seq<u8>, limit: nat, chunks: Seq<Seq<u8>>) -> bool
    decreases chunks.len(),
{
    chunks.len() > 0 ==> {
        &&& 0 < chunks[0].len() <= asked(bytes, limit)
        &&& answers(bytes + chunks[0], limit, chunks.skip(1))
    }
}

/// In whatever chunks a file comes, it is read whole if, and only if, it is
/// not longer than the limit.
pub proof fn files_up_to_the_limit_are_read(bytes: Seq<u8>, limit: nat, chunks: Seq<Seq<u8>>)
    requires
        bytes.len() <= limit,
        answers(bytes, limit, chunks),
    ensures
        fed(bytes, limit, chunks) == (if bytes.len() + chunks.flatten().len() <= limit {
            Some(bytes + chunks.flatten())
        } else {
            None
        }),
    decreases chunks.len(),
{
    if chunks.len() == 0 {
        assert(bytes + chunks.flatten() =~= bytes);
    } else {
        assert(chunks.drop_first() =~= chunks.skip(1));
        assert(chunks.flatten() == chunks[0] + chunks.skip(1).flatten());
        if bytes.len() < limit {
            files_up_to_the_limit_are_read(bytes + chunks[0], limit, chunks.skip(1));
            assert(bytes + chunks[0] + chunks.skip(1).flatten() =~= bytes + chunks.flatten());
        }
    }
}

/// Why a file is refused while it is read.
pub open spec fn grew_text(kind: Seq<char>, path: Seq<char>, limit: nat) -> Seq<char> {
    kind + " "@ + path + " grew beyond the maximum input size of "@ + text::decimal(limit)
        + " bytes"@
}

pub fn grew_message(kind: &str, path: &str, limit: u64) -> (r: String)
    ensures
        r@ == grew_text(kind@, path@, limit as nat),
{
    let mut out: Vec<char> = Vec::new();
    extend_str(&mut out, kind);
    extend_str(&mut out, " ");
    extend_str(&mut out, path);
    extend_str(&mut out, " grew beyond the maximum input size of ");
    extend_chars(&mut out, &decimal_chars(limit));
    extend_str(&mut out, " bytes");
    assert(out@ =~= grew_text(kind@, path@, limit as nat));
    string_of(&out)
}

/// A refusal names the kind of the file and its path, and tells how large it is
/// or how large it may be.
pub proof fn a_refusal_tells_the_sizes(kind: Seq<char>, path: Seq<char>, size: nat)
    ensures
        text::contains(too_large_text(kind, path, size), path),
        text::contains(too_large_text(kind, path, size), "("@ + text::decimal(size) + " bytes"@),
        text::starts_with(too_large_text(kind, path, size), kind),
        text::starts_with(grew_text(kind, path, size), kind),
        text::contains(grew_text(kind, path, size), path),
        text::ends_with(grew_text(kind, path, size), text::decimal(size) + " bytes"@),
        MAX_IMPORT_BYTES == 256 * 1024 * 1024,
{
    reveal_strlit(" is too large (");
    reveal_strlit(" is too large ");
    reveal_strlit("(");
    reveal_strlit(" bytes; maximum is ");
    reveal_strlit("; maximum is ");
    reveal_strlit(" bytes");
    let t = too_large_text(kind, path, size);
    let d = text::decimal(size);
    let limit = text::decimal(MAX_IMPORT_BYTES as nat);
    text::what_is_found_stands_there(t, path);
    assert(t == (kind + " "@) + path + (" is too large ("@ + d + " bytes; maximum is "@ + limit
        + ")"@));
    let p = "("@ + d + " bytes"@;
    text::what_is_found_stands_there(t, p);
    assert(" is too large ("@ == " is too large "@ + "("@);
    assert(" bytes; maximum is "@ == " bytes"@ + "; maximum is "@);
    assert(t == (kind + " "@ + path + " is too large "@) + p + ("; maximum is "@ + limit + ")"@));
    assert(t.subrange(0, kind.len() as int) == kind);
    let g = grew_text(kind, path, size);
    let last = d + " bytes"@;
    text::what_is_found_stands_there(g, path);
    assert(g == (kind + " "@) + path + (" grew beyond the maximum input size of "@ + last));
    assert(g.subrange(0, kind.len() as int) == kind);
    assert(g.subrange(g.len() - last.len(), g.len() as int) == last);
}

/// Something is always asked for: not more than is left up to the limit, and
/// one byte at the limit, so that a file that goes on is seen.
pub proof fn something_is_always_asked_for(bytes: Seq<u8>, limit: nat)
    requires
        bytes.len() <= limit,
    ensures
        bytes.len() == limit ==> asked(bytes, limit) == 1,
        bytes.len() < limit ==> 0 < asked(bytes, limit) <= limit - bytes.len(),
        asked(bytes, limit) <= CHUNK_BYTES,
        limit - bytes.len() >= CHUNK_BYTES ==> asked(bytes, limit) == CHUNK_BYTES,
        0 < limit - bytes.len() < CHUNK_BYTES ==> asked(bytes, limit) == limit - bytes.len(),
{
}

} // verus!
