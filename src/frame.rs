//! Length-prefixed frames: a big-endian `u32` length followed by that many bytes.
use vstd::prelude::*;
use crate::wire::{be32, u32_at, get_u32, put_u32, lemma_be32_round_trip};

verus! {

/// Why no frame could be read from a buffer.
#[derive(Debug, Clone, Copy, PartialEq, Eq, Structural)]
pub enum FrameError {
    /// The bytes ended before a whole length prefix.
    IoClosed,
    /// The bytes ended before the body that the prefix announced.
    IoTruncated,
}

/// The frame that carries `body`.
pub open spec fn frame_bytes(body: Seq<u8>) -> Seq<u8> {
    be32(body.len() as u32) + body
}

/// The body of the frame at the start of `s`, and how many bytes the frame takes.
pub open spec fn spec_read_frame(s: Seq<u8>) -> Result<(Seq<u8>, int), FrameError> {
    if s.len() < 4 {
        Err(FrameError::IoClosed)
    } else {
        let n = u32_at(s, 0) as int;
        if s.len() - 4 < n {
            Err(FrameError::IoTruncated)
        } else {
            Ok((s.subrange(4, 4 + n), 4 + n))
        }
    }
}

/// Frames `body`: its length as a big-endian `u32`, then the body.
pub fn write_frame(body: &Vec<u8>) -> (r: Vec<u8>)
    requires
        body@.len() <= u32::MAX,
    ensures
        r@ == frame_bytes(body@),
{
    let mut r: Vec<u8> = Vec::new();
    put_u32(&mut r, body.len() as u32);
    let mut i: usize = 0;
    while i < body.len()
        invariant
            0 <= i <= body@.len(),
            r@ == be32(body@.len() as u32) + body@.subrange(0, i as int),
        decreases body@.len() - i,
    {
        r.push(body[i]);
        i += 1;
        assert(r@ =~= be32(body@.len() as u32) + body@.subrange(0, i as int));
    }
    assert(body@.subrange(0, body@.len() as int) =~= body@);
    r
}

/// The length announced by a 4-byte prefix.
pub fn frame_length(prefix: &[u8]) -> (r: Option<u32>)
    ensures
        prefix@.len() == 4 ==> r == Some(u32_at(prefix@, 0)),
        prefix@.len() != 4 ==> r.is_none(),
{
    if prefix.len() == 4 {
        Some(get_u32(prefix, 0))
    } else {
        None
    }
}

/// Reads the frame at the start of `buf`: its body and the number of bytes it takes.
pub fn read_frame(buf: &[u8]) -> (r: Result<(Vec<u8>, usize), FrameError>)
    ensures
        match r {
            Ok((body, used)) => spec_read_frame(buf@) == Ok::<(Seq<u8>, int), FrameError>((body@, used as int)),
            Err(e) => spec_read_frame(buf@) == Err::<(Seq<u8>, int), FrameError>(e),
        },
{
    let len = buf.len();
    if len < 4 {
        return Err(FrameError::IoClosed);
    }
    let n = get_u32(buf, 0) as usize;
    if len - 4 < n {
        return Err(FrameError::IoTruncated);
    }
    let mut body: Vec<u8> = Vec::new();
    let mut i: usize = 0;
    while i < n
        invariant
            0 <= i <= n,
            4 + n <= buf@.len(),
            len == buf@.len(),
            body@ == buf@.subrange(4, 4 + i as int),
        decreases n - i,
    {
        body.push(buf[4 + i]);
        i += 1;
        assert(body@ =~= buf@.subrange(4, 4 + i as int));
    }
    Ok((body, 4 + n))
}

/// Reading the frame that `write_frame` makes of `body` gives back `body` and
/// consumes the whole frame, whatever follows it.
pub proof fn lemma_frame_round_trip(body: Seq<u8>, rest: Seq<u8>)
    requires
        body.len() <= u32::MAX,
    ensures
        spec_read_frame(frame_bytes(body) + rest) == Ok::<(Seq<u8>, int), FrameError>((body, body.len() + 4int)),
{
    let s = frame_bytes(body) + rest;
    let v = body.len() as u32;
    let b = be32(v);
    lemma_be32_round_trip(v);
    assert(b.len() == 4);
    assert(s[0] == b[0]);
    assert(s[1] == b[1]);
    assert(s[2] == b[2]);
    assert(s[3] == b[3]);
    assert(u32_at(s, 0) == u32_at(b, 0));
    assert(s.subrange(4, 4 + body.len() as int) =~= body);
}

}
