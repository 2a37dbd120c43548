//! Length-prefixed frames on a byte stream: a 4-byte big-endian length, then
//! exactly that many bytes of body.

use vstd::prelude::*;
use vstd::slice::{slice_subrange, slice_to_vec};

verus! {

/// Largest body a frame may declare; a larger prefix is refused before any
/// allocation is made for it.
pub const MAX_FRAME_LEN: u32 = 268435456;

/// Number of bytes in the length prefix.
pub const HEADER_LEN: usize = 4;

/// Why a frame could not be read.
#[derive(Debug, Clone, Copy, PartialEq, Eq, Structural)]
pub enum FrameError {
    /// The stream ended before any byte of the frame.
    ConnectionClosed,
    /// The stream ended inside the prefix or inside the body.
    Truncated,
    /// The prefix declares a body longer than `MAX_FRAME_LEN`.
    Oversized,
}

/// The four big-endian bytes of `n`.
pub open spec fn be_bytes(n: u32) -> Seq<u8> {
    seq![(n >> 24u32) as u8, (n >> 16u32) as u8, (n >> 8u32) as u8, n as u8]
}

/// The number that four big-endian bytes stand for.
pub open spec fn be_value(b0: u8, b1: u8, b2: u8, b3: u8) -> u32 {
    ((b0 as u32) << 24u32) | ((b1 as u32) << 16u32) | ((b2 as u32) << 8u32) | (b3 as u32)
}

/// The length declared by the first four bytes of `buf`.
pub open spec fn declared_len(buf: Seq<u8>) -> u32
    recommends
        buf.len() >= 4,
{
    be_value(buf[0], buf[1], buf[2], buf[3])
}

/// The frame that carries `body`.
pub open spec fn frame_of(body: Seq<u8>) -> Seq<u8> {
    be_bytes(body.len() as u32) + body
}

/// What reading one frame from the start of `buf` gives: the body and the
/// number of bytes the frame took, or why there is none.
pub open spec fn parse_spec(buf: Seq<u8>) -> Result<(Seq<u8>, int), FrameError> {
    if buf.len() == 0 {
        Err(FrameError::ConnectionClosed)
    } else if buf.len() < 4 {
        Err(FrameError::Truncated)
    } else if declared_len(buf) > MAX_FRAME_LEN {
        Err(FrameError::Oversized)
    } else if buf.len() - 4 < declared_len(buf) {
        Err(FrameError::Truncated)
    } else {
        Ok((buf.subrange(4, 4 + declared_len(buf)), 4 + declared_len(buf)))
    }
}

proof fn lemma_be_round_trip(n: u32)
    ensures
        be_value((n >> 24u32) as u8, (n >> 16u32) as u8, (n >> 8u32) as u8, n as u8) == n,
{
    assert(((((n >> 24u32) as u8) as u32) << 24u32) | ((((n >> 16u32) as u8) as u32) << 16u32)
        | ((((n >> 8u32) as u8) as u32) << 8u32) | ((n as u8) as u32) == n) by (bit_vector);
}

/// The big-endian length prefix of `n`.
pub fn length_prefix(n: u32) -> (r: [u8; 4])
    ensures
        r@ == be_bytes(n),
{
    let r = [(n >> 24u32) as u8, (n >> 16u32) as u8, (n >> 8u32) as u8, n as u8];
    assert(r@ =~= be_bytes(n));
    r
}

/// The body length declared by a frame's prefix, refused when over the cap.
pub fn frame_length(header: &[u8; 4]) -> (r: Result<usize, FrameError>)
    ensures
        declared_len(header@) > MAX_FRAME_LEN ==> r == Err::<usize, FrameError>(
            FrameError::Oversized,
        ),
        declared_len(header@) <= MAX_FRAME_LEN ==> r == Ok::<usize, FrameError>(
            declared_len(header@) as usize,
        ),
{
    let n: u32 = ((header[0] as u32) << 24u32) | ((header[1] as u32) << 16u32) | ((
    header[2] as u32) << 8u32) | (header[3] as u32);
    if n > MAX_FRAME_LEN {
        Err(FrameError::Oversized)
    } else {
        Ok(n as usize)
    }
}

/// The frame that carries `body`, refused when the body is over the cap.
pub fn encode_frame(body: &[u8]) -> (r: Result<Vec<u8>, FrameError>)
    ensures
        body@.len() <= MAX_FRAME_LEN ==> r is Ok && r->Ok_0@ == frame_of(body@),
        body@.len() > MAX_FRAME_LEN ==> r == Err::<Vec<u8>, FrameError>(FrameError::Oversized),
{
    if body.len() > MAX_FRAME_LEN as usize {
        return Err(FrameError::Oversized);
    }
    let prefix = length_prefix(body.len() as u32);
    let mut out: Vec<u8> = Vec::with_capacity(HEADER_LEN + body.len());
    out.extend_from_slice(&prefix);
    out.extend_from_slice(body);
    assert(out@ =~= frame_of(body@));
    Ok(out)
}

/// Reads one frame from the start of `buf`: its body and the number of bytes
/// it took. A prefix that declares more than `buf` holds is `Truncated`.
pub fn parse_frame(buf: &[u8]) -> (r: Result<(Vec<u8>, usize), FrameError>)
    ensures
        r matches Ok((body, used)) ==> parse_spec(buf@) == Ok::<(Seq<u8>, int), FrameError>(
            (body@, used as int),
        ),
        r matches Err(e) ==> parse_spec(buf@) == Err::<(Seq<u8>, int), FrameError>(e),
{
    if buf.len() == 0 {
        return Err(FrameError::ConnectionClosed);
    }
    if buf.len() < HEADER_LEN {
        return Err(FrameError::Truncated);
    }
    let header: [u8; 4] = [buf[0], buf[1], buf[2], buf[3]];
    assert(header@ =~= buf@.subrange(0, 4));
    let len = match frame_length(&header) {
        Ok(len) => len,
        Err(e) => {
            return Err(e);
        },
    };
    if buf.len() - HEADER_LEN < len {
        return Err(FrameError::Truncated);
    }
    let body = slice_to_vec(slice_subrange(buf, HEADER_LEN, HEADER_LEN + len));
    Ok((body, HEADER_LEN + len))
}

/// Reading back a frame written by `encode_frame` gives its body, whatever
/// follows it on the stream.
pub proof fn lemma_frame_round_trip(body: Seq<u8>, rest: Seq<u8>)
    requires
        body.len() <= MAX_FRAME_LEN,
    ensures
        parse_spec(frame_of(body) + rest) == Ok::<(Seq<u8>, int), FrameError>(
            (body, 4 + body.len() as int),
        ),
{
    let buf = frame_of(body) + rest;
    let n = body.len() as u32;
    lemma_be_round_trip(n);
    assert(buf[0] == (n >> 24u32) as u8);
    assert(buf[1] == (n >> 16u32) as u8);
    assert(buf[2] == (n >> 8u32) as u8);
    assert(buf[3] == n as u8);
    assert(declared_len(buf) == n);
    assert(buf.subrange(4, 4 + body.len() as int) =~= body);
}

/// A prefix that declares more bytes than the stream still holds never yields
/// a body: reading fails.
pub proof fn lemma_truncated_frame_fails(buf: Seq<u8>)
    requires
        buf.len() >= 4,
        declared_len(buf) > buf.len() - 4,
    ensures
        parse_spec(buf) is Err,
{
}

} // verus!
