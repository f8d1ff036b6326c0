//! Length-prefixed framing of encoded messages on the control connection:
//! a four-byte big-endian length, then the encoded message.
use vstd::prelude::*;
use crate::text::extend_range;

verus! {

/// The largest frame body accepted on receipt (1 MiB).
pub const MAX_FRAME_LEN: usize = 1048576;

/// Why a frame header was refused.
#[derive(Debug, Clone, Copy, PartialEq, Eq)]
pub enum FrameError {
    /// The announced length exceeds [`MAX_FRAME_LEN`].
    TooLarge(usize),
}

/// Big-endian encoding of a 32-bit value.
pub open spec fn be32(n: nat) -> Seq<u8> {
    seq![
        (n / 16777216 % 256) as u8,
        (n / 65536 % 256) as u8,
        (n / 256 % 256) as u8,
        (n % 256) as u8,
    ]
}

/// Value of four big-endian bytes.
pub open spec fn be32_value(h: Seq<u8>) -> nat {
    (h[0] as nat * 16777216 + h[1] as nat * 65536 + h[2] as nat * 256 + h[3] as nat) as nat
}

/// A framed body: its length (truncated to 32 bits, as the sender casts it)
/// and the body.
pub open spec fn frame_spec(body: Seq<u8>) -> Seq<u8> {
    be32(body.len() % 4294967296) + body
}

/// What a receiver makes of a header: the body length, or a refusal.
pub open spec fn frame_len_spec(h: Seq<u8>) -> Result<usize, FrameError> {
    if be32_value(h) > MAX_FRAME_LEN {
        Err(FrameError::TooLarge(be32_value(h) as usize))
    } else {
        Ok(be32_value(h) as usize)
    }
}

/// Frames an encoded message for sending.
pub fn encode_frame(body: &[u8]) -> (res: Vec<u8>)
    ensures
        res@ == frame_spec(body@),
{
    let n: u64 = (body.len() as u64) % 4294967296;
    let mut out: Vec<u8> = Vec::new();
    out.push((n / 16777216 % 256) as u8);
    out.push((n / 65536 % 256) as u8);
    out.push((n / 256 % 256) as u8);
    out.push((n % 256) as u8);
    extend_range(&mut out, body, 0, body.len());
    assert(body@.subrange(0, body@.len() as int) =~= body@);
    assert(out@ =~= frame_spec(body@));
    out
}

/// The body length announced by a received header.
pub fn frame_len(header: [u8; 4]) -> (res: Result<usize, FrameError>)
    ensures
        res == frame_len_spec(header@),
{
    let len: usize = (header[0] as usize) * 16777216 + (header[1] as usize) * 65536
        + (header[2] as usize) * 256 + (header[3] as usize);
    if len > MAX_FRAME_LEN {
        return Err(FrameError::TooLarge(len));
    }
    Ok(len)
}

/// A framed body of acceptable size is read back as its own length, and the
/// body follows the header unchanged.
pub proof fn lemma_frame_roundtrip(body: Seq<u8>)
    requires
        body.len() <= MAX_FRAME_LEN,
    ensures
        frame_len_spec(frame_spec(body).take(4)) == Ok::<usize, FrameError>(body.len() as usize),
        frame_spec(body).skip(4) == body,
{
    let f = frame_spec(body);
    let n = body.len();
    assert(n % 4294967296 == n);
    assert(f.take(4) =~= be32(n));
    assert(be32_value(be32(n)) == n);
    assert(f.skip(4) =~= body);
}

} // verus!
