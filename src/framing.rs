//! Wire framing of the byte-stream handler: a 4-byte big-endian length, then
//! that many bytes of payload.

use vstd::prelude::*;
use crate::handler::ChoreographyError;

verus! {

/// The four big-endian bytes of `n`.
pub open spec fn be32(n: u32) -> Seq<u8> {
    seq![((n >> 24u32) & 0xffu32) as u8, ((n >> 16u32) & 0xffu32) as u8, ((n >> 8u32) & 0xffu32) as u8, (n & 0xffu32) as u8]
}

/// The number that four big-endian bytes stand for.
pub open spec fn be32_value(b0: u8, b1: u8, b2: u8, b3: u8) -> u32 {
    ((b0 as u32) << 24u32) | ((b1 as u32) << 16u32) | ((b2 as u32) << 8u32) | (b3 as u32)
}

/// The frame of a payload: its length, big-endian, then the payload.
pub open spec fn frame(payload: Seq<u8>) -> Seq<u8>
    recommends
        payload.len() <= u32::MAX,
{
    be32(payload.len() as u32) + payload
}

proof fn lemma_be32_round_trip(n: u32)
    ensures
        be32_value(be32(n)[0], be32(n)[1], be32(n)[2], be32(n)[3]) == n,
{
    let b0 = ((n >> 24u32) & 0xffu32) as u8;
    let b1 = ((n >> 16u32) & 0xffu32) as u8;
    let b2 = ((n >> 8u32) & 0xffu32) as u8;
    let b3 = (n & 0xffu32) as u8;
    assert(((((n >> 24u32) & 0xffu32) as u8) as u32) == ((n >> 24u32) & 0xffu32)) by (bit_vector);
    assert(((((n >> 16u32) & 0xffu32) as u8) as u32) == ((n >> 16u32) & 0xffu32)) by (bit_vector);
    assert(((((n >> 8u32) & 0xffu32) as u8) as u32) == ((n >> 8u32) & 0xffu32)) by (bit_vector);
    assert((((n & 0xffu32) as u8) as u32) == (n & 0xffu32)) by (bit_vector);
    assert((((n >> 24u32) & 0xffu32) << 24u32) | (((n >> 16u32) & 0xffu32) << 16u32) | (((n >> 8u32)
        & 0xffu32) << 8u32) | (n & 0xffu32) == n) by (bit_vector);
}

/// Frames a payload; a payload longer than `u32::MAX` bytes cannot be framed.
pub fn encode_frame(payload: &[u8]) -> (r: Result<Vec<u8>, ChoreographyError>)
    ensures
        payload@.len() <= u32::MAX ==> (r matches Ok(v) && v@ == frame(payload@)),
        payload@.len() > u32::MAX ==> r matches Err(ChoreographyError::Serialization(_)),
{
    if payload.len() > 0xffff_ffffusize {
        return Err(ChoreographyError::Serialization("payload too large for a frame".to_owned()));
    }
    let n = payload.len() as u32;
    let mut out: Vec<u8> = Vec::new();
    out.push(((n >> 24u32) & 0xffu32) as u8);
    out.push(((n >> 16u32) & 0xffu32) as u8);
    out.push(((n >> 8u32) & 0xffu32) as u8);
    out.push((n & 0xffu32) as u8);
    let mut i: usize = 0;
    while i < payload.len()
        invariant
            0 <= i <= payload.len(),
            out@ == be32(n) + payload@.subrange(0, i as int),
        decreases payload.len() - i,
    {
        out.push(payload[i]);
        i = i + 1;
        assert(out@ =~= be32(n) + payload@.subrange(0, i as int));
    }
    assert(payload@.subrange(0, i as int) =~= payload@);
    Ok(out)
}

/// Reads the first frame of `buf`: its payload and the number of bytes the
/// frame takes, or `None` where `buf` does not yet hold a whole frame.
pub fn decode_frame(buf: &[u8]) -> (r: Option<(Vec<u8>, usize)>)
    ensures
        buf@.len() < 4 ==> r is None,
        buf@.len() >= 4 ==> ({
            let n = be32_value(buf@[0], buf@[1], buf@[2], buf@[3]) as int;
            &&& buf@.len() < 4 + n ==> r is None
            &&& buf@.len() >= 4 + n ==> (r matches Some((p, used)) && used == 4 + n && p@ == buf@.subrange(
                4,
                4 + n,
            ))
        }),
{
    if buf.len() < 4 {
        return None;
    }
    let n: u32 = ((buf[0] as u32) << 24u32) | ((buf[1] as u32) << 16u32) | ((buf[2] as u32) << 8u32) | (
    buf[3] as u32);
    let len = n as usize;
    if buf.len() - 4 < len {
        return None;
    }
    let mut payload: Vec<u8> = Vec::new();
    let mut i: usize = 0;
    while i < len
        invariant
            0 <= i <= len,
            4 + len <= buf.len(),
            payload@ == buf@.subrange(4, 4 + i),
        decreases len - i,
    {
        payload.push(buf[4 + i]);
        i = i + 1;
        assert(payload@ =~= buf@.subrange(4, 4 + i));
    }
    Some((payload, 4 + len))
}

/// Decoding a frame gives back the payload that was framed, whatever follows it.
pub proof fn lemma_frame_round_trip(payload: Seq<u8>, rest: Seq<u8>)
    requires
        payload.len() <= u32::MAX,
    ensures
        ({
            let buf = frame(payload) + rest;
            &&& be32_value(buf[0], buf[1], buf[2], buf[3]) == payload.len()
            &&& buf.subrange(4, 4 + payload.len() as int) == payload
        }),
{
    let n = payload.len() as u32;
    lemma_be32_round_trip(n);
    let buf = frame(payload) + rest;
    assert(buf[0] == be32(n)[0]);
    assert(buf[1] == be32(n)[1]);
    assert(buf[2] == be32(n)[2]);
    assert(buf[3] == be32(n)[3]);
    assert(buf.subrange(4, 4 + payload.len() as int) =~= payload);
}

} // verus!
