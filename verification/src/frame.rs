//! Length-prefixed framing of the IPC channel: each message travels as a
//! 4-byte big-endian payload length followed by the payload. Frames whose
//! declared length exceeds the ceiling are refused on both sides.

use vstd::prelude::*;
use crate::codec::{dec_u32, emit_u32, enc_u32, lemma_u32_round_trip};
use crate::errors::CodecError;

verus! {

/// Default ceiling on a frame's payload length: 16 MiB.
pub const DEFAULT_MAX_FRAME_LEN: u32 = 0x1000000;

/// The wire bytes of one frame: big-endian length, then the payload.
pub open spec fn frame_bytes(payload: Seq<u8>) -> Seq<u8>
    recommends
        payload.len() < 0x100000000,
{
    enc_u32(payload.len() as u32) + payload
}

/// The payload a complete frame buffer denotes under a ceiling: too few
/// bytes for the prefix or the declared payload is `Truncated`, a declared
/// length above the ceiling is `FrameTooLarge`, and bytes beyond the
/// declared payload are `Malformed`.
pub open spec fn dec_frame(s: Seq<u8>, ceiling: u32) -> Result<Seq<u8>, CodecError> {
    if s.len() < 4 {
        Err(CodecError::Truncated)
    } else {
        let n = dec_u32(s.take(4));
        if n > ceiling {
            Err(CodecError::FrameTooLarge)
        } else if s.len() - 4 < n {
            Err(CodecError::Truncated)
        } else if s.len() - 4 > n {
            Err(CodecError::Malformed)
        } else {
            Ok(s.skip(4))
        }
    }
}

/// Accepts a payload length iff it does not exceed the ceiling; the
/// boundary value itself is accepted.
pub fn check_frame_len(len: u32, ceiling: u32) -> (r: Result<(), CodecError>)
    ensures
        r is Ok <==> len <= ceiling,
        (r matches Err(e) ==> e == CodecError::FrameTooLarge),
{
    if len <= ceiling {
        Ok(())
    } else {
        Err(CodecError::FrameTooLarge)
    }
}

/// Frames a payload for the wire. Fails with `FrameTooLarge` exactly when
/// the payload length exceeds the ceiling.
pub fn encode_frame(payload: &Vec<u8>, ceiling: u32) -> (r: Result<Vec<u8>, CodecError>)
    ensures
        match r {
            Ok(f) => payload@.len() <= ceiling && f@ == frame_bytes(payload@),
            Err(e) => e == CodecError::FrameTooLarge && payload@.len() > ceiling,
        },
{
    if payload.len() <= ceiling as usize {
        let mut out: Vec<u8> = Vec::new();
        emit_u32(&mut out, payload.len() as u32);
        out.extend_from_slice(payload.as_slice());
        proof {
            assert(out@ =~= frame_bytes(payload@));
        }
        Ok(out)
    } else {
        Err(CodecError::FrameTooLarge)
    }
}

/// Reads a frame's 4-byte length prefix and holds it to the ceiling.
pub fn parse_frame_len(prefix: &[u8], ceiling: u32) -> (r: Result<u32, CodecError>)
    ensures
        match r {
            Ok(n) => prefix@.len() >= 4 && n == dec_u32(prefix@.take(4)) && n <= ceiling,
            Err(e) => (e == CodecError::Truncated && prefix@.len() < 4) || (e
                == CodecError::FrameTooLarge && prefix@.len() >= 4 && dec_u32(prefix@.take(4))
                > ceiling),
        },
{
    if prefix.len() < 4 {
        return Err(CodecError::Truncated);
    }
    let b0 = *vstd::slice::slice_index_get(prefix, 0);
    let b1 = *vstd::slice::slice_index_get(prefix, 1);
    let b2 = *vstd::slice::slice_index_get(prefix, 2);
    let b3 = *vstd::slice::slice_index_get(prefix, 3);
    let n: u32 = (b0 as u32) << 24 | (b1 as u32) << 16 | (b2 as u32) << 8 | (b3 as u32);
    proof {
        assert(prefix@.take(4) =~= seq![b0, b1, b2, b3]);
    }
    match check_frame_len(n, ceiling) {
        Ok(()) => Ok(n),
        Err(e) => Err(e),
    }
}

/// Decodes one complete frame buffer, agreeing with `dec_frame` in every
/// case.
pub fn decode_frame(buf: &[u8], ceiling: u32) -> (r: Result<Vec<u8>, CodecError>)
    ensures
        match r {
            Ok(p) => dec_frame(buf@, ceiling) == Ok::<Seq<u8>, CodecError>(p@),
            Err(e) => dec_frame(buf@, ceiling) == Err::<Seq<u8>, CodecError>(e),
        },
{
    let n = match parse_frame_len(buf, ceiling) {
        Ok(n) => n,
        Err(e) => {
            return Err(e);
        },
    };
    if buf.len() - 4 < n as usize {
        Err(CodecError::Truncated)
    } else if buf.len() - 4 > n as usize {
        Err(CodecError::Malformed)
    } else {
        let p = vstd::slice::slice_to_vec(vstd::slice::slice_subrange(buf, 4, buf.len()));
        proof {
            assert(p@ =~= buf@.skip(4));
        }
        Ok(p)
    }
}

/// Encodes and frames one request for the wire, the front-end's write
/// path. Fails with `FrameTooLarge` exactly when the encoded payload
/// exceeds the ceiling.
pub fn frame_request(req: &crate::messages::ParsedRequest, ceiling: u32) -> (r: Result<
    Vec<u8>,
    CodecError,
>)
    requires
        crate::codec::wf_req(req@),
    ensures
        match r {
            Ok(f) => crate::codec::enc_req(req@).len() <= ceiling && f@ == frame_bytes(
                crate::codec::enc_req(req@),
            ),
            Err(e) => e == CodecError::FrameTooLarge && crate::codec::enc_req(req@).len()
                > ceiling,
        },
{
    let payload = crate::codec::encode_request(req);
    encode_frame(&payload, ceiling)
}

/// Encodes and frames one response message, the worker's write path.
/// Fails with `FrameTooLarge` exactly when the encoded payload exceeds
/// the ceiling; the connection is then closed on both sides.
pub fn frame_msg(msg: &crate::messages::ASGIMessages, ceiling: u32) -> (r: Result<
    Vec<u8>,
    CodecError,
>)
    requires
        crate::codec::wf_msg(msg@),
    ensures
        match r {
            Ok(f) => crate::codec::enc_msg(msg@).len() <= ceiling && f@ == frame_bytes(
                crate::codec::enc_msg(msg@),
            ),
            Err(e) => e == CodecError::FrameTooLarge && crate::codec::enc_msg(msg@).len()
                > ceiling,
        },
{
    let payload = crate::codec::encode_msg(msg);
    encode_frame(&payload, ceiling)
}

/// Framing loses nothing: decoding a framed payload under a ceiling the
/// payload respects gives the payload back.
pub proof fn lemma_frame_round_trip(payload: Seq<u8>, ceiling: u32)
    requires
        payload.len() <= ceiling,
    ensures
        dec_frame(frame_bytes(payload), ceiling) == Ok::<Seq<u8>, CodecError>(payload),
{
    let n = payload.len() as u32;
    lemma_u32_round_trip(n);
    let s = frame_bytes(payload);
    assert(s.take(4) =~= enc_u32(n));
    assert(s.skip(4) =~= payload);
}

} // verus!
