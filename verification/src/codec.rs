//! Binary payload codec of the IPC channel. Every value is encoded
//! deterministically: integers big-endian, byte strings length-prefixed,
//! strings as their UTF-8 bytes, optional fields and tagged sums with a
//! leading tag byte, and sequences with a leading count. Decoding is the
//! exact inverse; the round-trip lemmas at the end state it.

use vstd::prelude::*;
use crate::errors::CodecError;
use crate::messages::{
    ASGIMessages, HttpMethod, MsgView, ParsedRequest, ReqView, StartView, view_byte_pairs,
};
use vstd::utf8::{decode_utf8, encode_utf8, valid_utf8};

verus! {

// ---------------------------------------------------------------------------
// Integer byte encodings (big-endian)
// ---------------------------------------------------------------------------
/// Big-endian bytes of a `u16`.
pub open spec fn enc_u16(x: u16) -> Seq<u8> {
    seq![((x >> 8) & 0xff) as u8, (x & 0xff) as u8]
}

/// The `u16` a big-endian 2-byte sequence denotes.
pub open spec fn dec_u16(s: Seq<u8>) -> u16
    recommends
        s.len() == 2,
{
    (s[0] as u16) << 8 | (s[1] as u16)
}

/// Big-endian bytes of a `u32`.
pub open spec fn enc_u32(x: u32) -> Seq<u8> {
    seq![
        ((x >> 24) & 0xff) as u8,
        ((x >> 16) & 0xff) as u8,
        ((x >> 8) & 0xff) as u8,
        (x & 0xff) as u8,
    ]
}

/// The `u32` a big-endian 4-byte sequence denotes.
pub open spec fn dec_u32(s: Seq<u8>) -> u32
    recommends
        s.len() == 4,
{
    (s[0] as u32) << 24 | (s[1] as u32) << 16 | (s[2] as u32) << 8 | (s[3] as u32)
}

pub proof fn lemma_u16_round_trip(x: u16)
    ensures
        enc_u16(x).len() == 2,
        dec_u16(enc_u16(x)) == x,
{
    let b0 = ((x >> 8) & 0xff) as u8;
    let b1 = (x & 0xff) as u8;
    assert(((((x >> 8) & 0xff) as u8) as u16) << 8 | (((x & 0xff) as u8) as u16) == x)
        by (bit_vector);
    assert(dec_u16(enc_u16(x)) == (b0 as u16) << 8 | (b1 as u16));
}

pub proof fn lemma_u32_round_trip(x: u32)
    ensures
        enc_u32(x).len() == 4,
        dec_u32(enc_u32(x)) == x,
{
    let b0 = ((x >> 24) & 0xff) as u8;
    let b1 = ((x >> 16) & 0xff) as u8;
    let b2 = ((x >> 8) & 0xff) as u8;
    let b3 = (x & 0xff) as u8;
    assert(((((x >> 24) & 0xff) as u8) as u32) << 24 | ((((x >> 16) & 0xff) as u8) as u32) << 16
        | ((((x >> 8) & 0xff) as u8) as u32) << 8 | (((x & 0xff) as u8) as u32) == x)
        by (bit_vector);
    assert(dec_u32(enc_u32(x)) == (b0 as u32) << 24 | (b1 as u32) << 16 | (b2 as u32) << 8 | (
    b3 as u32));
}

// ---------------------------------------------------------------------------
// Spec-level encoders
// ---------------------------------------------------------------------------
/// A length-prefixed byte string: 4-byte big-endian length, then the bytes.
pub open spec fn enc_bytes(b: Seq<u8>) -> Seq<u8>
    recommends
        b.len() < 0x100000000,
{
    enc_u32(b.len() as u32) + b
}

/// A string: its UTF-8 bytes as a length-prefixed byte string.
pub open spec fn enc_string(t: Seq<char>) -> Seq<u8>
    recommends
        encode_utf8(t).len() < 0x100000000,
{
    enc_bytes(encode_utf8(t))
}

/// A boolean: one byte, 0 or 1.
pub open spec fn enc_bool(b: bool) -> Seq<u8> {
    if b {
        seq![1u8]
    } else {
        seq![0u8]
    }
}

/// An optional string: tag byte 0 for absent, 1 followed by the string.
pub open spec fn enc_opt_string(o: Option<Seq<char>>) -> Seq<u8> {
    match o {
        None => seq![0u8],
        Some(t) => seq![1u8] + enc_string(t),
    }
}

/// The tag byte of each request method.
pub open spec fn method_tag(m: HttpMethod) -> u8 {
    match m {
        HttpMethod::POST => 0u8,
        HttpMethod::GET => 1u8,
        HttpMethod::PATCH => 2u8,
        HttpMethod::OPTIONS => 3u8,
        HttpMethod::DELETE => 4u8,
        HttpMethod::HEAD => 5u8,
        HttpMethod::PUT => 6u8,
    }
}

pub open spec fn enc_method(m: HttpMethod) -> Seq<u8> {
    seq![method_tag(m)]
}

/// Header pairs of a response start, each side a byte string, in order.
pub open spec fn enc_byte_pairs(h: Seq<(Seq<u8>, Seq<u8>)>) -> Seq<u8>
    decreases h.len(),
{
    if h.len() == 0 {
        Seq::empty()
    } else {
        enc_bytes(h[0].0) + enc_bytes(h[0].1) + enc_byte_pairs(h.drop_first())
    }
}

/// Header pairs of a request, each side a string, in order.
pub open spec fn enc_str_pairs(h: Seq<(Seq<char>, Seq<char>)>) -> Seq<u8>
    decreases h.len(),
{
    if h.len() == 0 {
        Seq::empty()
    } else {
        enc_string(h[0].0) + enc_string(h[0].1) + enc_str_pairs(h.drop_first())
    }
}

/// The encoded request payload: method, URI fields, header count and
/// pairs, then the body.
pub open spec fn enc_req(r: ReqView) -> Seq<u8> {
    enc_method(r.method) + enc_opt_string(r.uri.scheme) + enc_string(r.uri.path) + enc_opt_string(
        r.uri.query_string,
    ) + enc_u32(r.headers.len() as u32) + enc_str_pairs(r.headers) + enc_bytes(r.body)
}

/// The encoded response message payload: a tag byte selecting the variant,
/// then its fields.
pub open spec fn enc_msg(m: MsgView) -> Seq<u8> {
    match m {
        MsgView::Start(s) => seq![0u8] + enc_string(s.response_type) + enc_u16(s.status) + enc_u32(
            s.headers.len() as u32,
        ) + enc_byte_pairs(s.headers) + enc_bool(s.trailers),
        MsgView::Body(b) => seq![1u8] + enc_bytes(b),
    }
}

// ---------------------------------------------------------------------------
// Well-formedness: every count and length fits the 4-byte prefix
// ---------------------------------------------------------------------------
/// A character's UTF-8 encoding is at most four bytes, so a string's byte
/// length is bounded by four times its character count. Lets callers
/// discharge the well-formedness bounds from character counts alone.
pub proof fn lemma_encode_utf8_len(t: Seq<char>)
    ensures
        encode_utf8(t).len() <= 4 * t.len(),
    decreases t.len(),
{
    if t.len() > 0 {
        assert(vstd::utf8::encode_scalar(t[0] as u32).len() <= 4);
        lemma_encode_utf8_len(t.drop_first());
    }
}

pub open spec fn wf_bytes(b: Seq<u8>) -> bool {
    b.len() < 0x100000000
}

pub open spec fn wf_string(t: Seq<char>) -> bool {
    encode_utf8(t).len() < 0x100000000
}

pub open spec fn wf_opt_string(o: Option<Seq<char>>) -> bool {
    match o {
        None => true,
        Some(t) => wf_string(t),
    }
}

pub open spec fn wf_req(r: ReqView) -> bool {
    &&& wf_opt_string(r.uri.scheme)
    &&& wf_string(r.uri.path)
    &&& wf_opt_string(r.uri.query_string)
    &&& r.headers.len() < 0x100000000
    &&& (forall|i: int|
        0 <= i < r.headers.len() ==> wf_string(#[trigger] r.headers[i].0) && wf_string(
            r.headers[i].1,
        ))
    &&& wf_bytes(r.body)
}

pub open spec fn wf_msg(m: MsgView) -> bool {
    match m {
        MsgView::Start(s) => {
            &&& wf_string(s.response_type)
            &&& s.headers.len() < 0x100000000
            &&& (forall|i: int|
                0 <= i < s.headers.len() ==> wf_bytes(#[trigger] s.headers[i].0) && wf_bytes(
                    s.headers[i].1,
                ))
        },
        MsgView::Body(b) => wf_bytes(b),
    }
}

// ---------------------------------------------------------------------------
// Spec-level parsers. Each consumes a prefix of the byte sequence and
// yields the parsed value and the remaining suffix, or the error the
// decoder reports: `Truncated` when the bytes end early, `Malformed` when
// a tag byte is invalid or string bytes are not UTF-8.
// ---------------------------------------------------------------------------
pub open spec fn p_u8(s: Seq<u8>) -> Result<(u8, Seq<u8>), CodecError> {
    if s.len() >= 1 {
        Ok((s[0], s.skip(1)))
    } else {
        Err(CodecError::Truncated)
    }
}

pub open spec fn p_u16(s: Seq<u8>) -> Result<(u16, Seq<u8>), CodecError> {
    if s.len() >= 2 {
        Ok((dec_u16(s.take(2)), s.skip(2)))
    } else {
        Err(CodecError::Truncated)
    }
}

pub open spec fn p_u32(s: Seq<u8>) -> Result<(u32, Seq<u8>), CodecError> {
    if s.len() >= 4 {
        Ok((dec_u32(s.take(4)), s.skip(4)))
    } else {
        Err(CodecError::Truncated)
    }
}

pub open spec fn p_bytes(s: Seq<u8>) -> Result<(Seq<u8>, Seq<u8>), CodecError> {
    match p_u32(s) {
        Ok((n, r)) => if r.len() >= n {
            Ok((r.take(n as int), r.skip(n as int)))
        } else {
            Err(CodecError::Truncated)
        },
        Err(e) => Err(e),
    }
}

pub open spec fn p_string(s: Seq<u8>) -> Result<(Seq<char>, Seq<u8>), CodecError> {
    match p_bytes(s) {
        Ok((b, r)) => if valid_utf8(b) {
            Ok((decode_utf8(b), r))
        } else {
            Err(CodecError::Malformed)
        },
        Err(e) => Err(e),
    }
}

pub open spec fn p_bool(s: Seq<u8>) -> Result<(bool, Seq<u8>), CodecError> {
    match p_u8(s) {
        Ok((t, r)) => if t == 0 {
            Ok((false, r))
        } else if t == 1 {
            Ok((true, r))
        } else {
            Err(CodecError::Malformed)
        },
        Err(e) => Err(e),
    }
}

pub open spec fn p_opt_string(s: Seq<u8>) -> Result<(Option<Seq<char>>, Seq<u8>), CodecError> {
    match p_u8(s) {
        Ok((t, r)) => if t == 0 {
            Ok((None, r))
        } else if t == 1 {
            match p_string(r) {
                Ok((v, r2)) => Ok((Some(v), r2)),
                Err(e) => Err(e),
            }
        } else {
            Err(CodecError::Malformed)
        },
        Err(e) => Err(e),
    }
}

/// The method a tag byte denotes, if any.
pub open spec fn method_of_tag(t: u8) -> Option<HttpMethod> {
    if t == 0 {
        Some(HttpMethod::POST)
    } else if t == 1 {
        Some(HttpMethod::GET)
    } else if t == 2 {
        Some(HttpMethod::PATCH)
    } else if t == 3 {
        Some(HttpMethod::OPTIONS)
    } else if t == 4 {
        Some(HttpMethod::DELETE)
    } else if t == 5 {
        Some(HttpMethod::HEAD)
    } else if t == 6 {
        Some(HttpMethod::PUT)
    } else {
        None
    }
}

pub open spec fn p_method(s: Seq<u8>) -> Result<(HttpMethod, Seq<u8>), CodecError> {
    match p_u8(s) {
        Ok((t, r)) => match method_of_tag(t) {
            Some(m) => Ok((m, r)),
            None => Err(CodecError::Malformed),
        },
        Err(e) => Err(e),
    }
}

pub open spec fn p_byte_pairs(s: Seq<u8>, n: nat) -> Result<
    (Seq<(Seq<u8>, Seq<u8>)>, Seq<u8>),
    CodecError,
>
    decreases n,
{
    if n == 0 {
        Ok((Seq::empty(), s))
    } else {
        match p_bytes(s) {
            Ok((name, r1)) => match p_bytes(r1) {
                Ok((value, r2)) => match p_byte_pairs(r2, (n - 1) as nat) {
                    Ok((rest, r3)) => Ok((seq![(name, value)] + rest, r3)),
                    Err(e) => Err(e),
                },
                Err(e) => Err(e),
            },
            Err(e) => Err(e),
        }
    }
}

pub open spec fn p_str_pairs(s: Seq<u8>, n: nat) -> Result<
    (Seq<(Seq<char>, Seq<char>)>, Seq<u8>),
    CodecError,
>
    decreases n,
{
    if n == 0 {
        Ok((Seq::empty(), s))
    } else {
        match p_string(s) {
            Ok((name, r1)) => match p_string(r1) {
                Ok((value, r2)) => match p_str_pairs(r2, (n - 1) as nat) {
                    Ok((rest, r3)) => Ok((seq![(name, value)] + rest, r3)),
                    Err(e) => Err(e),
                },
                Err(e) => Err(e),
            },
            Err(e) => Err(e),
        }
    }
}

/// The request a whole payload denotes. Bytes left over after the request
/// are trailing garbage and make the payload malformed.
pub open spec fn dec_req(s: Seq<u8>) -> Result<ReqView, CodecError> {
    match p_method(s) {
        Ok((method, r)) => match p_opt_string(r) {
            Ok((scheme, r)) => match p_string(r) {
                Ok((path, r)) => match p_opt_string(r) {
                    Ok((query_string, r)) => match p_u32(r) {
                        Ok((n, r)) => match p_str_pairs(r, n as nat) {
                            Ok((headers, r)) => match p_bytes(r) {
                                Ok((body, r)) => if r.len() == 0 {
                                    Ok(
                                        ReqView {
                                            headers,
                                            method,
                                            body,
                                            uri: crate::messages::UriView {
                                                scheme,
                                                path,
                                                query_string,
                                            },
                                        },
                                    )
                                } else {
                                    Err(CodecError::Malformed)
                                },
                                Err(e) => Err(e),
                            },
                            Err(e) => Err(e),
                        },
                        Err(e) => Err(e),
                    },
                    Err(e) => Err(e),
                },
                Err(e) => Err(e),
            },
            Err(e) => Err(e),
        },
        Err(e) => Err(e),
    }
}

/// The response message a whole payload denotes, with the same trailing
/// garbage rule.
pub open spec fn dec_msg(s: Seq<u8>) -> Result<MsgView, CodecError> {
    match p_u8(s) {
        Ok((tag, r)) => if tag == 0 {
            match p_string(r) {
                Ok((response_type, r)) => match p_u16(r) {
                    Ok((status, r)) => match p_u32(r) {
                        Ok((n, r)) => match p_byte_pairs(r, n as nat) {
                            Ok((headers, r)) => match p_bool(r) {
                                Ok((trailers, r)) => if r.len() == 0 {
                                    Ok(
                                        MsgView::Start(
                                            StartView { response_type, status, headers, trailers },
                                        ),
                                    )
                                } else {
                                    Err(CodecError::Malformed)
                                },
                                Err(e) => Err(e),
                            },
                            Err(e) => Err(e),
                        },
                        Err(e) => Err(e),
                    },
                    Err(e) => Err(e),
                },
                Err(e) => Err(e),
            }
        } else if tag == 1 {
            match p_bytes(r) {
                Ok((body, r)) => if r.len() == 0 {
                    Ok(MsgView::Body(body))
                } else {
                    Err(CodecError::Malformed)
                },
                Err(e) => Err(e),
            }
        } else {
            Err(CodecError::Malformed)
        },
        Err(e) => Err(e),
    }
}

// ---------------------------------------------------------------------------
// Round-trip: each parser undoes its encoder, whatever suffix follows.
// ---------------------------------------------------------------------------
proof fn lemma_assoc(a: Seq<u8>, b: Seq<u8>, c: Seq<u8>)
    ensures
        (a + b) + c == a + (b + c),
{
    assert((a + b) + c =~= a + (b + c));
}

proof fn lemma_p_u8(x: u8, rest: Seq<u8>)
    ensures
        p_u8(seq![x] + rest) == Ok::<(u8, Seq<u8>), CodecError>((x, rest)),
{
    let s = seq![x] + rest;
    assert(s[0] == x);
    assert(s.skip(1) =~= rest);
}

proof fn lemma_p_u16(x: u16, rest: Seq<u8>)
    ensures
        p_u16(enc_u16(x) + rest) == Ok::<(u16, Seq<u8>), CodecError>((x, rest)),
{
    lemma_u16_round_trip(x);
    let s = enc_u16(x) + rest;
    assert(s.take(2) =~= enc_u16(x));
    assert(s.skip(2) =~= rest);
}

proof fn lemma_p_u32(x: u32, rest: Seq<u8>)
    ensures
        p_u32(enc_u32(x) + rest) == Ok::<(u32, Seq<u8>), CodecError>((x, rest)),
{
    lemma_u32_round_trip(x);
    let s = enc_u32(x) + rest;
    assert(s.take(4) =~= enc_u32(x));
    assert(s.skip(4) =~= rest);
}

proof fn lemma_p_bytes(b: Seq<u8>, rest: Seq<u8>)
    requires
        wf_bytes(b),
    ensures
        p_bytes(enc_bytes(b) + rest) == Ok::<(Seq<u8>, Seq<u8>), CodecError>((b, rest)),
{
    let n = b.len() as u32;
    let s = enc_bytes(b) + rest;
    assert(s =~= enc_u32(n) + (b + rest));
    lemma_p_u32(n, b + rest);
    assert((b + rest).take(n as int) =~= b);
    assert((b + rest).skip(n as int) =~= rest);
}

proof fn lemma_p_string(t: Seq<char>, rest: Seq<u8>)
    requires
        wf_string(t),
    ensures
        p_string(enc_string(t) + rest) == Ok::<(Seq<char>, Seq<u8>), CodecError>((t, rest)),
{
    let b = encode_utf8(t);
    lemma_p_bytes(b, rest);
    vstd::utf8::encode_utf8_valid_utf8(t);
    vstd::utf8::encode_utf8_decode_utf8(t);
}

proof fn lemma_p_bool(b: bool, rest: Seq<u8>)
    ensures
        p_bool(enc_bool(b) + rest) == Ok::<(bool, Seq<u8>), CodecError>((b, rest)),
{
    if b {
        lemma_p_u8(1u8, rest);
    } else {
        lemma_p_u8(0u8, rest);
    }
}

proof fn lemma_p_opt_string(o: Option<Seq<char>>, rest: Seq<u8>)
    requires
        wf_opt_string(o),
    ensures
        p_opt_string(enc_opt_string(o) + rest) == Ok::<(Option<Seq<char>>, Seq<u8>), CodecError>(
            (o, rest),
        ),
{
    match o {
        None => {
            lemma_p_u8(0u8, rest);
        },
        Some(t) => {
            assert(enc_opt_string(o) + rest =~= seq![1u8] + (enc_string(t) + rest));
            lemma_p_u8(1u8, enc_string(t) + rest);
            lemma_p_string(t, rest);
        },
    }
}

proof fn lemma_p_method(m: HttpMethod, rest: Seq<u8>)
    ensures
        p_method(enc_method(m) + rest) == Ok::<(HttpMethod, Seq<u8>), CodecError>((m, rest)),
{
    lemma_p_u8(method_tag(m), rest);
    assert(method_of_tag(method_tag(m)) == Some(m));
}

#[verifier::rlimit(100)]
#[verifier::spinoff_prover]
proof fn lemma_p_byte_pairs(h: Seq<(Seq<u8>, Seq<u8>)>, rest: Seq<u8>)
    requires
        forall|i: int| 0 <= i < h.len() ==> wf_bytes(#[trigger] h[i].0) && wf_bytes(h[i].1),
    ensures
        p_byte_pairs(enc_byte_pairs(h) + rest, h.len()) == Ok::<
            (Seq<(Seq<u8>, Seq<u8>)>, Seq<u8>),
            CodecError,
        >((h, rest)),
    decreases h.len(),
{
    if h.len() == 0 {
        assert(enc_byte_pairs(h) + rest =~= rest);
        assert(h =~= Seq::<(Seq<u8>, Seq<u8>)>::empty());
    } else {
        let name = h[0].0;
        let value = h[0].1;
        let tail = h.drop_first();
        let s2 = enc_byte_pairs(tail) + rest;
        let s1 = enc_bytes(value) + s2;
        lemma_assoc(enc_bytes(name) + enc_bytes(value), enc_byte_pairs(tail), rest);
        lemma_assoc(enc_bytes(name), enc_bytes(value), s2);
        assert(enc_byte_pairs(h) + rest == enc_bytes(name) + s1);
        lemma_p_bytes(name, s1);
        lemma_p_bytes(value, s2);
        lemma_p_byte_pairs(tail, rest);
        assert(seq![(name, value)] + tail =~= h);
    }
}

#[verifier::rlimit(100)]
#[verifier::spinoff_prover]
proof fn lemma_p_str_pairs(h: Seq<(Seq<char>, Seq<char>)>, rest: Seq<u8>)
    requires
        forall|i: int| 0 <= i < h.len() ==> wf_string(#[trigger] h[i].0) && wf_string(h[i].1),
    ensures
        p_str_pairs(enc_str_pairs(h) + rest, h.len()) == Ok::<
            (Seq<(Seq<char>, Seq<char>)>, Seq<u8>),
            CodecError,
        >((h, rest)),
    decreases h.len(),
{
    if h.len() == 0 {
        assert(enc_str_pairs(h) + rest =~= rest);
        assert(h =~= Seq::<(Seq<char>, Seq<char>)>::empty());
    } else {
        let name = h[0].0;
        let value = h[0].1;
        let tail = h.drop_first();
        let s2 = enc_str_pairs(tail) + rest;
        let s1 = enc_string(value) + s2;
        lemma_assoc(enc_string(name) + enc_string(value), enc_str_pairs(tail), rest);
        lemma_assoc(enc_string(name), enc_string(value), s2);
        assert(enc_str_pairs(h) + rest == enc_string(name) + s1);
        lemma_p_string(name, s1);
        lemma_p_string(value, s2);
        lemma_p_str_pairs(tail, rest);
        assert(seq![(name, value)] + tail =~= h);
    }
}

/// Decoding undoes encoding on every well-formed request: the wire format
/// loses nothing.
#[verifier::rlimit(100)]
#[verifier::spinoff_prover]
pub proof fn lemma_req_round_trip(r: ReqView)
    requires
        wf_req(r),
    ensures
        dec_req(enc_req(r)) == Ok::<ReqView, CodecError>(r),
{
    let n = r.headers.len() as u32;
    let t6 = enc_bytes(r.body);
    let t5 = enc_str_pairs(r.headers) + t6;
    let t4 = enc_u32(n) + t5;
    let t3 = enc_opt_string(r.uri.query_string) + t4;
    let t2 = enc_string(r.uri.path) + t3;
    let t1 = enc_opt_string(r.uri.scheme) + t2;
    let ea = enc_method(r.method);
    let eb = enc_opt_string(r.uri.scheme);
    let ec = enc_string(r.uri.path);
    let ed = enc_opt_string(r.uri.query_string);
    let ee = enc_u32(n);
    let ef = enc_str_pairs(r.headers);
    let eg = enc_bytes(r.body);
    lemma_assoc(ea + eb + ec + ed + ee, ef, eg);
    lemma_assoc(ea + eb + ec + ed, ee, t5);
    lemma_assoc(ea + eb + ec, ed, t4);
    lemma_assoc(ea + eb, ec, t3);
    lemma_assoc(ea, eb, t2);
    assert(enc_req(r) == ea + t1);
    lemma_p_method(r.method, t1);
    assert(p_method(enc_req(r)) == Ok::<(HttpMethod, Seq<u8>), CodecError>((r.method, t1)));
    lemma_p_opt_string(r.uri.scheme, t2);
    assert(p_opt_string(t1) == Ok::<(Option<Seq<char>>, Seq<u8>), CodecError>(
        (r.uri.scheme, t2),
    ));
    lemma_p_string(r.uri.path, t3);
    assert(p_string(t2) == Ok::<(Seq<char>, Seq<u8>), CodecError>((r.uri.path, t3)));
    lemma_p_opt_string(r.uri.query_string, t4);
    assert(p_opt_string(t3) == Ok::<(Option<Seq<char>>, Seq<u8>), CodecError>(
        (r.uri.query_string, t4),
    ));
    lemma_p_u32(n, t5);
    assert(p_u32(t4) == Ok::<(u32, Seq<u8>), CodecError>((n, t5)));
    lemma_p_str_pairs(r.headers, t6);
    assert(p_str_pairs(t5, r.headers.len()) == Ok::<
        (Seq<(Seq<char>, Seq<char>)>, Seq<u8>),
        CodecError,
    >((r.headers, t6)));
    assert(t6 =~= enc_bytes(r.body) + Seq::<u8>::empty());
    lemma_p_bytes(r.body, Seq::empty());
    assert(p_bytes(t6) == Ok::<(Seq<u8>, Seq<u8>), CodecError>((r.body, Seq::empty())));
    let d = dec_req(enc_req(r));
    assert(d is Ok);
    let v = d->Ok_0;
    assert(v.method == r.method);
    assert(v.uri.scheme == r.uri.scheme);
    assert(v.uri.path == r.uri.path);
    assert(v.uri.query_string == r.uri.query_string);
    assert(v.headers == r.headers);
    assert(v.body == r.body);
    assert(v =~= r);
}

/// Decoding undoes encoding on every well-formed response message.
#[verifier::rlimit(100)]
#[verifier::spinoff_prover]
pub proof fn lemma_msg_round_trip(m: MsgView)
    requires
        wf_msg(m),
    ensures
        dec_msg(enc_msg(m)) == Ok::<MsgView, CodecError>(m),
{
    match m {
        MsgView::Start(s) => {
            let n = s.headers.len() as u32;
            let t4 = enc_bool(s.trailers);
            let t3 = enc_byte_pairs(s.headers) + t4;
            let t2 = enc_u32(n) + t3;
            let t1 = enc_u16(s.status) + t2;
            let t0 = enc_string(s.response_type) + t1;
            assert(enc_msg(m) =~= seq![0u8] + t0);
            lemma_p_u8(0u8, t0);
            lemma_p_string(s.response_type, t1);
            lemma_p_u16(s.status, t2);
            lemma_p_u32(n, t3);
            lemma_p_byte_pairs(s.headers, t4);
            assert(t4 =~= enc_bool(s.trailers) + Seq::<u8>::empty());
            lemma_p_bool(s.trailers, Seq::empty());
            assert(dec_msg(enc_msg(m)) matches Ok(v) && v =~= m);
        },
        MsgView::Body(b) => {
            let t0 = enc_bytes(b);
            assert(enc_msg(m) =~= seq![1u8] + t0);
            lemma_p_u8(1u8, t0);
            assert(t0 =~= enc_bytes(b) + Seq::<u8>::empty());
            lemma_p_bytes(b, Seq::empty());
        },
    }
}

// ---------------------------------------------------------------------------
// Executable encoders
// ---------------------------------------------------------------------------
proof fn lemma_enc_byte_pairs_push(h: Seq<(Seq<u8>, Seq<u8>)>, p: (Seq<u8>, Seq<u8>))
    ensures
        enc_byte_pairs(h.push(p)) == enc_byte_pairs(h) + (enc_bytes(p.0) + enc_bytes(p.1)),
    decreases h.len(),
{
    let c = enc_bytes(p.0) + enc_bytes(p.1);
    if h.len() == 0 {
        assert(h.push(p)[0] == p);
        assert(h.push(p).drop_first() =~= Seq::<(Seq<u8>, Seq<u8>)>::empty());
        assert(enc_byte_pairs(Seq::<(Seq<u8>, Seq<u8>)>::empty()) == Seq::<u8>::empty());
        assert(enc_byte_pairs(h.push(p)) =~= enc_byte_pairs(h) + c);
    } else {
        assert(h.push(p)[0] == h[0]);
        assert(h.push(p).drop_first() =~= h.drop_first().push(p));
        lemma_enc_byte_pairs_push(h.drop_first(), p);
        let ab = enc_bytes(h[0].0) + enc_bytes(h[0].1);
        lemma_assoc(ab, enc_byte_pairs(h.drop_first()), c);
    }
}

proof fn lemma_enc_str_pairs_push(h: Seq<(Seq<char>, Seq<char>)>, p: (Seq<char>, Seq<char>))
    ensures
        enc_str_pairs(h.push(p)) == enc_str_pairs(h) + (enc_string(p.0) + enc_string(p.1)),
    decreases h.len(),
{
    let c = enc_string(p.0) + enc_string(p.1);
    if h.len() == 0 {
        assert(h.push(p)[0] == p);
        assert(h.push(p).drop_first() =~= Seq::<(Seq<char>, Seq<char>)>::empty());
        assert(enc_str_pairs(Seq::<(Seq<char>, Seq<char>)>::empty()) == Seq::<u8>::empty());
        assert(enc_str_pairs(h.push(p)) =~= enc_str_pairs(h) + c);
    } else {
        assert(h.push(p)[0] == h[0]);
        assert(h.push(p).drop_first() =~= h.drop_first().push(p));
        lemma_enc_str_pairs_push(h.drop_first(), p);
        let ab = enc_string(h[0].0) + enc_string(h[0].1);
        lemma_assoc(ab, enc_str_pairs(h.drop_first()), c);
    }
}

fn emit_u8(out: &mut Vec<u8>, x: u8)
    ensures
        final(out)@ == old(out)@ + seq![x],
{
    out.push(x);
    proof {
        assert(out@ =~= old(out)@ + seq![x]);
    }
}

fn emit_u16(out: &mut Vec<u8>, x: u16)
    ensures
        final(out)@ == old(out)@ + enc_u16(x),
{
    out.push(((x >> 8) & 0xff) as u8);
    out.push((x & 0xff) as u8);
    proof {
        assert(out@ =~= old(out)@ + enc_u16(x));
    }
}

pub(crate) fn emit_u32(out: &mut Vec<u8>, x: u32)
    ensures
        final(out)@ == old(out)@ + enc_u32(x),
{
    out.push(((x >> 24) & 0xff) as u8);
    out.push(((x >> 16) & 0xff) as u8);
    out.push(((x >> 8) & 0xff) as u8);
    out.push((x & 0xff) as u8);
    proof {
        assert(out@ =~= old(out)@ + enc_u32(x));
    }
}

fn emit_bytes(out: &mut Vec<u8>, b: &[u8])
    requires
        b@.len() < 0x100000000,
    ensures
        final(out)@ == old(out)@ + enc_bytes(b@),
{
    emit_u32(out, b.len() as u32);
    out.extend_from_slice(b);
    proof {
        assert(out@ =~= old(out)@ + enc_bytes(b@));
    }
}

fn emit_string(out: &mut Vec<u8>, s: &str)
    requires
        wf_string(s@),
    ensures
        final(out)@ == old(out)@ + enc_string(s@),
{
    let bv = s.as_bytes_vec();
    emit_bytes(out, bv.as_slice());
}

fn emit_bool(out: &mut Vec<u8>, b: bool)
    ensures
        final(out)@ == old(out)@ + enc_bool(b),
{
    if b {
        emit_u8(out, 1);
    } else {
        emit_u8(out, 0);
    }
}

fn emit_method(out: &mut Vec<u8>, m: &HttpMethod)
    ensures
        final(out)@ == old(out)@ + enc_method(*m),
{
    let t: u8 = match m {
        HttpMethod::POST => 0,
        HttpMethod::GET => 1,
        HttpMethod::PATCH => 2,
        HttpMethod::OPTIONS => 3,
        HttpMethod::DELETE => 4,
        HttpMethod::HEAD => 5,
        HttpMethod::PUT => 6,
    };
    emit_u8(out, t);
}

fn emit_opt_str(out: &mut Vec<u8>, o: Option<&str>, Ghost(ov): Ghost<Option<Seq<char>>>)
    requires
        (match o {
            Some(s) => ov == Some(s@),
            None => ov is None,
        }),
        wf_opt_string(ov),
    ensures
        final(out)@ == old(out)@ + enc_opt_string(ov),
{
    match o {
        None => {
            emit_u8(out, 0);
        },
        Some(s) => {
            emit_u8(out, 1);
            emit_string(out, s);
            proof {
                lemma_assoc(old(out)@, seq![1u8], enc_string(s@));
            }
        },
    }
}

/// Encodes a request into the deterministic wire payload. The
/// well-formedness bound only asks that every length fit the 4-byte
/// prefixes of the format.
pub fn encode_request(r: &ParsedRequest) -> (out: Vec<u8>)
    requires
        wf_req(r@),
    ensures
        out@ == enc_req(r@),
{
    let mut out: Vec<u8> = Vec::new();
    emit_method(&mut out, &r.method);
    emit_opt_str(&mut out, r.uri.scheme(), Ghost(r@.uri.scheme));
    emit_string(&mut out, r.uri.path());
    emit_opt_str(&mut out, r.uri.query_string(), Ghost(r@.uri.query_string));
    let n = r.headers.len() as u32;
    emit_u32(&mut out, n);
    let ghost prefix = out@;
    let mut i: usize = 0;
    while i < r.headers.len()
        invariant
            0 <= i <= r.headers.len(),
            wf_req(r@),
            r@.headers.len() == r.headers@.len(),
            out@ == prefix + enc_str_pairs(r@.headers.take(i as int)),
        decreases r.headers.len() - i,
    {
        let ghost taken = r@.headers.take(i as int);
        let pair = &r.headers[i];
        assert(r@.headers[i as int] == (pair.0@, pair.1@));
        assert(wf_string(r@.headers[i as int].0) && wf_string(r@.headers[i as int].1));
        emit_string(&mut out, pair.0.as_str());
        emit_string(&mut out, pair.1.as_str());
        proof {
            lemma_enc_str_pairs_push(taken, r@.headers[i as int]);
            assert(taken.push(r@.headers[i as int]) =~= r@.headers.take(i as int + 1));
            lemma_assoc(prefix, enc_str_pairs(taken), enc_string(pair.0@) + enc_string(pair.1@));
            lemma_assoc(
                prefix + enc_str_pairs(taken),
                enc_string(pair.0@),
                enc_string(pair.1@),
            );
        }
        i += 1;
    }
    proof {
        assert(r@.headers.take(r.headers@.len() as int) =~= r@.headers);
    }
    emit_bytes(&mut out, r.body.as_slice());
    proof {
        assert(out@ =~= enc_req(r@));
    }
    out
}

/// Encodes a response message into the deterministic wire payload.
pub fn encode_msg(m: &ASGIMessages) -> (out: Vec<u8>)
    requires
        wf_msg(m@),
    ensures
        out@ == enc_msg(m@),
{
    let mut out: Vec<u8> = Vec::new();
    match m {
        ASGIMessages::HttpResponseStart(s) => {
            emit_u8(&mut out, 0);
            emit_string(&mut out, s.response_type.as_str());
            emit_u16(&mut out, s.status);
            let n = s.headers.len() as u32;
            emit_u32(&mut out, n);
            let ghost hs = m@->Start_0.headers;
            let ghost prefix = out@;
            let mut i: usize = 0;
            while i < s.headers.len()
                invariant
                    0 <= i <= s.headers.len(),
                    hs == view_byte_pairs(s.headers@),
                    hs.len() == s.headers@.len(),
                    forall|k: int| 0 <= k < hs.len() ==> wf_bytes(#[trigger] hs[k].0) && wf_bytes(hs[k].1),
                    out@ == prefix + enc_byte_pairs(hs.take(i as int)),
                decreases s.headers.len() - i,
            {
                let ghost taken = hs.take(i as int);
                let pair = &s.headers[i];
                assert(hs[i as int] == (pair.0@, pair.1@));
                assert(wf_bytes(hs[i as int].0) && wf_bytes(hs[i as int].1));
                emit_bytes(&mut out, pair.0.as_slice());
                emit_bytes(&mut out, pair.1.as_slice());
                proof {
                    lemma_enc_byte_pairs_push(taken, hs[i as int]);
                    assert(taken.push(hs[i as int]) =~= hs.take(i as int + 1));
                    lemma_assoc(prefix, enc_byte_pairs(taken), enc_bytes(pair.0@) + enc_bytes(pair.1@));
                    lemma_assoc(
                        prefix + enc_byte_pairs(taken),
                        enc_bytes(pair.0@),
                        enc_bytes(pair.1@),
                    );
                }
                i += 1;
            }
            proof {
                assert(hs.take(s.headers@.len() as int) =~= hs);
            }
            emit_bool(&mut out, s.trailers);
            proof {
                assert(out@ =~= enc_msg(m@));
            }
        },
        ASGIMessages::HttpResponseBody(b) => {
            emit_u8(&mut out, 1);
            emit_bytes(&mut out, b.body.as_slice());
            proof {
                assert(out@ =~= enc_msg(m@));
            }
        },
    }
    out
}

// ---------------------------------------------------------------------------
// Executable decoders. Each agrees exactly with the spec parser on the
// suffix starting at its position, in the success and in every error case.
// ---------------------------------------------------------------------------
proof fn lemma_skip_skip(s: Seq<u8>, a: int, b: int)
    requires
        0 <= a,
        0 <= b,
        a + b <= s.len(),
    ensures
        s.skip(a).skip(b) == s.skip(a + b),
{
    assert(s.skip(a).skip(b) =~= s.skip(a + b));
}

proof fn lemma_assoc_any<A>(a: Seq<A>, b: Seq<A>, c: Seq<A>)
    ensures
        (a + b) + c == a + (b + c),
{
    assert((a + b) + c =~= a + (b + c));
}

/// Relies on `str::from_utf8`: it succeeds exactly on well-formed UTF-8
/// input, and the returned string slice is the input bytes read as UTF-8,
/// the reading vstd's own specification of `str::from_utf8_unchecked`
/// models with `valid_utf8` and `decode_utf8`.
#[verifier::external_body]
fn string_from_utf8(b: &[u8]) -> (r: Option<String>)
    ensures
        r is Some <==> valid_utf8(b@),
        (r matches Some(s) ==> s@ == decode_utf8(b@)),
{
    match core::str::from_utf8(b) {
        Ok(s) => Some(s.to_string()),
        Err(_) => None,
    }
}

fn rd_u8(buf: &[u8], pos: usize) -> (r: Result<(u8, usize), CodecError>)
    requires
        pos <= buf@.len(),
    ensures
        match r {
            Ok((x, p)) => pos < p <= buf@.len() && p_u8(buf@.skip(pos as int)) == Ok::<
                (u8, Seq<u8>),
                CodecError,
            >((x, buf@.skip(p as int))),
            Err(e) => p_u8(buf@.skip(pos as int)) == Err::<(u8, Seq<u8>), CodecError>(e),
        },
{
    if pos < buf.len() {
        let x = *vstd::slice::slice_index_get(buf, pos);
        proof {
            lemma_skip_skip(buf@, pos as int, 1);
        }
        Ok((x, pos + 1))
    } else {
        Err(CodecError::Truncated)
    }
}

fn rd_u16(buf: &[u8], pos: usize) -> (r: Result<(u16, usize), CodecError>)
    requires
        pos <= buf@.len(),
    ensures
        match r {
            Ok((x, p)) => pos < p <= buf@.len() && p_u16(buf@.skip(pos as int)) == Ok::<
                (u16, Seq<u8>),
                CodecError,
            >((x, buf@.skip(p as int))),
            Err(e) => p_u16(buf@.skip(pos as int)) == Err::<(u16, Seq<u8>), CodecError>(e),
        },
{
    if buf.len() - pos >= 2 {
        let b0 = *vstd::slice::slice_index_get(buf, pos);
        let b1 = *vstd::slice::slice_index_get(buf, pos + 1);
        let x: u16 = (b0 as u16) << 8 | (b1 as u16);
        proof {
            let t = buf@.skip(pos as int);
            assert(t.take(2) =~= seq![b0, b1]);
            lemma_skip_skip(buf@, pos as int, 2);
        }
        Ok((x, pos + 2))
    } else {
        Err(CodecError::Truncated)
    }
}

fn rd_u32(buf: &[u8], pos: usize) -> (r: Result<(u32, usize), CodecError>)
    requires
        pos <= buf@.len(),
    ensures
        match r {
            Ok((x, p)) => pos < p <= buf@.len() && p_u32(buf@.skip(pos as int)) == Ok::<
                (u32, Seq<u8>),
                CodecError,
            >((x, buf@.skip(p as int))),
            Err(e) => p_u32(buf@.skip(pos as int)) == Err::<(u32, Seq<u8>), CodecError>(e),
        },
{
    if buf.len() - pos >= 4 {
        let b0 = *vstd::slice::slice_index_get(buf, pos);
        let b1 = *vstd::slice::slice_index_get(buf, pos + 1);
        let b2 = *vstd::slice::slice_index_get(buf, pos + 2);
        let b3 = *vstd::slice::slice_index_get(buf, pos + 3);
        let x: u32 = (b0 as u32) << 24 | (b1 as u32) << 16 | (b2 as u32) << 8 | (b3 as u32);
        proof {
            let t = buf@.skip(pos as int);
            assert(t.take(4) =~= seq![b0, b1, b2, b3]);
            lemma_skip_skip(buf@, pos as int, 4);
        }
        Ok((x, pos + 4))
    } else {
        Err(CodecError::Truncated)
    }
}

fn rd_bytes(buf: &[u8], pos: usize) -> (r: Result<(Vec<u8>, usize), CodecError>)
    requires
        pos <= buf@.len(),
    ensures
        match r {
            Ok((v, p)) => pos <= p <= buf@.len() && p_bytes(buf@.skip(pos as int)) == Ok::<
                (Seq<u8>, Seq<u8>),
                CodecError,
            >((v@, buf@.skip(p as int))),
            Err(e) => p_bytes(buf@.skip(pos as int)) == Err::<(Seq<u8>, Seq<u8>), CodecError>(e),
        },
{
    match rd_u32(buf, pos) {
        Ok((n, p1)) => {
            if (n as usize) <= buf.len() - p1 {
                let p2 = p1 + n as usize;
                let v = vstd::slice::slice_to_vec(vstd::slice::slice_subrange(buf, p1, p2));
                proof {
                    let rem = buf@.skip(p1 as int);
                    assert(rem.take(n as int) =~= buf@.subrange(p1 as int, p2 as int));
                    lemma_skip_skip(buf@, p1 as int, n as int);
                }
                Ok((v, p2))
            } else {
                Err(CodecError::Truncated)
            }
        },
        Err(e) => Err(e),
    }
}

fn rd_string(buf: &[u8], pos: usize) -> (r: Result<(String, usize), CodecError>)
    requires
        pos <= buf@.len(),
    ensures
        match r {
            Ok((s, p)) => pos <= p <= buf@.len() && p_string(buf@.skip(pos as int)) == Ok::<
                (Seq<char>, Seq<u8>),
                CodecError,
            >((s@, buf@.skip(p as int))),
            Err(e) => p_string(buf@.skip(pos as int)) == Err::<(Seq<char>, Seq<u8>), CodecError>(
                e,
            ),
        },
{
    match rd_bytes(buf, pos) {
        Ok((v, p)) => match string_from_utf8(v.as_slice()) {
            Some(s) => Ok((s, p)),
            None => Err(CodecError::Malformed),
        },
        Err(e) => Err(e),
    }
}

fn rd_bool(buf: &[u8], pos: usize) -> (r: Result<(bool, usize), CodecError>)
    requires
        pos <= buf@.len(),
    ensures
        match r {
            Ok((b, p)) => pos < p <= buf@.len() && p_bool(buf@.skip(pos as int)) == Ok::<
                (bool, Seq<u8>),
                CodecError,
            >((b, buf@.skip(p as int))),
            Err(e) => p_bool(buf@.skip(pos as int)) == Err::<(bool, Seq<u8>), CodecError>(e),
        },
{
    match rd_u8(buf, pos) {
        Ok((t, p)) => {
            if t == 0 {
                Ok((false, p))
            } else if t == 1 {
                Ok((true, p))
            } else {
                Err(CodecError::Malformed)
            }
        },
        Err(e) => Err(e),
    }
}

fn rd_opt_string(buf: &[u8], pos: usize) -> (r: Result<(Option<String>, usize), CodecError>)
    requires
        pos <= buf@.len(),
    ensures
        match r {
            Ok((o, p)) => pos <= p <= buf@.len() && p_opt_string(buf@.skip(pos as int)) == Ok::<
                (Option<Seq<char>>, Seq<u8>),
                CodecError,
            >((crate::messages::view_opt_string(o), buf@.skip(p as int))),
            Err(e) => p_opt_string(buf@.skip(pos as int)) == Err::<
                (Option<Seq<char>>, Seq<u8>),
                CodecError,
            >(e),
        },
{
    match rd_u8(buf, pos) {
        Ok((t, p)) => {
            if t == 0 {
                Ok((None, p))
            } else if t == 1 {
                match rd_string(buf, p) {
                    Ok((s, p2)) => Ok((Some(s), p2)),
                    Err(e) => Err(e),
                }
            } else {
                Err(CodecError::Malformed)
            }
        },
        Err(e) => Err(e),
    }
}

fn rd_method(buf: &[u8], pos: usize) -> (r: Result<(HttpMethod, usize), CodecError>)
    requires
        pos <= buf@.len(),
    ensures
        match r {
            Ok((m, p)) => pos < p <= buf@.len() && p_method(buf@.skip(pos as int)) == Ok::<
                (HttpMethod, Seq<u8>),
                CodecError,
            >((m, buf@.skip(p as int))),
            Err(e) => p_method(buf@.skip(pos as int)) == Err::<(HttpMethod, Seq<u8>), CodecError>(
                e,
            ),
        },
{
    match rd_u8(buf, pos) {
        Ok((t, p)) => {
            if t == 0 {
                Ok((HttpMethod::POST, p))
            } else if t == 1 {
                Ok((HttpMethod::GET, p))
            } else if t == 2 {
                Ok((HttpMethod::PATCH, p))
            } else if t == 3 {
                Ok((HttpMethod::OPTIONS, p))
            } else if t == 4 {
                Ok((HttpMethod::DELETE, p))
            } else if t == 5 {
                Ok((HttpMethod::HEAD, p))
            } else if t == 6 {
                Ok((HttpMethod::PUT, p))
            } else {
                Err(CodecError::Malformed)
            }
        },
        Err(e) => Err(e),
    }
}

spec fn compose_str_pairs(
    prefix: Seq<(Seq<char>, Seq<char>)>,
    r: Result<(Seq<(Seq<char>, Seq<char>)>, Seq<u8>), CodecError>,
) -> Result<(Seq<(Seq<char>, Seq<char>)>, Seq<u8>), CodecError> {
    match r {
        Ok((rest, rem)) => Ok((prefix + rest, rem)),
        Err(e) => Err(e),
    }
}

fn rd_str_pairs(buf: &[u8], pos: usize, n: u32) -> (r: Result<
    (Vec<(String, String)>, usize),
    CodecError,
>)
    requires
        pos <= buf@.len(),
    ensures
        match r {
            Ok((v, p)) => pos <= p <= buf@.len() && p_str_pairs(buf@.skip(pos as int), n as nat)
                == Ok::<(Seq<(Seq<char>, Seq<char>)>, Seq<u8>), CodecError>(
                (crate::messages::view_str_pairs(v@), buf@.skip(p as int)),
            ),
            Err(e) => p_str_pairs(buf@.skip(pos as int), n as nat) == Err::<
                (Seq<(Seq<char>, Seq<char>)>, Seq<u8>),
                CodecError,
            >(e),
        },
{
    let mut acc: Vec<(String, String)> = Vec::new();
    let mut cur = pos;
    let mut i: u32 = 0;
    proof {
        assert(crate::messages::view_str_pairs(acc@) =~= Seq::<(Seq<char>, Seq<char>)>::empty());
    }
    while i < n
        invariant
            0 <= i <= n,
            pos <= cur <= buf@.len(),
            acc@.len() == i,
            p_str_pairs(buf@.skip(pos as int), n as nat) == compose_str_pairs(
                crate::messages::view_str_pairs(acc@),
                p_str_pairs(buf@.skip(cur as int), (n - i) as nat),
            ),
        decreases n - i,
    {
        let ghost acc0 = acc@;
        let ghost cur0 = cur as int;
        let name = match rd_string(buf, cur) {
            Ok((s, p)) => {
                cur = p;
                s
            },
            Err(e) => {
                return Err(e);
            },
        };
        let value = match rd_string(buf, cur) {
            Ok((s, p)) => {
                cur = p;
                s
            },
            Err(e) => {
                proof {
                    assert(p_str_pairs(buf@.skip(cur0), (n - i) as nat) == Err::<
                        (Seq<(Seq<char>, Seq<char>)>, Seq<u8>),
                        CodecError,
                    >(e));
                }
                return Err(e);
            },
        };
        acc.push((name, value));
        proof {
            let pair = (name@, value@);
            assert(crate::messages::view_str_pairs(acc@) =~= crate::messages::view_str_pairs(
                acc0,
            ).push(pair));
            let inner = p_str_pairs(buf@.skip(cur as int), (n - i - 1) as nat);
            assert(p_str_pairs(buf@.skip(cur0), (n - i) as nat) == (match inner {
                Ok((rest, rem)) => Ok::<_, CodecError>((seq![pair] + rest, rem)),
                Err(e) => Err(e),
            }));
            if inner is Ok {
                let (rest, rem) = inner->Ok_0;
                lemma_assoc_any(crate::messages::view_str_pairs(acc0), seq![pair], rest);
                assert(crate::messages::view_str_pairs(acc0) + seq![pair]
                    =~= crate::messages::view_str_pairs(acc@));
            }
        }
        i += 1;
    }
    proof {
        assert(p_str_pairs(buf@.skip(cur as int), 0) == Ok::<_, CodecError>(
            (Seq::<(Seq<char>, Seq<char>)>::empty(), buf@.skip(cur as int)),
        ));
        assert(crate::messages::view_str_pairs(acc@) + Seq::<(Seq<char>, Seq<char>)>::empty()
            =~= crate::messages::view_str_pairs(acc@));
    }
    Ok((acc, cur))
}

spec fn compose_byte_pairs(
    prefix: Seq<(Seq<u8>, Seq<u8>)>,
    r: Result<(Seq<(Seq<u8>, Seq<u8>)>, Seq<u8>), CodecError>,
) -> Result<(Seq<(Seq<u8>, Seq<u8>)>, Seq<u8>), CodecError> {
    match r {
        Ok((rest, rem)) => Ok((prefix + rest, rem)),
        Err(e) => Err(e),
    }
}

fn rd_byte_pairs(buf: &[u8], pos: usize, n: u32) -> (r: Result<
    (Vec<(Vec<u8>, Vec<u8>)>, usize),
    CodecError,
>)
    requires
        pos <= buf@.len(),
    ensures
        match r {
            Ok((v, p)) => pos <= p <= buf@.len() && p_byte_pairs(buf@.skip(pos as int), n as nat)
                == Ok::<(Seq<(Seq<u8>, Seq<u8>)>, Seq<u8>), CodecError>(
                (view_byte_pairs(v@), buf@.skip(p as int)),
            ),
            Err(e) => p_byte_pairs(buf@.skip(pos as int), n as nat) == Err::<
                (Seq<(Seq<u8>, Seq<u8>)>, Seq<u8>),
                CodecError,
            >(e),
        },
{
    let mut acc: Vec<(Vec<u8>, Vec<u8>)> = Vec::new();
    let mut cur = pos;
    let mut i: u32 = 0;
    proof {
        assert(view_byte_pairs(acc@) =~= Seq::<(Seq<u8>, Seq<u8>)>::empty());
    }
    while i < n
        invariant
            0 <= i <= n,
            pos <= cur <= buf@.len(),
            acc@.len() == i,
            p_byte_pairs(buf@.skip(pos as int), n as nat) == compose_byte_pairs(
                view_byte_pairs(acc@),
                p_byte_pairs(buf@.skip(cur as int), (n - i) as nat),
            ),
        decreases n - i,
    {
        let ghost acc0 = acc@;
        let ghost cur0 = cur as int;
        let name = match rd_bytes(buf, cur) {
            Ok((s, p)) => {
                cur = p;
                s
            },
            Err(e) => {
                return Err(e);
            },
        };
        let value = match rd_bytes(buf, cur) {
            Ok((s, p)) => {
                cur = p;
                s
            },
            Err(e) => {
                proof {
                    assert(p_byte_pairs(buf@.skip(cur0), (n - i) as nat) == Err::<
                        (Seq<(Seq<u8>, Seq<u8>)>, Seq<u8>),
                        CodecError,
                    >(e));
                }
                return Err(e);
            },
        };
        acc.push((name, value));
        proof {
            let pair = (name@, value@);
            assert(view_byte_pairs(acc@) =~= view_byte_pairs(acc0).push(pair));
            let inner = p_byte_pairs(buf@.skip(cur as int), (n - i - 1) as nat);
            assert(p_byte_pairs(buf@.skip(cur0), (n - i) as nat) == (match inner {
                Ok((rest, rem)) => Ok::<_, CodecError>((seq![pair] + rest, rem)),
                Err(e) => Err(e),
            }));
            if inner is Ok {
                let (rest, rem) = inner->Ok_0;
                lemma_assoc_any(view_byte_pairs(acc0), seq![pair], rest);
                assert(view_byte_pairs(acc0) + seq![pair] =~= view_byte_pairs(acc@));
            }
        }
        i += 1;
    }
    proof {
        assert(p_byte_pairs(buf@.skip(cur as int), 0) == Ok::<_, CodecError>(
            (Seq::<(Seq<u8>, Seq<u8>)>::empty(), buf@.skip(cur as int)),
        ));
        assert(view_byte_pairs(acc@) + Seq::<(Seq<u8>, Seq<u8>)>::empty() =~= view_byte_pairs(
            acc@,
        ));
    }
    Ok((acc, cur))
}

/// Decodes a request payload. The result agrees with `dec_req` on the
/// buffer in every case: the request on success, and the exact error kind
/// on truncated, malformed, or trailing bytes.
pub fn decode_request(buf: &[u8]) -> (r: Result<ParsedRequest, CodecError>)
    ensures
        match r {
            Ok(req) => dec_req(buf@) == Ok::<ReqView, CodecError>(req@),
            Err(e) => dec_req(buf@) == Err::<ReqView, CodecError>(e),
        },
{
    proof {
        assert(buf@.skip(0) =~= buf@);
    }
    let (method, p1) = match rd_method(buf, 0) {
        Ok(v) => v,
        Err(e) => {
            return Err(e);
        },
    };
    let (scheme, p2) = match rd_opt_string(buf, p1) {
        Ok(v) => v,
        Err(e) => {
            return Err(e);
        },
    };
    let (path, p3) = match rd_string(buf, p2) {
        Ok(v) => v,
        Err(e) => {
            return Err(e);
        },
    };
    let (query_string, p4) = match rd_opt_string(buf, p3) {
        Ok(v) => v,
        Err(e) => {
            return Err(e);
        },
    };
    let (n, p5) = match rd_u32(buf, p4) {
        Ok(v) => v,
        Err(e) => {
            return Err(e);
        },
    };
    let (headers, p6) = match rd_str_pairs(buf, p5, n) {
        Ok(v) => v,
        Err(e) => {
            return Err(e);
        },
    };
    let (body, p7) = match rd_bytes(buf, p6) {
        Ok(v) => v,
        Err(e) => {
            return Err(e);
        },
    };
    if p7 != buf.len() {
        proof {
            assert(buf@.skip(p7 as int).len() != 0);
        }
        return Err(CodecError::Malformed);
    }
    proof {
        assert(buf@.skip(p7 as int).len() == 0);
    }
    let uri = crate::messages::Uri::new(scheme, path, query_string);
    let req = ParsedRequest { headers, method, body, uri };
    proof {
        assert(dec_req(buf@) matches Ok(v) && v =~= req@);
    }
    Ok(req)
}

/// Decodes a response-message payload, agreeing with `dec_msg` on the
/// buffer in every case.
pub fn decode_msg(buf: &[u8]) -> (r: Result<ASGIMessages, CodecError>)
    ensures
        match r {
            Ok(m) => dec_msg(buf@) == Ok::<MsgView, CodecError>(m@),
            Err(e) => dec_msg(buf@) == Err::<MsgView, CodecError>(e),
        },
{
    proof {
        assert(buf@.skip(0) =~= buf@);
    }
    let (tag, p1) = match rd_u8(buf, 0) {
        Ok(v) => v,
        Err(e) => {
            return Err(e);
        },
    };
    if tag == 0 {
        let (response_type, p2) = match rd_string(buf, p1) {
            Ok(v) => v,
            Err(e) => {
                return Err(e);
            },
        };
        let (status, p3) = match rd_u16(buf, p2) {
            Ok(v) => v,
            Err(e) => {
                return Err(e);
            },
        };
        let (n, p4) = match rd_u32(buf, p3) {
            Ok(v) => v,
            Err(e) => {
                return Err(e);
            },
        };
        let (headers, p5) = match rd_byte_pairs(buf, p4, n) {
            Ok(v) => v,
            Err(e) => {
                return Err(e);
            },
        };
        let (trailers, p6) = match rd_bool(buf, p5) {
            Ok(v) => v,
            Err(e) => {
                return Err(e);
            },
        };
        if p6 != buf.len() {
            proof {
                assert(buf@.skip(p6 as int).len() != 0);
            }
            return Err(CodecError::Malformed);
        }
        proof {
            assert(buf@.skip(p6 as int).len() == 0);
        }
        let start = crate::messages::HttpResponseStart { response_type, status, headers, trailers };
        let m = ASGIMessages::HttpResponseStart(start);
        proof {
            assert(dec_msg(buf@) matches Ok(v) && v =~= m@);
        }
        Ok(m)
    } else if tag == 1 {
        let (body, p2) = match rd_bytes(buf, p1) {
            Ok(v) => v,
            Err(e) => {
                return Err(e);
            },
        };
        if p2 != buf.len() {
            proof {
                assert(buf@.skip(p2 as int).len() != 0);
            }
            return Err(CodecError::Malformed);
        }
        proof {
            assert(buf@.skip(p2 as int).len() == 0);
        }
        let m = ASGIMessages::HttpResponseBody(crate::messages::HttpResponseBody { body });
        proof {
            assert(dec_msg(buf@) matches Ok(v) && v =~= m@);
        }
        Ok(m)
    } else {
        Err(CodecError::Malformed)
    }
}

} // verus!
