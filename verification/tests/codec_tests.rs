use ferricorn::codec::{decode_msg, decode_request, encode_msg, encode_request};
use ferricorn::errors::CodecError;
use ferricorn::frame::{
    check_frame_len, decode_frame, encode_frame, parse_frame_len, DEFAULT_MAX_FRAME_LEN,
};
use ferricorn::messages::{
    ASGIMessages, HttpMethod, HttpResponseBody, HttpResponseStart, ParsedRequest, Uri,
};

fn sample_request() -> ParsedRequest {
    let uri = Uri::new(
        Some("http".to_string()),
        "/x".to_string(),
        Some("q=1".to_string()),
    );
    ParsedRequest::new(
        vec![
            ("Host".to_string(), "localhost:3100".to_string()),
            ("X-Tränen".to_string(), "übermut".to_string()),
        ],
        HttpMethod::PATCH,
        b"p".to_vec(),
        uri,
    )
}

#[test]
fn request_round_trip() {
    let req = sample_request();
    let bytes = encode_request(&req);
    let back = decode_request(&bytes).expect("decode must succeed");
    assert!(matches!(back.method, HttpMethod::PATCH));
    assert_eq!(back.uri.scheme(), Some("http"));
    assert_eq!(back.uri.path(), "/x");
    assert_eq!(back.uri.query_string(), Some("q=1"));
    assert_eq!(back.body, b"p".to_vec());
    assert_eq!(back.headers.len(), 2);
    assert_eq!(back.headers[0].0, "Host");
    assert_eq!(back.headers[0].1, "localhost:3100");
    assert_eq!(back.headers[1].0, "X-Tränen");
    assert_eq!(back.headers[1].1, "übermut");
}

#[test]
fn request_round_trip_minimal() {
    let uri = Uri::new(None, "/".to_string(), None);
    let req = ParsedRequest::new(Vec::new(), HttpMethod::GET, Vec::new(), uri);
    let bytes = encode_request(&req);
    let back = decode_request(&bytes).expect("decode must succeed");
    assert!(matches!(back.method, HttpMethod::GET));
    assert_eq!(back.uri.scheme(), None);
    assert_eq!(back.uri.path(), "/");
    assert_eq!(back.uri.query_string(), None);
    assert!(back.headers.is_empty());
    assert!(back.body.is_empty());
}

#[test]
fn request_encoding_exact_bytes() {
    let uri = Uri::new(None, "/".to_string(), None);
    let req = ParsedRequest::new(Vec::new(), HttpMethod::GET, b"p".to_vec(), uri);
    let bytes = encode_request(&req);
    let expected: Vec<u8> = vec![
        1, // method tag: GET
        0, // scheme: absent
        0, 0, 0, 1, b'/', // path
        0, // query string: absent
        0, 0, 0, 0, // header count
        0, 0, 0, 1, b'p', // body
    ];
    assert_eq!(bytes, expected);
}

#[test]
fn request_encoding_deterministic() {
    let a = encode_request(&sample_request());
    let b = encode_request(&sample_request());
    assert_eq!(a, b);
}

#[test]
fn msg_round_trip_start() {
    let mut start = HttpResponseStart::new("http.response.start", 200);
    start.add_header(b"content-type", b"text/plain");
    start.add_header(b"x-b", b"2");
    start.set_trailers(false);
    let msg = ASGIMessages::HttpResponseStart(start);
    let bytes = encode_msg(&msg);
    match decode_msg(&bytes).expect("decode must succeed") {
        ASGIMessages::HttpResponseStart(s) => {
            assert_eq!(s.response_type, "http.response.start");
            assert_eq!(s.status, 200);
            assert_eq!(s.headers.len(), 2);
            assert_eq!(s.headers[0].0, b"content-type".to_vec());
            assert_eq!(s.headers[0].1, b"text/plain".to_vec());
            assert_eq!(s.headers[1].0, b"x-b".to_vec());
            assert_eq!(s.headers[1].1, b"2".to_vec());
            assert!(!s.trailers);
        }
        other => panic!("wrong variant: {:?}", other),
    }
}

#[test]
fn msg_round_trip_body() {
    let msg = ASGIMessages::HttpResponseBody(HttpResponseBody::new(b"hi".to_vec()));
    let bytes = encode_msg(&msg);
    match decode_msg(&bytes).expect("decode must succeed") {
        ASGIMessages::HttpResponseBody(b) => assert_eq!(b.body(), b"hi"),
        other => panic!("wrong variant: {:?}", other),
    }
}

#[test]
fn msg_body_encoding_exact_bytes() {
    let msg = ASGIMessages::HttpResponseBody(HttpResponseBody::new(b"hi".to_vec()));
    let bytes = encode_msg(&msg);
    assert_eq!(bytes, vec![1, 0, 0, 0, 2, b'h', b'i']);
}

#[test]
fn decode_msg_truncated() {
    assert!(matches!(decode_msg(&[]), Err(CodecError::Truncated)));
    assert!(matches!(
        decode_msg(&[1, 0, 0, 0, 5, b'h']),
        Err(CodecError::Truncated)
    ));
}

#[test]
fn decode_msg_bad_tag_is_malformed() {
    assert!(matches!(decode_msg(&[9, 0, 0, 0, 0]), Err(CodecError::Malformed)));
}

#[test]
fn decode_msg_trailing_garbage_is_malformed() {
    let msg = ASGIMessages::HttpResponseBody(HttpResponseBody::new(b"hi".to_vec()));
    let mut bytes = encode_msg(&msg);
    bytes.push(0);
    assert!(matches!(decode_msg(&bytes), Err(CodecError::Malformed)));
}

#[test]
fn decode_request_truncated_and_malformed() {
    assert!(matches!(decode_request(&[]), Err(CodecError::Truncated)));
    // method tag 7 does not exist
    assert!(matches!(
        decode_request(&[7, 0, 0, 0, 0, 0]),
        Err(CodecError::Malformed)
    ));
    // invalid UTF-8 in the path
    let bytes: Vec<u8> = vec![1, 0, 0, 0, 0, 1, 0xff, 0, 0, 0, 0, 0, 0, 0, 0, 0];
    assert!(matches!(decode_request(&bytes), Err(CodecError::Malformed)));
    // trailing garbage after a complete request
    let uri = Uri::new(None, "/".to_string(), None);
    let req = ParsedRequest::new(Vec::new(), HttpMethod::GET, Vec::new(), uri);
    let mut enc = encode_request(&req);
    enc.push(0);
    assert!(matches!(decode_request(&enc), Err(CodecError::Malformed)));
}

#[test]
fn frame_round_trip() {
    let payload: Vec<u8> = b"abc".to_vec();
    let framed = encode_frame(&payload, DEFAULT_MAX_FRAME_LEN).expect("fits");
    assert_eq!(framed, vec![0, 0, 0, 3, b'a', b'b', b'c']);
    assert_eq!(parse_frame_len(&framed, DEFAULT_MAX_FRAME_LEN), Ok(3));
    assert_eq!(decode_frame(&framed, DEFAULT_MAX_FRAME_LEN), Ok(payload));
}

#[test]
fn frame_at_ceiling_accepted() {
    let payload = vec![0u8; DEFAULT_MAX_FRAME_LEN as usize];
    let framed = encode_frame(&payload, DEFAULT_MAX_FRAME_LEN).expect("at the ceiling fits");
    assert_eq!(decode_frame(&framed, DEFAULT_MAX_FRAME_LEN), Ok(payload));
    assert_eq!(check_frame_len(DEFAULT_MAX_FRAME_LEN, DEFAULT_MAX_FRAME_LEN), Ok(()));
}

#[test]
fn frame_over_ceiling_rejected() {
    let payload = vec![0u8; DEFAULT_MAX_FRAME_LEN as usize + 1];
    assert_eq!(
        encode_frame(&payload, DEFAULT_MAX_FRAME_LEN),
        Err(CodecError::FrameTooLarge)
    );
    assert_eq!(
        check_frame_len(DEFAULT_MAX_FRAME_LEN + 1, DEFAULT_MAX_FRAME_LEN),
        Err(CodecError::FrameTooLarge)
    );
    // decode side: a declared length one over the ceiling
    let prefix: [u8; 4] = [1, 0, 0, 1];
    assert_eq!(
        parse_frame_len(&prefix, DEFAULT_MAX_FRAME_LEN),
        Err(CodecError::FrameTooLarge)
    );
}

#[test]
fn frame_truncated() {
    assert_eq!(
        parse_frame_len(&[0, 0, 1], DEFAULT_MAX_FRAME_LEN),
        Err(CodecError::Truncated)
    );
    assert_eq!(
        decode_frame(&[0, 0, 0, 4, 1, 2], DEFAULT_MAX_FRAME_LEN),
        Err(CodecError::Truncated)
    );
}
