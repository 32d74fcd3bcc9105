//! The whole request path in one place, wired exactly as the two
//! processes wire it: the front-end frames a request, the worker decodes
//! and serves it through the adapter, frames the two response messages,
//! and the front-end assembles the client's response.

use ferricorn::adapter::{build_scope, invocation_messages, receive_event, Adapter, SendEvent};
use ferricorn::assemble::Assembler;
use ferricorn::codec::decode_msg;
use ferricorn::frame::{frame_msg, frame_request, parse_frame_len, DEFAULT_MAX_FRAME_LEN};
use ferricorn::messages::{ASGIMessages, HttpMethod, ParsedRequest, Uri};
use ferricorn::worker::{response_in_order, ConnectionCtx};

#[test]
fn echo_end_to_end() {
    // Front-end: a parsed GET / with body "hi", framed for the wire.
    let uri = Uri::new(None, "/".to_string(), None);
    let req = ParsedRequest::new(
        vec![("Host".to_string(), "localhost".to_string())],
        HttpMethod::GET,
        b"hi".to_vec(),
        uri,
    );
    let wire = frame_request(&req, DEFAULT_MAX_FRAME_LEN).expect("request fits");

    // Worker: read the length prefix, decode the payload, admit it.
    let n = parse_frame_len(&wire[..4], DEFAULT_MAX_FRAME_LEN).expect("prefix");
    assert_eq!(wire.len(), 4 + n as usize);
    let mut conn = ConnectionCtx::new(0);
    conn.begin_request(&wire[4..]).expect("request decodes");
    let request = conn.current.take().expect("request admitted");

    // Adapter: the echo application returns 200 text/plain with the body
    // it received.
    let scope = build_scope(&request);
    assert_eq!(scope.method, "GET");
    assert_eq!(scope.headers, vec![(b"host".to_vec(), b"localhost".to_vec())]);
    let ev = receive_event(&request);
    let mut adapter = Adapter::new();
    adapter
        .on_send(SendEvent::Start {
            status: 200,
            headers: vec![(b"content-type".to_vec(), b"text/plain".to_vec())],
        })
        .expect("start in order");
    adapter
        .on_send(SendEvent::Body {
            body: ev.body.clone(),
            more_body: false,
        })
        .expect("body in order");
    let msgs = invocation_messages(adapter);
    conn.finish_request();

    // Worker writes both frames in order; the front-end reads them back.
    let mut arrived: Vec<ASGIMessages> = Vec::new();
    for (i, msg) in msgs.iter().enumerate() {
        assert!(response_in_order(i, msg));
        let framed = frame_msg(msg, DEFAULT_MAX_FRAME_LEN).expect("response fits");
        let n = parse_frame_len(&framed[..4], DEFAULT_MAX_FRAME_LEN).expect("prefix");
        assert_eq!(framed.len(), 4 + n as usize);
        arrived.push(decode_msg(&framed[4..]).expect("message decodes"));
    }

    // Front-end assembly: the client sees the application's response.
    let mut assembler = Assembler::new();
    let mut response = None;
    for msg in arrived {
        response = assembler.on_msg(msg).expect("frames in order");
    }
    let response = response.expect("response complete");
    assert_eq!(response.status, 200);
    assert_eq!(
        response.headers,
        vec![(b"content-type".to_vec(), b"text/plain".to_vec())]
    );
    assert_eq!(response.body, b"hi".to_vec());
}
