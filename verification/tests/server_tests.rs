use ferricorn::adapter::{build_scope, receive_event, Adapter, SendEvent};
use ferricorn::args::{split_module_attr, Arguments};
use ferricorn::assemble::{assemble_pair, error_response, Assembler};
use ferricorn::codec::encode_request;
use ferricorn::dispatch::WorkerPool;
use ferricorn::errors::{AppError, CodecError, DispatchError, WorkerError};
use ferricorn::frame::{frame_msg, DEFAULT_MAX_FRAME_LEN};
use ferricorn::messages::{
    ASGIMessages, HttpMethod, HttpResponseBody, HttpResponseStart, ParsedRequest, Uri,
};
use ferricorn::worker::{check_response_pair, response_in_order, ConnectionCtx};

fn patch_request() -> ParsedRequest {
    let uri = Uri::new(None, "/x".to_string(), Some("q=1".to_string()));
    ParsedRequest::new(
        vec![("X-Test".to_string(), "One".to_string())],
        HttpMethod::PATCH,
        b"p".to_vec(),
        uri,
    )
}

#[test]
fn method_parse_case_insensitive() {
    assert!(matches!(
        HttpMethod::try_from("PATCH".to_string()),
        Ok(HttpMethod::PATCH)
    ));
    assert!(matches!(
        HttpMethod::try_from("get".to_string()),
        Ok(HttpMethod::GET)
    ));
    assert!(matches!(
        HttpMethod::try_from("Put".to_string()),
        Ok(HttpMethod::PUT)
    ));
    match HttpMethod::try_from("BREW".to_string()) {
        Err(e) => assert_eq!(e, "BREW"),
        Ok(m) => panic!("BREW accepted as {:?}", m),
    }
}

#[test]
fn method_names() {
    assert_eq!(HttpMethod::GET.name(), "GET");
    assert_eq!(HttpMethod::POST.name(), "POST");
    assert_eq!(HttpMethod::PATCH.name(), "PATCH");
    assert_eq!(HttpMethod::OPTIONS.name(), "OPTIONS");
    assert_eq!(HttpMethod::DELETE.name(), "DELETE");
    assert_eq!(HttpMethod::HEAD.name(), "HEAD");
    assert_eq!(HttpMethod::PUT.name(), "PUT");
}

#[test]
fn response_start_builders() {
    let mut start = HttpResponseStart::new("http.response.start", 204);
    assert_eq!(start.response_type, "http.response.start");
    assert_eq!(start.status, 204);
    assert!(start.headers.is_empty());
    assert!(!start.trailers);
    start.add_header(b"a", b"1");
    start.add_header(b"b", b"2");
    start.set_trailers(true);
    assert_eq!(start.headers.len(), 2);
    assert_eq!(start.headers[1], (b"b".to_vec(), b"2".to_vec()));
    assert!(start.trailers);
}

#[test]
fn response_body_accessors() {
    let body = HttpResponseBody::new(b"xyz".to_vec());
    assert_eq!(body.body(), b"xyz");
}

// Round-robin over two workers: four requests go 0, 1, 0, 1.
#[test]
fn round_robin_two_workers() {
    let mut pool = WorkerPool::new();
    pool.add_slot("/tmp/w0".to_string());
    pool.add_slot("/tmp/w1".to_string());
    let picks: Vec<String> = (0..4).map(|_| pool.round_robin().unwrap()).collect();
    assert_eq!(picks, vec!["/tmp/w0", "/tmp/w1", "/tmp/w0", "/tmp/w1"]);
}

// An empty slot list means NoWorker, which the client sees as 503.
#[test]
fn empty_pool_is_503() {
    let mut pool = WorkerPool::new();
    match pool.round_robin() {
        Err(e) => {
            assert_eq!(e, DispatchError::NoWorker);
            assert_eq!(e.http_status(), 503);
        }
        Ok(w) => panic!("selected {} from an empty pool", w),
    }
    let resp = error_response(DispatchError::NoWorker);
    assert_eq!(resp.status, 503);
    assert!(resp.headers.is_empty());
    assert!(resp.body.is_empty());
}

// A worker that exits while holding a request: the client sees 502 and
// the front-end removes the slot, so later requests skip it.
#[test]
fn worker_crash_removes_slot() {
    let mut pool = WorkerPool::new();
    pool.add_slot("/tmp/w0".to_string());
    pool.add_slot("/tmp/w1".to_string());
    assert_eq!(pool.round_robin().unwrap(), "/tmp/w0");
    assert_eq!(DispatchError::WorkerAborted.http_status(), 502);
    assert!(pool.remove_slot(&"/tmp/w0".to_string()));
    assert!(!pool.remove_slot(&"/tmp/w0".to_string()));
    for _ in 0..3 {
        assert_eq!(pool.round_robin().unwrap(), "/tmp/w1");
    }
}

#[test]
fn dispatch_error_statuses() {
    assert_eq!(DispatchError::BadRequest.http_status(), 400);
    assert_eq!(DispatchError::NoWorker.http_status(), 503);
    assert_eq!(DispatchError::WorkerUnreachable.http_status(), 502);
    assert_eq!(DispatchError::WorkerAborted.http_status(), 502);
    assert_eq!(DispatchError::WorkerProtocol.http_status(), 502);
}

// Echo: ResponseStart{200, [("content-type","text/plain")]} then
// ResponseBody{"hi"} assembles to status 200, that header, body "hi".
#[test]
fn echo_assembly() {
    let mut start = HttpResponseStart::new("http.response.start", 200);
    start.add_header(b"content-type", b"text/plain");
    let mut folder = Assembler::new();
    let none = folder
        .on_msg(ASGIMessages::HttpResponseStart(start))
        .expect("start accepted");
    assert!(none.is_none());
    let resp = folder
        .on_msg(ASGIMessages::HttpResponseBody(HttpResponseBody::new(
            b"hi".to_vec(),
        )))
        .expect("body accepted")
        .expect("response complete");
    assert_eq!(resp.status, 200);
    assert_eq!(
        resp.headers,
        vec![(b"content-type".to_vec(), b"text/plain".to_vec())]
    );
    assert_eq!(resp.body, b"hi".to_vec());
}

// Headers reach the response in emission order, byte for byte.
#[test]
fn header_order_and_bytes_preserved() {
    let mut start = HttpResponseStart::new("http.response.start", 200);
    start.add_header(b"B-Second", b"2");
    start.add_header(b"a-first", b"1");
    start.add_header(b"B-Second", b"3");
    let resp = assemble_pair(start, HttpResponseBody::new(Vec::new()));
    assert_eq!(
        resp.headers,
        vec![
            (b"B-Second".to_vec(), b"2".to_vec()),
            (b"a-first".to_vec(), b"1".to_vec()),
            (b"B-Second".to_vec(), b"3".to_vec()),
        ]
    );
}

// Status is preserved end-to-end.
#[test]
fn status_preserved() {
    let start = HttpResponseStart::new("http.response.start", 418);
    let resp = assemble_pair(start, HttpResponseBody::new(Vec::new()));
    assert_eq!(resp.status, 418);
}

// An empty body yields a zero-byte body; a content-length header appears
// only if the application set one.
#[test]
fn empty_body_zero_bytes() {
    let start = HttpResponseStart::new("http.response.start", 200);
    let resp = assemble_pair(start, HttpResponseBody::new(Vec::new()));
    assert_eq!(resp.body.len(), 0);
    assert!(resp.headers.is_empty());

    let mut with_len = HttpResponseStart::new("http.response.start", 200);
    with_len.add_header(b"content-length", b"0");
    let resp = assemble_pair(with_len, HttpResponseBody::new(Vec::new()));
    assert_eq!(
        resp.headers,
        vec![(b"content-length".to_vec(), b"0".to_vec())]
    );
}

// A body frame before any start frame is a protocol error: 502.
#[test]
fn body_first_is_worker_protocol() {
    let mut folder = Assembler::new();
    match folder.on_msg(ASGIMessages::HttpResponseBody(HttpResponseBody::new(
        Vec::new(),
    ))) {
        Err(e) => {
            assert_eq!(e, DispatchError::WorkerProtocol);
            assert_eq!(e.http_status(), 502);
        }
        Ok(_) => panic!("body before start accepted"),
    }
}

// Scope construction for `PATCH /x?q=1` with body "p".
#[test]
fn scope_records_request() {
    let req = patch_request();
    let scope = build_scope(&req);
    assert_eq!(scope.scope_type, "http");
    assert_eq!(scope.asgi_version, "3.0");
    assert_eq!(scope.spec_version, "2.1");
    assert_eq!(scope.http_version, "1.1");
    assert_eq!(scope.method, "PATCH");
    assert_eq!(scope.scheme, None);
    assert_eq!(scope.path, "/x");
    assert_eq!(scope.raw_path, b"/x".to_vec());
    assert_eq!(scope.query_string, Some("q=1".to_string()));
    assert_eq!(scope.root_path, "");
    assert_eq!(
        scope.headers,
        vec![(b"x-test".to_vec(), b"One".to_vec())]
    );
}

#[test]
fn receive_event_carries_body_once() {
    let req = patch_request();
    let ev = receive_event(&req);
    assert_eq!(ev.event_type, "http.request");
    assert_eq!(ev.body, b"p".to_vec());
    assert!(!ev.more_body);
}

// A well-behaved app: exactly one start, one body, in order.
#[test]
fn adapter_normal_invocation() {
    let mut adapter = Adapter::new();
    adapter
        .on_send(SendEvent::Start {
            status: 200,
            headers: vec![(b"content-type".to_vec(), b"text/plain".to_vec())],
        })
        .expect("start accepted");
    adapter
        .on_send(SendEvent::Body {
            body: b"hi".to_vec(),
            more_body: false,
        })
        .expect("body accepted");
    let (start, body) = adapter.finish();
    assert_eq!(start.status, 200);
    assert_eq!(
        start.headers,
        vec![(b"content-type".to_vec(), b"text/plain".to_vec())]
    );
    assert_eq!(body.body(), b"hi");
}

// Body chunks with more_body=true are coalesced into one terminating chunk.
#[test]
fn adapter_coalesces_chunks() {
    let mut adapter = Adapter::new();
    adapter
        .on_send(SendEvent::Start {
            status: 200,
            headers: Vec::new(),
        })
        .unwrap();
    adapter
        .on_send(SendEvent::Body {
            body: b"ab".to_vec(),
            more_body: true,
        })
        .unwrap();
    adapter
        .on_send(SendEvent::Body {
            body: b"cd".to_vec(),
            more_body: false,
        })
        .unwrap();
    let (_, body) = adapter.finish();
    assert_eq!(body.body(), b"abcd");
}

// An app that raises before its start event gets a synthetic 500 with an
// empty body, and the invocation still yields the two-frame pair.
#[test]
fn app_exception_before_start() {
    let adapter = Adapter::new();
    let (start, body) = adapter.finish();
    assert_eq!(start.status, 500);
    assert!(start.headers.is_empty());
    assert_eq!(body.body(), b"");
}

// An app that raises after its start keeps the start and gets an empty
// terminating body.
#[test]
fn app_exception_after_start() {
    let mut adapter = Adapter::new();
    adapter
        .on_send(SendEvent::Start {
            status: 201,
            headers: vec![(b"a".to_vec(), b"1".to_vec())],
        })
        .unwrap();
    let (start, body) = adapter.finish();
    assert_eq!(start.status, 201);
    assert_eq!(start.headers, vec![(b"a".to_vec(), b"1".to_vec())]);
    assert_eq!(body.body(), b"");
}

// Out-of-order sends are AppProtocol and end in a synthetic 500.
#[test]
fn adapter_out_of_order_send() {
    let mut adapter = Adapter::new();
    match adapter.on_send(SendEvent::Body {
        body: b"x".to_vec(),
        more_body: false,
    }) {
        Err(e) => assert_eq!(e, AppError::AppProtocol),
        Ok(()) => panic!("body before start accepted"),
    }
    let (start, body) = adapter.finish();
    assert_eq!(start.status, 500);
    assert!(start.headers.is_empty());
    assert_eq!(body.body(), b"");
}

// Events of any other type are dropped.
#[test]
fn adapter_drops_other_events() {
    let mut adapter = Adapter::new();
    adapter.on_send(SendEvent::Other).unwrap();
    adapter
        .on_send(SendEvent::Start {
            status: 200,
            headers: Vec::new(),
        })
        .unwrap();
    adapter.on_send(SendEvent::Other).unwrap();
    adapter
        .on_send(SendEvent::Body {
            body: Vec::new(),
            more_body: false,
        })
        .unwrap();
    let (start, _) = adapter.finish();
    assert_eq!(start.status, 200);
}

// The worker decodes an admitted request and serves it serially.
#[test]
fn connection_admits_decoded_request() {
    let req = patch_request();
    let payload = encode_request(&req);
    let mut conn = ConnectionCtx::new(7);
    conn.begin_request(&payload).expect("decodes");
    let held = conn.current.as_ref().expect("request admitted");
    assert!(matches!(held.method, HttpMethod::PATCH));
    assert_eq!(held.body, b"p".to_vec());
    conn.finish_request();
    assert!(conn.current.is_none());
    assert_eq!(conn.id, 7);
}

// A malformed payload admits nothing; the connection closes.
#[test]
fn connection_rejects_malformed_payload() {
    let mut conn = ConnectionCtx::new(1);
    match conn.begin_request(&[7, 1, 2]) {
        Err(WorkerError::Codec(CodecError::Malformed)) => {}
        other => panic!("unexpected: {:?}", other),
    }
    assert!(conn.current.is_none());
}

#[test]
fn app_errors_synthesize_500() {
    assert_eq!(AppError::AppProtocol.synthesized_status(), 500);
    assert_eq!(AppError::AppException.synthesized_status(), 500);
}

// Exactly one ResponseStart then one ResponseBody traverse the IPC per
// request; any other pair shape is refused.
#[test]
fn response_pair_order_enforced() {
    let start = ASGIMessages::HttpResponseStart(HttpResponseStart::new("http.response.start", 200));
    let body = ASGIMessages::HttpResponseBody(HttpResponseBody::new(Vec::new()));
    assert!(check_response_pair(&start, &body).is_ok());
    assert!(matches!(
        check_response_pair(&body, &start),
        Err(WorkerError::UnexpectedMessage)
    ));
    assert!(matches!(
        check_response_pair(&start, &start),
        Err(WorkerError::UnexpectedMessage)
    ));
    assert!(matches!(
        check_response_pair(&body, &body),
        Err(WorkerError::UnexpectedMessage)
    ));
    assert!(response_in_order(0, &start));
    assert!(response_in_order(1, &body));
    assert!(!response_in_order(0, &body));
    assert!(!response_in_order(1, &start));
}

// A ResponseBody over the 16 MiB ceiling cannot be framed: the IPC
// closes and the client observes 502.
#[test]
fn oversize_body_refused() {
    let big = vec![0u8; DEFAULT_MAX_FRAME_LEN as usize + 1];
    let msg = ASGIMessages::HttpResponseBody(HttpResponseBody::new(big));
    assert!(matches!(
        frame_msg(&msg, DEFAULT_MAX_FRAME_LEN),
        Err(CodecError::FrameTooLarge)
    ));
    assert_eq!(DispatchError::WorkerAborted.http_status(), 502);
}

#[test]
fn default_arguments() {
    let args = Arguments::default();
    assert_eq!(args.module, "echo_server:app");
    assert_eq!(args.sock, "/tmp/worker-1");
}

#[test]
fn module_attr_split() {
    assert_eq!(
        split_module_attr("echo_server:app"),
        Some(("echo_server".to_string(), "app".to_string()))
    );
    assert_eq!(
        split_module_attr("a:b:c"),
        Some(("a".to_string(), "b:c".to_string()))
    );
    assert_eq!(split_module_attr("nocolon"), None);
    assert_eq!(split_module_attr(""), None);
}
