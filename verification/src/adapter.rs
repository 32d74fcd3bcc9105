//! Gateway-contract adapter: for each request it builds the immutable
//! scope, offers the single receive event, folds the application's send
//! events through a small state machine, and always hands the IPC layer
//! exactly one `ResponseStart` followed by exactly one `ResponseBody`,
//! synthesizing a 500 response when the application misbehaves.

use vstd::prelude::*;
use vstd::string::StrSliceExecFns;
use vstd::utf8::encode_utf8;
use crate::errors::AppError;
use crate::messages::{
    ASGIMessages, HttpResponseBody, HttpResponseStart, MsgView, ParsedRequest, view_byte_pairs,
};

verus! {

/// The lower-case ASCII fold of one byte.
pub open spec fn lower_byte(b: u8) -> u8 {
    if 65 <= b && b <= 90 {
        (b + 32) as u8
    } else {
        b
    }
}

/// The lower-case ASCII fold of a byte sequence, as the gateway contract
/// prescribes for header names.
pub open spec fn lower_bytes(s: Seq<u8>) -> Seq<u8> {
    s.map_values(|b: u8| lower_byte(b))
}

/// Lower-case ASCII fold of a string's UTF-8 bytes.
fn lower_ascii_bytes(s: &str) -> (r: Vec<u8>)
    ensures
        r@ == lower_bytes(encode_utf8(s@)),
{
    let bytes = s.as_bytes_vec();
    let mut out: Vec<u8> = Vec::new();
    let mut i: usize = 0;
    while i < bytes.len()
        invariant
            0 <= i <= bytes@.len(),
            bytes@ == encode_utf8(s@),
            out@.len() == i,
            forall|j: int| 0 <= j < i ==> out@[j] == lower_byte(bytes@[j]),
        decreases bytes@.len() - i,
    {
        let b = bytes[i];
        if 65 <= b && b <= 90 {
            out.push(b + 32);
        } else {
            out.push(b);
        }
        i += 1;
    }
    proof {
        assert(out@ =~= lower_bytes(encode_utf8(s@)));
    }
    out
}

/// The immutable scope mapping handed to the application as its first
/// argument, with every field a plain value.
#[derive(Debug)]
pub struct Scope {
    pub scope_type: String,
    pub asgi_version: String,
    pub spec_version: String,
    pub http_version: String,
    pub method: String,
    pub scheme: Option<String>,
    pub path: String,
    pub raw_path: Vec<u8>,
    pub query_string: Option<String>,
    pub root_path: String,
    pub headers: Vec<(Vec<u8>, Vec<u8>)>,
}

/// Builds the scope of one request: fixed protocol fields, the method's
/// upper-case name, the URI components with the path also in raw byte
/// form, and each header as bytes with the name lower-cased.
pub fn build_scope(req: &ParsedRequest) -> (r: Scope)
    ensures
        r.scope_type@ == "http"@,
        r.asgi_version@ == "3.0"@,
        r.spec_version@ == "2.1"@,
        r.http_version@ == "1.1"@,
        r.method@ == req@.method.spec_name(),
        crate::messages::view_opt_string(r.scheme) == req@.uri.scheme,
        r.path@ == req@.uri.path,
        r.raw_path@ == encode_utf8(req@.uri.path),
        crate::messages::view_opt_string(r.query_string) == req@.uri.query_string,
        r.root_path@ == ""@,
        r.headers@.len() == req@.headers.len(),
        forall|i: int|
            0 <= i < req@.headers.len() ==> (#[trigger] view_byte_pairs(r.headers@)[i]).0
                == lower_bytes(encode_utf8(req@.headers[i].0)) && view_byte_pairs(r.headers@)[i].1
                == encode_utf8(req@.headers[i].1),
{
    let scheme = match req.uri.scheme() {
        Some(s) => Some(s.to_owned()),
        None => None,
    };
    let query_string = match req.uri.query_string() {
        Some(s) => Some(s.to_owned()),
        None => None,
    };
    let mut headers: Vec<(Vec<u8>, Vec<u8>)> = Vec::new();
    let mut i: usize = 0;
    while i < req.headers.len()
        invariant
            0 <= i <= req.headers@.len(),
            req@.headers.len() == req.headers@.len(),
            headers@.len() == i,
            forall|j: int|
                0 <= j < i ==> (#[trigger] view_byte_pairs(headers@)[j]).0 == lower_bytes(
                    encode_utf8(req@.headers[j].0),
                ) && view_byte_pairs(headers@)[j].1 == encode_utf8(req@.headers[j].1),
        decreases req.headers@.len() - i,
    {
        let pair = &req.headers[i];
        assert(req@.headers[i as int] == (pair.0@, pair.1@));
        let name = lower_ascii_bytes(pair.0.as_str());
        let value = pair.1.as_str().as_bytes_vec();
        let ghost h0 = headers@;
        headers.push((name, value));
        proof {
            assert(view_byte_pairs(headers@) =~= view_byte_pairs(h0).push((name@, value@)));
        }
        i += 1;
    }
    Scope {
        scope_type: "http".to_owned(),
        asgi_version: "3.0".to_owned(),
        spec_version: "2.1".to_owned(),
        http_version: "1.1".to_owned(),
        method: req.method.name().to_owned(),
        scheme,
        path: req.uri.path().to_owned(),
        raw_path: req.uri.path().as_bytes_vec(),
        query_string,
        root_path: "".to_owned(),
        headers,
    }
}

/// The one event the receive capability resolves to: the buffered request
/// body, with no further body to come.
#[derive(Debug)]
pub struct ReceiveEvent {
    pub event_type: String,
    pub body: Vec<u8>,
    pub more_body: bool,
}

/// The event the first `receive` call yields: the whole request body and
/// `more_body == false`. Later calls never resolve and yield no event.
pub fn receive_event(req: &ParsedRequest) -> (r: ReceiveEvent)
    ensures
        r.event_type@ == "http.request"@,
        r.body@ == req@.body,
        r.more_body == false,
{
    ReceiveEvent {
        event_type: "http.request".to_owned(),
        body: vstd::slice::slice_to_vec(req.body.as_slice()),
        more_body: false,
    }
}

/// A send event, already dispatched on its `type` string: a response
/// start, a body chunk, or any other type, which is dropped.
#[derive(Debug)]
pub enum SendEvent {
    Start { status: u16, headers: Vec<(Vec<u8>, Vec<u8>)> },
    Body { body: Vec<u8>, more_body: bool },
    Other,
}

/// Adapter state over one invocation: before the start event, collecting
/// body chunks, response complete, or terminated by a protocol error.
pub enum AdState {
    AwaitStart,
    AwaitBody { status: u16, headers: Vec<(Vec<u8>, Vec<u8>)>, partial: Vec<u8> },
    Done { status: u16, headers: Vec<(Vec<u8>, Vec<u8>)>, body: Vec<u8> },
    Failed,
}

/// Per-invocation adapter state machine.
pub struct Adapter {
    pub state: AdState,
}

impl Adapter {
    pub fn new() -> (r: Adapter)
        ensures
            r.state is AwaitStart,
    {
        Adapter { state: AdState::AwaitStart }
    }

    /// Folds one send event into the state. A start event is accepted
    /// only first; body chunks only after it, coalesced until one with
    /// `more_body == false` completes the response; events of any other
    /// type are dropped wherever the invocation still runs. Everything
    /// else is out of order: `AppProtocol`, and the invocation is
    /// terminated.
    pub fn on_send(&mut self, ev: SendEvent) -> (r: Result<(), AppError>)
        ensures
            match old(self).state {
                AdState::AwaitStart => match ev {
                    SendEvent::Start { status, headers } => r is Ok && (final(self).state
                        matches AdState::AwaitBody { status: st, headers: hs, partial } && st
                        == status && hs@ == headers@ && partial@ == Seq::<u8>::empty()),
                    SendEvent::Body { .. } => r == Err::<(), AppError>(AppError::AppProtocol)
                        && final(self).state is Failed,
                    SendEvent::Other => r is Ok && final(self).state == old(self).state,
                },
                AdState::AwaitBody { status, headers, partial } => match ev {
                    SendEvent::Start { .. } => r == Err::<(), AppError>(AppError::AppProtocol)
                        && final(self).state is Failed,
                    SendEvent::Body { body, more_body } => r is Ok && (if more_body {
                        final(self).state matches AdState::AwaitBody {
                            status: st,
                            headers: hs,
                            partial: pb,
                        } && st == status && hs@ == headers@ && pb@ == partial@ + body@
                    } else {
                        final(self).state matches AdState::Done {
                            status: st,
                            headers: hs,
                            body: pb,
                        } && st == status && hs@ == headers@ && pb@ == partial@ + body@
                    }),
                    SendEvent::Other => r is Ok && final(self).state == old(self).state,
                },
                AdState::Done { .. } => match ev {
                    SendEvent::Other => r is Ok && final(self).state == old(self).state,
                    _ => r == Err::<(), AppError>(AppError::AppProtocol) && final(self).state
                        is Failed,
                },
                AdState::Failed => r == Err::<(), AppError>(AppError::AppProtocol)
                    && final(self).state is Failed,
            },
    {
        if let SendEvent::Other = ev {
            return if let AdState::Failed = &self.state {
                Err(AppError::AppProtocol)
            } else {
                Ok(())
            };
        }
        let mut prev = AdState::Failed;
        core::mem::swap(&mut prev, &mut self.state);
        match prev {
            AdState::AwaitStart => match ev {
                SendEvent::Start { status, headers } => {
                    self.state = AdState::AwaitBody { status, headers, partial: Vec::new() };
                    Ok(())
                },
                _ => Err(AppError::AppProtocol),
            },
            AdState::AwaitBody { status, headers, mut partial } => match ev {
                SendEvent::Body { body, more_body } => {
                    let ghost p0 = partial@;
                    let mut chunk = body;
                    partial.append(&mut chunk);
                    if more_body {
                        self.state = AdState::AwaitBody { status, headers, partial };
                    } else {
                        self.state = AdState::Done { status, headers, body: partial };
                    }
                    Ok(())
                },
                _ => Err(AppError::AppProtocol),
            },
            AdState::Done { .. } => Err(AppError::AppProtocol),
            AdState::Failed => Err(AppError::AppProtocol),
        }
    }

    /// Ends the invocation and yields the exact two messages that
    /// traverse the IPC, in order: one `ResponseStart`, then one
    /// `ResponseBody`. The state holds the whole story: a completed
    /// response passes through unchanged; an application that raised
    /// before its start event, ended without one, or broke the event
    /// order gets the synthetic `ResponseStart { 500, [] }` and an empty
    /// body; one that raised or ended mid-body keeps its start and is
    /// completed with the chunks received so far.
    pub fn finish(self) -> (r: (HttpResponseStart, HttpResponseBody))
        ensures
            match self.state {
                AdState::Done { status, headers, body } => r.0@.status == status && r.0@.headers
                    == view_byte_pairs(headers@) && r.1@ == body@,
                AdState::AwaitBody { status, headers, partial } => r.0@.status == status
                    && r.0@.headers == view_byte_pairs(headers@) && r.1@ == partial@,
                AdState::AwaitStart => r.0@.status == 500 && r.0@.headers == Seq::<
                    (Seq<u8>, Seq<u8>),
                >::empty() && r.1@ == Seq::<u8>::empty(),
                AdState::Failed => r.0@.status == 500 && r.0@.headers == Seq::<
                    (Seq<u8>, Seq<u8>),
                >::empty() && r.1@ == Seq::<u8>::empty(),
            },
            r.0@.response_type == "http.response.start"@,
    {
        let (status, headers, body) = match self.state {
            AdState::Done { status, headers, body } => (status, headers, body),
            AdState::AwaitBody { status, headers, partial } => (status, headers, partial),
            AdState::AwaitStart => (500u16, Vec::new(), Vec::new()),
            AdState::Failed => (500u16, Vec::new(), Vec::new()),
        };
        let start = HttpResponseStart {
            response_type: "http.response.start".to_owned(),
            status,
            headers,
            trailers: false,
        };
        proof {
            if self.state is AwaitStart || self.state is Failed {
                assert(start@.headers =~= Seq::<(Seq<u8>, Seq<u8>)>::empty());
            }
        }
        (start, HttpResponseBody { body })
    }
}

/// The two-frame invariant, stated over the whole invocation: whatever
/// the application did — completed, raised at any point, or broke the
/// event order — the adapter's outcome is exactly one `ResponseStart`
/// followed by exactly one `ResponseBody`.
pub fn invocation_messages(adapter: Adapter) -> (r: Vec<ASGIMessages>)
    ensures
        r@.len() == 2,
        r@[0]@ is Start,
        r@[1]@ is Body,
        match adapter.state {
            AdState::Done { status, headers, body } => (r@[0]@ matches MsgView::Start(s)
                && s.status == status && s.headers == view_byte_pairs(headers@)) && r@[1]@
                == MsgView::Body(body@),
            AdState::AwaitBody { status, headers, partial } => (r@[0]@ matches MsgView::Start(s)
                && s.status == status && s.headers == view_byte_pairs(headers@)) && r@[1]@
                == MsgView::Body(partial@),
            AdState::AwaitStart => (r@[0]@ matches MsgView::Start(s) && s.status == 500
                && s.headers == Seq::<(Seq<u8>, Seq<u8>)>::empty()) && r@[1]@ == MsgView::Body(
                Seq::<u8>::empty(),
            ),
            AdState::Failed => (r@[0]@ matches MsgView::Start(s) && s.status == 500 && s.headers
                == Seq::<(Seq<u8>, Seq<u8>)>::empty()) && r@[1]@ == MsgView::Body(
                Seq::<u8>::empty(),
            ),
        },
{
    let (start, body) = adapter.finish();
    let mut out: Vec<ASGIMessages> = Vec::new();
    out.push(ASGIMessages::HttpResponseStart(start));
    out.push(ASGIMessages::HttpResponseBody(body));
    out
}

} // verus!
