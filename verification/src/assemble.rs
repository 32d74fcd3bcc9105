//! Front-end response assembly: folding the worker's response-message
//! stream into one HTTP response. The first message must be a
//! `ResponseStart`; a `ResponseBody` completes the response with the
//! accumulated status and headers.

use vstd::prelude::*;
use crate::errors::DispatchError;
use crate::messages::{ASGIMessages, view_byte_pairs};

verus! {

/// Mathematical image of an assembled HTTP response.
#[verifier::ext_equal]
pub struct RespView {
    pub status: u16,
    pub headers: Seq<(Seq<u8>, Seq<u8>)>,
    pub body: Seq<u8>,
}

/// The HTTP response handed back to the client: the application's status,
/// its headers in emission order and byte-for-byte, and its body. Nothing
/// is added: no length header is computed and no header is normalized.
#[derive(Debug)]
pub struct HttpResponse {
    pub status: u16,
    pub headers: Vec<(Vec<u8>, Vec<u8>)>,
    pub body: Vec<u8>,
}

impl View for HttpResponse {
    type V = RespView;

    open spec fn view(&self) -> RespView {
        RespView {
            status: self.status,
            headers: view_byte_pairs(self.headers@),
            body: self.body@,
        }
    }
}

/// Assembly state: waiting for the first message, accumulating after a
/// `ResponseStart`, or complete.
pub enum AsmState {
    AwaitStart,
    AwaitBody { status: u16, headers: Vec<(Vec<u8>, Vec<u8>)> },
    Done,
}

/// Incremental response assembler, fed one decoded message at a time as
/// frames arrive from the worker.
pub struct Assembler {
    pub state: AsmState,
}

impl Assembler {
    pub fn new() -> (r: Assembler)
        ensures
            r.state is AwaitStart,
    {
        Assembler { state: AsmState::AwaitStart }
    }

    /// Feeds the next response message. A `ResponseStart` records status
    /// and appends headers in arrival order; a `ResponseBody` completes
    /// the response with exactly the accumulated status, headers and the
    /// message's body. A `ResponseBody` before any `ResponseStart`, or any
    /// message after completion, is the worker talking out of turn:
    /// `WorkerProtocol`.
    pub fn on_msg(&mut self, msg: ASGIMessages) -> (r: Result<Option<HttpResponse>, DispatchError>)
        ensures
            match old(self).state {
                AsmState::AwaitStart => match msg {
                    ASGIMessages::HttpResponseStart(s) => r is Ok && r->Ok_0 is None && (
                    final(self).state matches AsmState::AwaitBody { status, headers } && status
                        == s@.status && view_byte_pairs(headers@) == s@.headers),
                    ASGIMessages::HttpResponseBody(_) => r == Err::<
                        Option<HttpResponse>,
                        DispatchError,
                    >(DispatchError::WorkerProtocol) && final(self).state is Done,
                },
                AsmState::AwaitBody { status, headers } => match msg {
                    ASGIMessages::HttpResponseStart(s) => r is Ok && r->Ok_0 is None && (
                    final(self).state matches AsmState::AwaitBody {
                        status: st2,
                        headers: hs2,
                    } && st2 == s@.status && view_byte_pairs(hs2@) == view_byte_pairs(headers@)
                        + s@.headers),
                    ASGIMessages::HttpResponseBody(b) => r is Ok && (r->Ok_0 matches Some(resp)
                        && resp@ == (RespView {
                        status,
                        headers: view_byte_pairs(headers@),
                        body: b@,
                    })) && final(self).state is Done,
                },
                AsmState::Done => r == Err::<Option<HttpResponse>, DispatchError>(
                    DispatchError::WorkerProtocol,
                ) && final(self).state is Done,
            },
    {
        let mut prev = AsmState::Done;
        core::mem::swap(&mut prev, &mut self.state);
        match prev {
            AsmState::AwaitStart => match msg {
                ASGIMessages::HttpResponseStart(s) => {
                    self.state = AsmState::AwaitBody { status: s.status, headers: s.headers };
                    Ok(None)
                },
                ASGIMessages::HttpResponseBody(_) => Err(DispatchError::WorkerProtocol),
            },
            AsmState::AwaitBody { status, mut headers } => match msg {
                ASGIMessages::HttpResponseStart(s) => {
                    let ghost hs0 = headers@;
                    let mut more = s.headers;
                    headers.append(&mut more);
                    proof {
                        assert(view_byte_pairs(headers@) =~= view_byte_pairs(hs0)
                            + view_byte_pairs(s.headers@));
                    }
                    self.state = AsmState::AwaitBody { status: s.status, headers };
                    Ok(None)
                },
                ASGIMessages::HttpResponseBody(b) => {
                    let resp = HttpResponse { status, headers, body: b.body };
                    Ok(Some(resp))
                },
            },
            AsmState::Done => Err(DispatchError::WorkerProtocol),
        }
    }
}

/// One-shot assembly of the core's exact two-frame stream: the client
/// sees the application's status, its header list in the same order with
/// the same bytes, and its body; an empty body stays a zero-byte body.
pub fn assemble_pair(start: crate::messages::HttpResponseStart, body:
    crate::messages::HttpResponseBody) -> (r: HttpResponse)
    ensures
        r@.status == start@.status,
        r@.headers == start@.headers,
        r@.body == body@,
{
    HttpResponse { status: start.status, headers: start.headers, body: body.body }
}

/// The HTTP response the front-end sends when dispatch fails: the error
/// kind's status code, no headers, an empty body.
pub fn error_response(e: DispatchError) -> (r: HttpResponse)
    ensures
        r@.status == e.spec_http_status(),
        r@.headers == Seq::<(Seq<u8>, Seq<u8>)>::empty(),
        r@.body == Seq::<u8>::empty(),
{
    let r = HttpResponse { status: e.http_status(), headers: Vec::new(), body: Vec::new() };
    proof {
        assert(r@.headers =~= Seq::<(Seq<u8>, Seq<u8>)>::empty());
    }
    r
}

} // verus!
