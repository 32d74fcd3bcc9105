//! Worker-side IPC connection logic: admitting one decoded request at a
//! time and holding the response pair to its strict order. Socket reads
//! and writes stay outside; this module decides what each buffer means
//! and what may be written back.

use vstd::prelude::*;
use crate::codec::{dec_req, decode_request};
use crate::errors::{CodecError, WorkerError};
use crate::messages::{ASGIMessages, ParsedRequest, ReqView};

verus! {

/// Per-IPC-connection state in a worker: the connection id and the
/// request currently being served, if any. Created on accept, destroyed
/// on close.
pub struct ConnectionCtx {
    pub id: u32,
    pub current: Option<ParsedRequest>,
}

impl ConnectionCtx {
    pub fn new(id: u32) -> (r: ConnectionCtx)
        ensures
            r.id == id,
            r.current is None,
    {
        ConnectionCtx { id, current: None }
    }

    /// Decodes the next request payload and admits it as the current
    /// request. Requests are strictly serial: one may only be admitted
    /// when none is in flight. On a decode failure nothing is admitted
    /// and the caller closes the connection.
    pub fn begin_request(&mut self, payload: &[u8]) -> (r: Result<(), WorkerError>)
        requires
            old(self).current is None,
        ensures
            final(self).id == old(self).id,
            match r {
                Ok(()) => dec_req(payload@) matches Ok(v) && (final(self).current matches Some(req)
                    && req@ == v),
                Err(we) => (we matches WorkerError::Codec(e) && dec_req(payload@) == Err::<
                    ReqView,
                    CodecError,
                >(e)) && final(self).current is None,
            },
    {
        match decode_request(payload) {
            Ok(req) => {
                self.current = Some(req);
                Ok(())
            },
            Err(e) => Err(WorkerError::Codec(e)),
        }
    }

    /// Releases the current request once its response pair has been
    /// written, making the connection ready for the next one.
    pub fn finish_request(&mut self)
        ensures
            final(self).id == old(self).id,
            final(self).current is None,
    {
        self.current = None;
    }
}

/// Whether the response frame at position `i` of a request's two-frame
/// answer is in order: a `ResponseStart` at position 0, a `ResponseBody`
/// at position 1, nothing else anywhere.
pub fn response_in_order(i: usize, msg: &ASGIMessages) -> (r: bool)
    ensures
        r == ((i == 0 && msg@ is Start) || (i == 1 && msg@ is Body)),
{
    match msg {
        ASGIMessages::HttpResponseStart(_) => i == 0,
        ASGIMessages::HttpResponseBody(_) => i == 1,
    }
}

/// Holds a request's full response pair to the protocol: accepted exactly
/// when it is one `ResponseStart` followed by one `ResponseBody`; any
/// other shape is `UnexpectedMessage` and terminates the connection.
pub fn check_response_pair(first: &ASGIMessages, second: &ASGIMessages) -> (r: Result<
    (),
    WorkerError,
>)
    ensures
        r is Ok <==> (first@ is Start && second@ is Body),
        (r matches Err(e) ==> e == WorkerError::UnexpectedMessage),
{
    if response_in_order(0, first) && response_in_order(1, second) {
        Ok(())
    } else {
        Err(WorkerError::UnexpectedMessage)
    }
}

} // verus!
