//! Error taxonomy of the server core and the HTTP status each kind maps to.

use vstd::prelude::*;

verus! {

/// Errors of the IPC codec layer: frames and payload decoding.
#[derive(Clone, Copy, Debug, PartialEq, Eq, Structural)]
pub enum CodecError {
    /// A frame's declared length exceeds the configured ceiling.
    FrameTooLarge,
    /// The buffer ended before the value it should hold was complete.
    Truncated,
    /// The payload bytes do not form a well-formed message, or bytes
    /// remain after the message ends.
    Malformed,
}

/// Errors of the front-end dispatch path. Each maps to the HTTP status
/// the client observes.
#[derive(Clone, Copy, Debug, PartialEq, Eq, Structural)]
pub enum DispatchError {
    /// The client's request could not be parsed.
    BadRequest,
    /// The worker-slot list was empty at selection time.
    NoWorker,
    /// Connecting to the selected worker's socket failed.
    WorkerUnreachable,
    /// The worker closed the connection mid-exchange.
    WorkerAborted,
    /// The worker sent frames in the wrong order.
    WorkerProtocol,
}

/// Errors of the gateway-contract adapter inside a worker. Both are
/// recovered locally with a synthetic 500 response, preserving the
/// two-frame invariant.
#[derive(Clone, Copy, Debug, PartialEq, Eq, Structural)]
pub enum AppError {
    /// The application sent response events out of order.
    AppProtocol,
    /// The application raised instead of completing its response.
    AppException,
}

/// Errors of the worker's IPC server loop; each terminates the affected
/// connection only.
#[derive(Clone, Copy, Debug, PartialEq, Eq, Structural)]
pub enum WorkerError {
    /// A response frame arrived out of the Start-then-Body order.
    UnexpectedMessage,
    /// A request frame or payload could not be decoded.
    Codec(CodecError),
}

impl AppError {
    /// The status of the response the adapter synthesizes for this error:
    /// 500, for a protocol fault and for an exception alike.
    pub open spec fn spec_synthesized_status(self) -> u16 {
        match self {
            AppError::AppProtocol => 500u16,
            AppError::AppException => 500u16,
        }
    }

    /// Status code of the synthetic response that recovers this error.
    pub fn synthesized_status(&self) -> (s: u16)
        ensures
            s == self.spec_synthesized_status(),
    {
        match self {
            AppError::AppProtocol => 500,
            AppError::AppException => 500,
        }
    }
}

impl DispatchError {
    /// The HTTP status code reported to the client for this error kind:
    /// 400 for a bad request, 503 when no worker is available, and 502
    /// for every worker-side failure.
    pub open spec fn spec_http_status(self) -> u16 {
        match self {
            DispatchError::BadRequest => 400u16,
            DispatchError::NoWorker => 503u16,
            DispatchError::WorkerUnreachable => 502u16,
            DispatchError::WorkerAborted => 502u16,
            DispatchError::WorkerProtocol => 502u16,
        }
    }

    /// Status code sent to the client when dispatch fails with this error.
    pub fn http_status(&self) -> (s: u16)
        ensures
            s == self.spec_http_status(),
    {
        match self {
            DispatchError::BadRequest => 400,
            DispatchError::NoWorker => 503,
            DispatchError::WorkerUnreachable => 502,
            DispatchError::WorkerAborted => 502,
            DispatchError::WorkerProtocol => 502,
        }
    }
}

} // verus!
