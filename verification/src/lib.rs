//! Verified core of a multi-process HTTP application server: the message
//! data model, the length-prefixed IPC wire codec, round-robin worker
//! dispatch, front-end response assembly, and the gateway-contract adapter
//! state machine. Process plumbing (sockets, signals, the embedded
//! interpreter) lives outside this crate and calls into it with plain values.

pub mod adapter;
pub mod args;
pub mod assemble;
pub mod codec;
pub mod dispatch;
pub mod errors;
pub mod frame;
pub mod messages;
pub mod worker;
