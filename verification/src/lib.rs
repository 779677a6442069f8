//! An HTTP-triggered execution gateway: callers invoke named tasks
//! (request/response) and events (fire-and-forget); each operation is
//! dispatched either to an in-process handler or forwarded to a long-lived
//! worker process over a line-delimited duplex byte stream.
//!
//! This crate holds the verified core: the protocol codec, the task/event
//! registry, the worker-channel correlation state machine, and the dispatch
//! pipeline (authentication, allow-list, routing). Process management, HTTP
//! serving and the actual stream I/O live outside the library.

pub mod auth;
pub mod channel;
pub mod dispatch;
pub mod error;
pub mod json;
pub mod models;
pub mod protocol;
pub mod registry;
