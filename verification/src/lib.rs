//! Verified core of an intercepting HTTP/HTTPS proxy.
//!
//! The crate models the interception data plane: HTTP/1.1 and WebSocket
//! frame codecs, the transaction lifecycle, the breakpoint engine, the
//! upstream HTTP/2 pool with its blocklist, and the transaction store.
//! All I/O lives outside; the functions here are pure state and byte
//! transformations with contracts.

pub mod api;
pub mod breakpoint;
pub mod bridge;
pub mod ca;
pub mod capture;
pub mod codec;
pub mod forward;
pub mod headers;
pub mod method;
pub mod numfmt;
pub mod pool;
pub mod request;
pub mod store;
mod sys;
pub mod target;
pub mod text;
pub mod transaction;
pub mod websocket;
pub mod wsstore;
