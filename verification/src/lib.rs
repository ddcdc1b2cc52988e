//! A verified core for a pair of small network services: a static-content
//! HTTP server and an in-memory key-value store.
//!
//! The library holds the logic that both services share: the HTTP request
//! codec, the request-resolution state machine, the status-code statistics
//! table, and the key-value map with its service handlers.  All I/O — socket
//! accept loops, file reads, RPC transport — lives outside, in callers that
//! hand this library plain bytes and take plain bytes back.

pub mod assoc;
pub mod codec;
pub mod digits;
pub mod handler;
pub mod kv;
pub mod kv_service;
pub mod mime;
pub mod pages;
pub mod render;
pub mod stats;
