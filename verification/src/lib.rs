//! The foreign-caller boundary of an HTTP client engine.
//!
//! This library lets code with no async runtime of its own drive the
//! engine's non-blocking work: it supplies a byte transport and message
//! bodies as sequences of explicit replies, and drives everything by
//! polling an executor one step at a time.  Every handle the boundary
//! exposes is a plain owned value here; the caller-supplied callbacks of
//! the boundary's C shape appear as queues of the replies those callbacks
//! would have returned.

#![allow(non_camel_case_types)]

pub mod body;
pub mod buf;
pub mod client;
pub mod error;
pub mod headers;
pub mod http_types;
pub mod io;
pub mod task;

use vstd::prelude::*;

verus! {

/// Return from a poll callback to indicate it was ready.
pub const FLUXIO_POLL_READY: i32 = 0;

/// Return from a poll callback to indicate it is still pending.
pub const FLUXIO_POLL_PENDING: i32 = 1;

/// Return from a poll callback to indicate an error.
pub const FLUXIO_POLL_ERROR: i32 = 3;

/// Return from an iteration callback to keep iterating.
pub const FLUXIO_ITER_CONTINUE: i32 = 0;

/// Return from an iteration callback to stop.
pub const FLUXIO_ITER_BREAK: i32 = 1;

/// Sentinel value returned from a read or write callback when the
/// operation is pending.
pub const FLUXIO_IO_PENDING: usize = 0xFFFFFFFF;

/// Sentinel value returned from a read or write callback when the
/// operation has errored.
pub const FLUXIO_IO_ERROR: usize = 0xFFFFFFFE;

/// Prefer HTTP/1.1 (or whatever the handshake negotiated).
pub const FLUXIO_HTTP_VERSION_NONE: i32 = 0;

/// HTTP/1.0.
pub const FLUXIO_HTTP_VERSION_1_0: i32 = 10;

/// HTTP/1.1.
pub const FLUXIO_HTTP_VERSION_1_1: i32 = 11;

/// HTTP/2.
pub const FLUXIO_HTTP_VERSION_2: i32 = 20;

} // verus!
