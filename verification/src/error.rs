//! Error objects and return codes surfaced across the boundary.
//!
//! Failures are reported in two strata: a coarse `fluxio_code` returned
//! directly by many calls, and a richer `fluxio_error` carried by a task
//! that failed, from which the code and a printable detail text can be
//! recovered.

use vstd::prelude::*;
use vstd::string::StrSliceExecFns;

verus! {

/// A return code for many of the boundary's methods.
#[derive(Clone, Copy, Debug, PartialEq, Eq, Structural)]
pub enum fluxio_code {
    /// All is well.
    FLUXIO_OK,
    /// General error, details in the `fluxio_error`.
    FLUXIO_ERROR,
    /// A function argument was invalid.
    FLUXIO_INVALID_ARG,
    /// The IO transport returned an EOF when one wasn't expected.
    FLUXIO_UNEXPECTED_EOF,
    /// Aborted by a user supplied callback.
    FLUXIO_ABORTED_BY_CALLBACK,
    /// An optional engine feature was not enabled.
    FLUXIO_FEATURE_NOT_ENABLED,
    /// The peer sent an HTTP message that could not be parsed.
    FLUXIO_INVALID_PEER_MESSAGE,
}

/// The failure classes an error object can carry.
#[derive(Clone, Copy, Debug, PartialEq, Eq, Structural)]
pub enum ErrorKind {
    /// The peer sent a message that could not be parsed.
    Parse,
    /// The transport closed before a full message arrived.
    IncompleteMessage,
    /// A user callback asked to abort the operation.
    AbortedByCallback,
    /// A user body's data callback reported an error.
    BodyWriteAborted,
    /// A user body's data callback returned an unknown code.
    BodyWrite,
    /// The transport reported an I/O failure.
    Io,
}

/// A more detailed error object returned by some boundary functions.
pub struct fluxio_error {
    kind: ErrorKind,
    message: Vec<u8>,
}

impl fluxio_error {
    /// The failure class this error carries.
    pub closed spec fn kind_spec(&self) -> ErrorKind {
        self.kind
    }

    /// The printable detail text, as bytes.
    pub closed spec fn message_spec(&self) -> Seq<u8> {
        self.message@
    }

    /// Build an error of the given class with the given detail text.
    pub fn new(kind: ErrorKind, message: Vec<u8>) -> (r: fluxio_error)
        ensures
            r.kind_spec() == kind,
            r.message_spec() == message@,
    {
        fluxio_error { kind, message }
    }

    /// The error produced when a foreach callback breaks the iteration.
    pub fn aborted_by_callback() -> (r: fluxio_error)
        ensures
            r.kind_spec() == ErrorKind::AbortedByCallback,
    {
        fluxio_error { kind: ErrorKind::AbortedByCallback, message: "operation aborted by callback".as_bytes_vec() }
    }

    /// The error produced when a body data callback reports a failure.
    pub fn body_write_aborted() -> (r: fluxio_error)
        ensures
            r.kind_spec() == ErrorKind::BodyWriteAborted,
    {
        fluxio_error { kind: ErrorKind::BodyWriteAborted, message: "body write aborted".as_bytes_vec() }
    }

    /// The error produced when a body data callback returns a code outside
    /// the sentinel protocol.
    pub fn body_write_unexpected() -> (r: fluxio_error)
        ensures
            r.kind_spec() == ErrorKind::BodyWrite,
    {
        fluxio_error { kind: ErrorKind::BodyWrite, message: "unexpected body data callback return code".as_bytes_vec() }
    }

    /// The error produced when the transport reports an I/O failure.
    pub fn io_error() -> (r: fluxio_error)
        ensures
            r.kind_spec() == ErrorKind::Io,
    {
        fluxio_error { kind: ErrorKind::Io, message: "io error".as_bytes_vec() }
    }

    /// The failure class, for callers that match on it.
    pub fn kind(&self) -> (r: ErrorKind)
        ensures
            r == self.kind_spec(),
    {
        self.kind
    }

    /// Get an equivalent `fluxio_code` from this error.
    pub fn code(&self) -> (r: fluxio_code)
        ensures
            r == code_of_kind(self.kind_spec()),
    {
        match self.kind {
            ErrorKind::Parse => fluxio_code::FLUXIO_INVALID_PEER_MESSAGE,
            ErrorKind::IncompleteMessage => fluxio_code::FLUXIO_UNEXPECTED_EOF,
            ErrorKind::AbortedByCallback => fluxio_code::FLUXIO_ABORTED_BY_CALLBACK,
            _ => fluxio_code::FLUXIO_ERROR,
        }
    }

    /// Print the details of this error into the front of `dst`, whose length
    /// is the maximum that can be stored; returns how many bytes were
    /// written.  Bytes of `dst` past the written prefix keep their old
    /// values, and `dst` keeps its length.
    pub fn print_to(&self, dst: &mut Vec<u8>) -> (r: usize)
        ensures
            r == if self.message_spec().len() <= old(dst)@.len() {
                self.message_spec().len() as int
            } else {
                old(dst)@.len() as int
            },
            final(dst)@ == self.message_spec().take(r as int) + old(dst)@.skip(r as int),
    {
        let n = if self.message.len() <= dst.len() {
            self.message.len()
        } else {
            dst.len()
        };
        let mut i: usize = 0;
        while i < n
            invariant
                i <= n,
                n <= self.message@.len(),
                n <= dst@.len(),
                dst@.len() == old(dst)@.len(),
                dst@ == self.message@.take(i as int) + old(dst)@.skip(i as int),
            decreases n - i,
        {
            let b = self.message[i];
            dst.set(i, b);
            proof {
                assert(dst@ =~= self.message@.take(i + 1) + old(dst)@.skip(i + 1));
            }
            i = i + 1;
        }
        n
    }
}

/// The `fluxio_code` equivalent of each failure class.
pub open spec fn code_of_kind(k: ErrorKind) -> fluxio_code {
    match k {
        ErrorKind::Parse => fluxio_code::FLUXIO_INVALID_PEER_MESSAGE,
        ErrorKind::IncompleteMessage => fluxio_code::FLUXIO_UNEXPECTED_EOF,
        ErrorKind::AbortedByCallback => fluxio_code::FLUXIO_ABORTED_BY_CALLBACK,
        ErrorKind::BodyWriteAborted => fluxio_code::FLUXIO_ERROR,
        ErrorKind::BodyWrite => fluxio_code::FLUXIO_ERROR,
        ErrorKind::Io => fluxio_code::FLUXIO_ERROR,
    }
}

/// Frees an error object.
pub fn fluxio_error_free(err: fluxio_error) {
    let _ = err;
}

/// Get an equivalent `fluxio_code` from this error.
pub fn fluxio_error_code(err: &fluxio_error) -> (r: fluxio_code)
    ensures
        r == code_of_kind(err.kind_spec()),
{
    err.code()
}

/// Print the details of this error into the front of `dst`; returns the
/// number of bytes written.
pub fn fluxio_error_print(err: &fluxio_error, dst: &mut Vec<u8>) -> (r: usize)
    ensures
        r == if err.message_spec().len() <= old(dst)@.len() {
            err.message_spec().len() as int
        } else {
            old(dst)@.len() as int
        },
        final(dst)@ == err.message_spec().take(r as int) + old(dst)@.skip(r as int),
{
    err.print_to(dst)
}

} // verus!
