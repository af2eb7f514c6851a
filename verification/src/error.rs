//! Connection-level errors.
//!
//! A protocol violation in either SOCKS5 handshake is fatal to its
//! connection and reported as an `InvalidInput` error; a zero-length write
//! during the relay is reported as `WriteZero`; everything else that the
//! library itself can detect is `Other`.

use vstd::prelude::*;

verus! {

/// The kind of a connection error.
#[derive(Clone, Copy, PartialEq, Eq, Structural, Debug)]
pub enum ErrorKind {
    /// Malformed or unsupported handshake bytes (a protocol error).
    InvalidInput,
    /// A write call reported zero bytes written; the pipe is broken.
    WriteZero,
    /// Any other failure.
    Other,
}

/// An error carrying its kind and a fixed description.
#[derive(Clone, Copy, Debug)]
pub struct Error {
    pub kind: ErrorKind,
    pub message: &'static str,
}

/// Builds the error used for malformed handshake input, mirroring the
/// rejection path of the inbound resolver.
pub fn error_invalid_input<T>(msg: &'static str) -> (r: Result<T, Error>)
    ensures
        r matches Err(e) && e.kind == ErrorKind::InvalidInput && e.message == msg,
{
    Err(Error { kind: ErrorKind::InvalidInput, message: msg })
}

} // verus!
