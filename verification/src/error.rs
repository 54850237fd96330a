//! Error taxonomy: wire-level protocol errors and connection-level errors.

use vstd::prelude::*;
use crate::notice::NoticeBody;
use crate::session::SessionState;

verus! {

/// A wire-level decoding failure.
#[derive(Clone, Copy, Debug, PartialEq, Eq, Structural)]
pub enum ProtocolError {
    /// Too few bytes to frame or to read a field; more input is needed.
    Truncated,
    /// Malformed payload; carries the message identifier byte where known.
    Invalid(u8),
    /// A field that must be text did not decode as UTF-8.
    Utf8,
    /// A decimal field did not parse as an integer.
    ParseInt,
}

/// A connection-level failure surfaced to the caller.
#[derive(Clone, Debug, PartialEq, Eq)]
pub enum PgError {
    /// Transport failure; fatal to the connection. Raised by the embedder.
    Io,
    /// Malformed wire data; the connection is poisoned.
    Protocol(ProtocolError),
    /// The server requested an authentication method this core does not
    /// implement; carries the authentication sub-kind code.
    Unsupported(u32),
    /// The server closed the handshake with an error.
    Rejected(NoticeBody),
    /// A non-fatal server-reported error; the connection is usable again
    /// after the next `ReadyForQuery`.
    Server(NoticeBody),
    /// Caller misuse: a request was issued in the wrong session state.
    State { expected: SessionState, actual: SessionState },
    /// The server demanded a password but none was configured.
    MissingPassword,
}

impl From<ProtocolError> for PgError {
    fn from(err: ProtocolError) -> (r: PgError) {
        PgError::Protocol(err)
    }
}

impl vstd::std_specs::convert::FromSpecImpl<ProtocolError> for PgError {
    open spec fn obeys_from_spec() -> bool {
        true
    }

    open spec fn from_spec(err: ProtocolError) -> PgError {
        PgError::Protocol(err)
    }
}

} // verus!
