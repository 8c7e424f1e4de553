use vstd::prelude::*;

verus! {

/// Why an inbound byte sequence was rejected.
#[derive(Debug, Clone, Copy, PartialEq, Eq, Structural)]
pub enum ProtocolError {
    /// A varint had no terminating byte within five bytes, or the input ended first.
    MalformedVarint,
    /// A string length prefix was negative.
    InvalidLength,
    /// The bytes of a string were not valid UTF-8.
    InvalidUtf8,
    /// The input ended before a field was complete.
    Truncated,
    /// The handshake did not carry packet id 0.
    UnexpectedPacketId,
    /// The handshake asked for a state other than status or login.
    InvalidNextState,
}

} // verus!
