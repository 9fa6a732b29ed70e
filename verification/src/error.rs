//! Protocol error taxonomy. Every error is terminal for the current
//! connection attempt; the caller owns reconnection policy.

use vstd::prelude::*;

verus! {

/// A categorized protocol error, carrying enough contextual detail (packet
/// id, byte counts, version) for diagnosis without re-parsing raw bytes.
#[derive(Debug, Clone, PartialEq, Eq)]
pub enum Error {
    /// Frame structure violated: a declared length disagrees with the bytes
    /// actually present (packet id and unconsumed byte count attached).
    MalformedFrame { packet_id: i32, leftover: usize },
    /// The protocol version or its bucket is not in the supported set.
    UnsupportedVersion { protocol_version: i32 },
    /// No schema mapping exists for a wire id at this version. Recoverable:
    /// the caller may choose to skip the packet.
    UnknownPacket { wire_id: i32 },
    /// Bad bytes for a known field type.
    FieldDecodeFailure,
    /// Underlying transport failure (constructed by the I/O layer).
    Transport,
    /// The server sent an explicit disconnect; the human-readable reason is
    /// preserved verbatim.
    RemoteDisconnect(String),
    /// A variable-length integer or frame-length ceiling was exceeded.
    EncodingLimitExceeded,
}

impl Error {
    /// True for the error kinds a byte-level decoder may produce.
    pub open spec fn is_decode_error(&self) -> bool {
        self is FieldDecodeFailure || self is EncodingLimitExceeded
    }

    /// A short stable name of the error category, for diagnostics.
    pub fn kind_name(&self) -> (r: &'static str)
        ensures
            r@ == match *self {
                Error::MalformedFrame { .. } => "malformed frame"@,
                Error::UnsupportedVersion { .. } => "unsupported version"@,
                Error::UnknownPacket { .. } => "unknown packet"@,
                Error::FieldDecodeFailure => "field decode failure"@,
                Error::Transport => "transport failure"@,
                Error::RemoteDisconnect(_) => "remote disconnect"@,
                Error::EncodingLimitExceeded => "encoding limit exceeded"@,
            },
    {
        match self {
            Error::MalformedFrame { .. } => "malformed frame",
            Error::UnsupportedVersion { .. } => "unsupported version",
            Error::UnknownPacket { .. } => "unknown packet",
            Error::FieldDecodeFailure => "field decode failure",
            Error::Transport => "transport failure",
            Error::RemoteDisconnect(_) => "remote disconnect",
            Error::EncodingLimitExceeded => "encoding limit exceeded",
        }
    }
}

} // verus!
