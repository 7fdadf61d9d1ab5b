//! The failures that the engine reports.

use vstd::prelude::*;

verus! {

/// What can go wrong in a download session.
#[derive(Clone, Copy, Debug, PartialEq, Eq, Structural)]
pub enum EngineError {
    /// The descriptor cannot describe a torrent; nothing is started.
    MalformedMetadata,
    /// No tracker of any tier gave a usable answer.
    TrackerUnreachable,
    /// A peer answered the handshake for another torrent.
    HandshakeMismatch,
    /// A peer broke the wire protocol.
    ProtocolViolation,
    /// A completed piece did not match its hash.
    PieceVerificationFailed,
    /// The storage sink failed; the session halts.
    StorageFailed,
}

impl EngineError {
    /// Whether the session as a whole must stop on this failure.
    pub fn is_fatal(&self) -> (fatal: bool)
        ensures
            fatal == (*self is MalformedMetadata || *self is StorageFailed),
    {
        match self {
            EngineError::MalformedMetadata => true,
            EngineError::StorageFailed => true,
            _ => false,
        }
    }

    /// Whether only the peer connection that met this failure is dropped.
    pub fn is_peer_local(&self) -> (local: bool)
        ensures
            local == (*self is HandshakeMismatch || *self is ProtocolViolation),
    {
        match self {
            EngineError::HandshakeMismatch => true,
            EngineError::ProtocolViolation => true,
            _ => false,
        }
    }
}

} // verus!
