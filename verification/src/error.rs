use vstd::prelude::*;

verus! {

/// Errors that end a session. Every error is terminal: a caller that wants
/// to retry must start a fresh session with fresh label material.
#[derive(Clone, Copy, Debug, PartialEq, Eq, Structural)]
pub enum DeapError {
    /// The circuit's shape and the declared wire groups disagree; raised
    /// before any secret material is exchanged.
    ConfigMismatch,
    /// Label transfer during setup failed or delivered the wrong shape.
    TransferError,
    /// The transport closed or handed over a malformed payload mid-protocol.
    ChannelError,
    /// The equality check failed: the output is discarded and the peer is
    /// treated as potentially malicious.
    AuthenticityError,
    /// An operation was invoked against the wrong state; nothing changed.
    SequencingError,
}

} // verus!
