//! The closed set of failure classes a boundary call can surface.

use vstd::prelude::*;

verus! {

/// Why a boundary call failed.
#[derive(Clone, Copy, PartialEq, Eq, Structural, Debug)]
pub enum ErrorKind {
    /// A malformed argument crossed the boundary: a corrupt wire buffer or
    /// text that is not valid UTF-8.
    ArgumentDecoding,
    /// The engine failed to open a database or produce a connection.
    Construction,
    /// The engine rejected an operation on an otherwise healthy handle.
    Operation,
    /// A programming error at the boundary itself: a stale or mistyped
    /// handle, or an exhausted handle space.
    Protocol,
}

/// A host-visible error: a closed kind plus the engine's textual message.
#[derive(Debug)]
pub struct BridgeError {
    pub kind: ErrorKind,
    pub message: String,
}

impl BridgeError {
    pub fn argument_decoding(message: String) -> (r: BridgeError)
        ensures
            r.kind == ErrorKind::ArgumentDecoding,
            r.message == message,
    {
        BridgeError { kind: ErrorKind::ArgumentDecoding, message }
    }

    pub fn construction(message: String) -> (r: BridgeError)
        ensures
            r.kind == ErrorKind::Construction,
            r.message == message,
    {
        BridgeError { kind: ErrorKind::Construction, message }
    }

    pub fn operation(message: String) -> (r: BridgeError)
        ensures
            r.kind == ErrorKind::Operation,
            r.message == message,
    {
        BridgeError { kind: ErrorKind::Operation, message }
    }

    pub fn protocol(message: String) -> (r: BridgeError)
        ensures
            r.kind == ErrorKind::Protocol,
            r.message == message,
    {
        BridgeError { kind: ErrorKind::Protocol, message }
    }
}

} // verus!
