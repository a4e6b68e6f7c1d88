//! The errors of the RPC transports and the bridge.
use vstd::prelude::*;

verus! {

/// Why the bridge failed; the texts are those of the underlying errors.
#[derive(Debug)]
pub enum BridgeError {
    InvalidPort(String),
    BindFailed(String, String),
    WebSocketError(String),
    SerializationError(String),
    BroadcastFailed,
    ClientError(String),
}

/// Why an RPC transport or handler failed.
#[derive(Debug)]
pub enum ArrusError {
    SocketNotFound(u32),
    SendError,
    MissingArgs,
    SerializationError(String),
    BridgeError(BridgeError),
    IoError(String),
    Io(String),
    /// A packet header names no known packet type.
    InvalidPacketType(u32),
    /// Fewer bytes than the header announces.
    InsufficientData,
    /// A required handshake field is missing.
    MissingField(String),
    /// The handshake version does not fit in a byte.
    InvalidVersion(u64),
    /// The handshake version is not one the server speaks.
    UnsupportedVersion(u8),
    /// The handshake names no client.
    MissingClientId,
    /// None of the socket paths tried was free.
    SocketPathNotAvailable,
}

} // verus!
