//! Why a packet could not be read.
use vstd::prelude::*;

verus! {

/// The ways in which reading a packet from a buffer can fail: in each the
/// buffer ended before the packet did.
#[derive(Debug, Clone, Copy, PartialEq, Eq, Structural)]
pub enum DecodeError {
    /// The buffer ended inside a VarInt.
    IncompleteVarInt,
    /// A handshake ended before the two bytes of its port.
    MissingHandshakePort,
    /// A login start announced a longer name than the buffer holds.
    LoginNameTruncated,
    /// A ping held fewer than four bytes.
    PingTruncated,
    /// A pong held fewer than four bytes.
    PongTruncated,
    /// A keep-alive response held fewer than eight bytes.
    KeepAliveTruncated,
    /// A chunk-batch-received packet held fewer than four bytes.
    ChunkBatchReceivedTruncated,
}

impl DecodeError {
    /// The message that accompanies the error when it is reported.
    pub fn message(&self) -> (m: &'static str)
        ensures
            m@ == self.spec_message()@,
    {
        match self {
            DecodeError::IncompleteVarInt => "Incomplete VarInt",
            DecodeError::MissingHandshakePort => "Missing handshake port",
            DecodeError::LoginNameTruncated => "LoginStart name truncated",
            DecodeError::PingTruncated => "Ping truncated",
            DecodeError::PongTruncated => "Pong truncated",
            DecodeError::KeepAliveTruncated => "KeepAlive response truncated",
            DecodeError::ChunkBatchReceivedTruncated => "ChunkBatchReceived truncated",
        }
    }

    pub open spec fn spec_message(&self) -> &'static str {
        match self {
            DecodeError::IncompleteVarInt => "Incomplete VarInt",
            DecodeError::MissingHandshakePort => "Missing handshake port",
            DecodeError::LoginNameTruncated => "LoginStart name truncated",
            DecodeError::PingTruncated => "Ping truncated",
            DecodeError::PongTruncated => "Pong truncated",
            DecodeError::KeepAliveTruncated => "KeepAlive response truncated",
            DecodeError::ChunkBatchReceivedTruncated => "ChunkBatchReceived truncated",
        }
    }
}

} // verus!
