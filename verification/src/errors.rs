//! The failure taxonomy of a delivery. Causes are carried precisely here;
//! how much of them is disclosed to a caller is decided where answers are
//! written.

use vstd::prelude::*;

verus! {

/// Why a delivery did not reach its room.
#[derive(Clone, Copy, Debug, PartialEq, Eq, Structural)]
pub enum DeliveryError {
    /// The request body could not be decoded as text.
    MalformedRequest,
    /// No room matched the requested identifier or name.
    RoomNotFound,
    /// The room stayed in its invited state past the waiting ceiling.
    JoinTimeout,
    /// The poke did not present the room's token.
    AuthRejected,
    /// The send-allowed policy refused the room; callers are not told.
    SendRejectedByPolicy,
    /// The room accepted the message but the send itself failed.
    SendFailed,
    /// A tag write failed; surfaced hard, a lost config write is worse
    /// than a visible error.
    TagWriteFailure,
}

impl DeliveryError {
    /// A short name for logs and replies.
    pub fn describe(&self) -> (r: &'static str)
        ensures
            r@ == match self {
                DeliveryError::MalformedRequest => "malformed request"@,
                DeliveryError::RoomNotFound => "failed to find room"@,
                DeliveryError::JoinTimeout => "failed to join room"@,
                DeliveryError::AuthRejected => "incorrect authentication token"@,
                DeliveryError::SendRejectedByPolicy => "refused by policy"@,
                DeliveryError::SendFailed => "failed to send message"@,
                DeliveryError::TagWriteFailure => "failed to write room tags"@,
            },
    {
        match self {
            DeliveryError::MalformedRequest => "malformed request",
            DeliveryError::RoomNotFound => "failed to find room",
            DeliveryError::JoinTimeout => "failed to join room",
            DeliveryError::AuthRejected => "incorrect authentication token",
            DeliveryError::SendRejectedByPolicy => "refused by policy",
            DeliveryError::SendFailed => "failed to send message",
            DeliveryError::TagWriteFailure => "failed to write room tags",
        }
    }
}

} // verus!
