//! The ways a protocol request can fail.

use vstd::prelude::*;

verus! {

/// Why a request was refused.
#[derive(Clone, Copy, Debug, PartialEq, Eq, Structural)]
pub enum ProtocolError {
    /// The group setting is malformed.
    InvalidParameters,
    /// A protocol field does not decode to a number in range.
    InvalidInput,
    /// A challenge was asked for a username that was never registered.
    UserNotFound,
    /// The authentication id is unknown, expired or already answered.
    ChallengeNotFound,
    /// The response does not satisfy the verification equations.
    BadSolution,
    /// No unused authentication id could be drawn.
    AuthIdUnavailable,
}

/// The text that describes each refusal.
pub open spec fn message_text(e: ProtocolError) -> Seq<char> {
    match e {
        ProtocolError::InvalidParameters => "invalid group parameters"@,
        ProtocolError::InvalidInput => "invalid input"@,
        ProtocolError::UserNotFound => "user not found"@,
        ProtocolError::ChallengeNotFound => "challenge not found"@,
        ProtocolError::BadSolution => "bad solution"@,
        ProtocolError::AuthIdUnavailable => "no authentication id available"@,
    }
}

impl ProtocolError {
    /// A short description of the refusal.
    pub fn message(&self) -> (r: String)
        ensures
            r@ == message_text(*self),
    {
        match self {
            ProtocolError::InvalidParameters => String::from_str("invalid group parameters"),
            ProtocolError::InvalidInput => String::from_str("invalid input"),
            ProtocolError::UserNotFound => String::from_str("user not found"),
            ProtocolError::ChallengeNotFound => String::from_str("challenge not found"),
            ProtocolError::BadSolution => String::from_str("bad solution"),
            ProtocolError::AuthIdUnavailable => String::from_str("no authentication id available"),
        }
    }
}

} // verus!
