//! The error taxonomy of the client. Every variant is recoverable by the
//! automation loop: a failed call is logged by the caller and the phase moves
//! on.
use vstd::prelude::*;

verus! {

/// A failed backend interaction.
#[derive(Debug, Clone, PartialEq, Eq)]
pub enum WeLoveError {
    /// The HTTP transport failed; carries the rendered transport error.
    Transport(String),
    /// A response body or a located message did not decode; carries the
    /// rendered decode error.
    Decode(String),
    /// An otherwise well-formed envelope held no message with the wanted
    /// discriminator.
    MissingMessage(i64),
    /// Any other failure, described in text.
    Other(String),
}

pub type WeLoveResult<T> = Result<T, WeLoveError>;

impl WeLoveError {
    /// True of the recoverable "message not found" condition.
    pub fn is_missing_message(&self) -> (r: bool)
        ensures
            r == (self is MissingMessage),
    {
        match self {
            WeLoveError::MissingMessage(_) => true,
            _ => false,
        }
    }
}

} // verus!
