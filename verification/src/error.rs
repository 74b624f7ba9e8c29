//! Error types used throughout the game.

use vstd::prelude::*;

verus! {

/// Error type used throughout the game.
#[derive(Debug)]
pub enum GameError {
    /// A value could not be converted or parsed; carries the offending value
    /// and a short description.
    ConversionError { val: String, msg: &'static str },
    /// An unexpected condition was hit (resource exhaustion and the like).
    UnexpectedError { msg: &'static str },
}

impl GameError {
    /// True if this is a conversion error.
    pub fn is_conversion(&self) -> (r: bool)
        ensures
            r == self is ConversionError,
    {
        match self {
            GameError::ConversionError { .. } => true,
            GameError::UnexpectedError { .. } => false,
        }
    }
}

/// Builds a `ConversionError` result from the offending value and a message.
pub fn err_convert<R>(val: String, msg: &'static str) -> (r: crate::GameResult<R>)
    ensures
        r matches Err(e) && e matches GameError::ConversionError { val: v, msg: m } && v == val
            && m == msg,
{
    Err(GameError::ConversionError { val, msg })
}

/// Builds an `UnexpectedError` result from a message.
pub fn err_unexpected<R>(msg: &'static str) -> (r: crate::GameResult<R>)
    ensures
        r matches Err(e) && e matches GameError::UnexpectedError { msg: m } && m == msg,
{
    Err(GameError::UnexpectedError { msg })
}

} // verus!
