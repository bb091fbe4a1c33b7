//! Error outcomes surfaced by the engine.

use vstd::prelude::*;

verus! {

/// Every non-fatal failure the engine can return to a caller.
#[derive(Clone, Copy, Debug, PartialEq, Eq, Structural)]
pub enum EngineError {
    /// The referenced note identity does not exist.
    NotFound,
    /// A rating name outside `{again, hard, good, easy}` was given.
    InvalidRating,
    /// A persisted category text outside the fixed enumeration was given.
    ConstraintViolation,
}

impl EngineError {
    /// A short description of the error for display.
    pub fn describe(&self) -> (text: &'static str)
        ensures
            self is NotFound ==> text@ == "note not found"@,
            self is InvalidRating ==> text@ == "invalid rating"@,
            self is ConstraintViolation ==> text@ == "category constraint violated"@,
    {
        match self {
            EngineError::NotFound => "note not found",
            EngineError::InvalidRating => "invalid rating",
            EngineError::ConstraintViolation => "category constraint violated",
        }
    }
}

} // verus!
