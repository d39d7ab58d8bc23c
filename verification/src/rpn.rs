//! Error taxonomy of the stack calculator.  The calculator itself works on
//! floating-point values and lives with the caller.

use vstd::prelude::*;

verus! {

/// How a calculator operation fails.
#[derive(Debug)]
pub enum CalcError {
    /// The operation needs more operands than the stack holds.
    InsufficientOperands,
    /// The divisor is zero.
    DivisionByZero,
    /// There is nothing to undo.
    EmptyHistory,
    /// Reading or writing the history file failed.
    FileError(String),
    /// The history could not be converted to or from its stored form.
    SerializationError(String),
}

impl CalcError {
    /// The user-facing description of this failure.
    pub fn message(&self) -> (r: String)
        ensures
            match self {
                CalcError::InsufficientOperands => r@ == "Insufficient operands on stack"@,
                CalcError::DivisionByZero => r@ == "Division by zero"@,
                CalcError::EmptyHistory => r@ == "No history to undo"@,
                CalcError::FileError(m) => r@ == "File error: "@ + m@,
                CalcError::SerializationError(m) => r@ == "Serialization error: "@ + m@,
            },
    {
        match self {
            CalcError::InsufficientOperands => String::from_str("Insufficient operands on stack"),
            CalcError::DivisionByZero => String::from_str("Division by zero"),
            CalcError::EmptyHistory => String::from_str("No history to undo"),
            CalcError::FileError(m) => {
                let mut s = String::from_str("File error: ");
                s.append(m.as_str());
                s
            },
            CalcError::SerializationError(m) => {
                let mut s = String::from_str("Serialization error: ");
                s.append(m.as_str());
                s
            },
        }
    }
}

} // verus!
