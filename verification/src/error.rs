//! The library's error type. Decode failures carry the 1-based line number
//! they were found at and the offending text; value failures carry the
//! rejected value, rendered as text.

use vstd::prelude::*;

verus! {

/// An error of the record reader/writer or of the entity model.
#[derive(Debug)]
pub enum PDBError {
    /// A line could not be decoded: the 1-based line number and the
    /// offending text.
    ParseError(usize, String),
    /// A value offered to the entity model was rejected: the rejected value.
    InvalidValue(String),
}

/// Whether `e` is a decode failure reported for line `line`.
pub open spec fn parse_error_at(e: PDBError, line: int) -> bool {
    e matches PDBError::ParseError(n, _) && n == line
}

/// Whether `e` is a rejected-value failure.
pub open spec fn is_invalid_value(e: PDBError) -> bool {
    e matches PDBError::InvalidValue(_)
}

} // verus!
