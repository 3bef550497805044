use vstd::prelude::*;

verus! {

/// Why a text could not be read as a configuration or a schema.
#[derive(Debug)]
pub enum ParseError {
    /// A line that is neither blank, nor a comment, nor holds a `=`.
    InvalidLine { line_number: usize, content: String },
    /// A schema line whose value is not a known type name.
    InvalidType { line_number: usize, name: String },
}

/// One discrepancy between a configuration and a schema.
#[derive(Debug)]
pub enum ValidationError {
    TypeMismatch { key: String, expected: String, got: String },
    UnknownKey { key: String },
    MissingKey { key: String },
}

impl ValidationError {
    /// The key that the error is about.
    pub open spec fn key_view(&self) -> Seq<char> {
        match self {
            ValidationError::TypeMismatch { key, .. } => key@,
            ValidationError::UnknownKey { key } => key@,
            ValidationError::MissingKey { key } => key@,
        }
    }
}

} // verus!
