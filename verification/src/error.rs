use vstd::prelude::*;

verus! {

/// What a command of the engine can fail with. An error ends the command that
/// met it and leaves the session as it was.
#[derive(Clone, Copy, Debug, PartialEq, Eq, Structural)]
pub enum EngineError {
    /// The host failed to deliver bytes, or delivered another number of them
    /// than the request and the end of the file allow.
    IoError,
    /// A byte range reaches beyond the declared size of the file.
    OutOfRange,
    /// Tables that must share a schema do not, or columns do not fit their schema.
    SchemaMismatch,
    /// A referenced column is not of the kind that the operation reads.
    ColumnTypeMismatch,
    /// A bucket size that is not positive.
    InvalidBucketSize,
    /// A parameter outside its domain: a window that ends before it starts, a
    /// column number that the table does not have.
    InvalidParameter,
    /// A query of a shape other than projection, filter and bucket.
    UnsupportedQuery,
}

impl EngineError {
    /// The name of the error, for reports to the host.
    pub fn name(&self) -> (text: &'static str)
        ensures
            text@ == error_name(*self),
    {
        match self {
            EngineError::IoError => "IOError",
            EngineError::OutOfRange => "OutOfRange",
            EngineError::SchemaMismatch => "SchemaMismatch",
            EngineError::ColumnTypeMismatch => "ColumnTypeMismatch",
            EngineError::InvalidBucketSize => "InvalidBucketSize",
            EngineError::InvalidParameter => "InvalidParameter",
            EngineError::UnsupportedQuery => "UnsupportedQuery",
        }
    }
}

/// The text that names each error.
pub open spec fn error_name(error: EngineError) -> Seq<char> {
    match error {
        EngineError::IoError => "IOError"@,
        EngineError::OutOfRange => "OutOfRange"@,
        EngineError::SchemaMismatch => "SchemaMismatch"@,
        EngineError::ColumnTypeMismatch => "ColumnTypeMismatch"@,
        EngineError::InvalidBucketSize => "InvalidBucketSize"@,
        EngineError::InvalidParameter => "InvalidParameter"@,
        EngineError::UnsupportedQuery => "UnsupportedQuery"@,
    }
}

} // verus!
