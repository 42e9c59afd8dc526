use vstd::prelude::*;

verus! {

/// Typed failures of the upload core. The host maps each kind to one
/// status code at the boundary.
#[derive(Debug, Clone, Copy, PartialEq, Eq, Structural)]
pub enum UploadError {
    /// Malformed header, zero total size, empty sanitized name, or a byte
    /// range that does not fit its chunk.
    InvalidArgument,
    /// Unknown `file_id`, or no chunk at the given `start_offset`.
    NotFound,
    /// The `system_initialized` configuration entry is not `"success"`.
    NotInitialized,
    /// The file is not in the status the operation needs (already
    /// assembling or completed).
    Conflict,
    /// A file with the same `file_id` is already registered.
    AlreadyExists,
    /// A staging file was gone when assembly tried to read it.
    Unavailable,
    /// The assembled file's digest does not match the registered digest.
    DataLoss,
}

impl UploadError {
    /// Machine-readable code for the response envelope.
    pub fn code(&self) -> (r: &'static str)
        ensures
            *self is InvalidArgument ==> r@ == "INVALID_ARGUMENT"@,
            *self is NotFound ==> r@ == "NOT_FOUND"@,
            *self is NotInitialized ==> r@ == "SYSTEM_NOT_INITIALIZED"@,
            *self is Conflict ==> r@ == "CONFLICT"@,
            *self is AlreadyExists ==> r@ == "ALREADY_EXISTS"@,
            *self is Unavailable ==> r@ == "UNAVAILABLE"@,
            *self is DataLoss ==> r@ == "DATA_LOSS"@,
    {
        match self {
            UploadError::InvalidArgument => "INVALID_ARGUMENT",
            UploadError::NotFound => "NOT_FOUND",
            UploadError::NotInitialized => "SYSTEM_NOT_INITIALIZED",
            UploadError::Conflict => "CONFLICT",
            UploadError::AlreadyExists => "ALREADY_EXISTS",
            UploadError::Unavailable => "UNAVAILABLE",
            UploadError::DataLoss => "DATA_LOSS",
        }
    }
}

} // verus!
