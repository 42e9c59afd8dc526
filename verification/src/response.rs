use vstd::prelude::*;

verus! {

/// Response envelope the host returns for every endpoint: a message, a
/// success flag (1 on success, 0 on failure), a machine-readable code, and
/// the payload when there is one.
pub struct ApiResponse<T> {
    pub message: String,
    pub status: i32,
    pub code: String,
    pub data: Option<T>,
}

impl<T> ApiResponse<T> {
    /// A success envelope around a payload.
    pub fn success(data: T) -> (r: Self)
        ensures
            r.message@ == "Success"@,
            r.status == 1,
            r.code@ == "0"@,
            r.data == Some(data),
    {
        Self {
            message: String::from_str("Success"),
            status: 1,
            code: String::from_str("0"),
            data: Some(data),
        }
    }

    /// A failure envelope with a machine-readable code.
    pub fn error(code: String, message: String) -> (r: Self)
        ensures
            r.message@ == message@,
            r.status == 0,
            r.code@ == code@,
            r.data is None,
    {
        Self { message, status: 0, code, data: None }
    }
}

} // verus!
