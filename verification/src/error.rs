//! The gateway's error kinds, their machine-readable codes, their human-readable
//! text, and the HTTP status that answers each of them.
use vstd::prelude::*;

verus! {

/// The machine-readable code of an error, as API clients see it.
#[derive(Debug, Clone, Copy, PartialEq, Eq, Structural)]
pub enum ErrorCode {
    Unauthorized,
    NotFound,
    Conflict,
    ValidationFailed,
    BadRequest,
    UpstreamFailed,
    Internal,
}

/// An error of the gateway. Every kind carries a message; the I/O and JSON kinds
/// carry the text of the underlying error.
#[derive(Debug)]
pub enum AppError {
    Unauthorized(String),
    NotFound(String),
    Conflict(String),
    Validation(String),
    BadRequest(String),
    Upstream(String),
    Io(String),
    Json(String),
    Internal(String),
}

/// The code of an error.
pub open spec fn error_code(e: AppError) -> ErrorCode {
    match e {
        AppError::Unauthorized(_) => ErrorCode::Unauthorized,
        AppError::NotFound(_) => ErrorCode::NotFound,
        AppError::Conflict(_) => ErrorCode::Conflict,
        AppError::Validation(_) => ErrorCode::ValidationFailed,
        AppError::BadRequest(_) => ErrorCode::BadRequest,
        AppError::Upstream(_) => ErrorCode::UpstreamFailed,
        AppError::Io(_) | AppError::Json(_) | AppError::Internal(_) => ErrorCode::Internal,
    }
}

/// The message an error carries.
pub open spec fn error_message(e: AppError) -> Seq<char> {
    match e {
        AppError::Unauthorized(m) => m@,
        AppError::NotFound(m) => m@,
        AppError::Conflict(m) => m@,
        AppError::Validation(m) => m@,
        AppError::BadRequest(m) => m@,
        AppError::Upstream(m) => m@,
        AppError::Io(m) => m@,
        AppError::Json(m) => m@,
        AppError::Internal(m) => m@,
    }
}

/// The words that open the text of each kind of error.
pub open spec fn error_label(e: AppError) -> Seq<char> {
    match e {
        AppError::Unauthorized(_) => "unauthorized: "@,
        AppError::NotFound(_) => "not found: "@,
        AppError::Conflict(_) => "conflict: "@,
        AppError::Validation(_) => "validation failed: "@,
        AppError::BadRequest(_) => "bad request: "@,
        AppError::Upstream(_) => "upstream failed: "@,
        AppError::Io(_) => "I/O error: "@,
        AppError::Json(_) => "JSON parse error: "@,
        AppError::Internal(_) => "internal error: "@,
    }
}

/// The full human-readable text of an error: its label, then its message.
pub open spec fn error_text(e: AppError) -> Seq<char> {
    error_label(e) + error_message(e)
}

/// The HTTP status that answers an error code.
pub open spec fn status_of(code: ErrorCode) -> u16 {
    match code {
        ErrorCode::Unauthorized => 401,
        ErrorCode::NotFound => 404,
        ErrorCode::Conflict => 409,
        ErrorCode::ValidationFailed | ErrorCode::BadRequest => 400,
        ErrorCode::UpstreamFailed => 502,
        ErrorCode::Internal => 500,
    }
}

impl AppError {
    /// The machine-readable code of this error.
    pub fn code(&self) -> (c: ErrorCode)
        ensures
            c == error_code(*self),
    {
        match self {
            AppError::Unauthorized(_) => ErrorCode::Unauthorized,
            AppError::NotFound(_) => ErrorCode::NotFound,
            AppError::Conflict(_) => ErrorCode::Conflict,
            AppError::Validation(_) => ErrorCode::ValidationFailed,
            AppError::BadRequest(_) => ErrorCode::BadRequest,
            AppError::Upstream(_) => ErrorCode::UpstreamFailed,
            AppError::Io(_) | AppError::Json(_) | AppError::Internal(_) => ErrorCode::Internal,
        }
    }

    fn payload(&self) -> (m: &String)
        ensures
            m@ == error_message(*self),
    {
        match self {
            AppError::Unauthorized(m) => m,
            AppError::NotFound(m) => m,
            AppError::Conflict(m) => m,
            AppError::Validation(m) => m,
            AppError::BadRequest(m) => m,
            AppError::Upstream(m) => m,
            AppError::Io(m) => m,
            AppError::Json(m) => m,
            AppError::Internal(m) => m,
        }
    }

    /// The message of this error, without the words that name its kind.
    pub fn message(&self) -> (m: String)
        ensures
            m@ == error_message(*self),
    {
        self.payload().clone()
    }

    /// The full text of this error, as its display shows it, e.g.
    /// `upstream failed: request timed out`.
    pub fn display_string(&self) -> (s: String)
        ensures
            s@ == error_text(*self),
    {
        let mut s = match self {
            AppError::Unauthorized(_) => String::from_str("unauthorized: "),
            AppError::NotFound(_) => String::from_str("not found: "),
            AppError::Conflict(_) => String::from_str("conflict: "),
            AppError::Validation(_) => String::from_str("validation failed: "),
            AppError::BadRequest(_) => String::from_str("bad request: "),
            AppError::Upstream(_) => String::from_str("upstream failed: "),
            AppError::Io(_) => String::from_str("I/O error: "),
            AppError::Json(_) => String::from_str("JSON parse error: "),
            AppError::Internal(_) => String::from_str("internal error: "),
        };
        s.append(self.payload().as_str());
        s
    }

    /// A second error of the same kind with the same message.
    pub fn duplicate(&self) -> (e: AppError)
        ensures
            e == *self,
    {
        match self {
            AppError::Unauthorized(m) => AppError::Unauthorized(m.clone()),
            AppError::NotFound(m) => AppError::NotFound(m.clone()),
            AppError::Conflict(m) => AppError::Conflict(m.clone()),
            AppError::Validation(m) => AppError::Validation(m.clone()),
            AppError::BadRequest(m) => AppError::BadRequest(m.clone()),
            AppError::Upstream(m) => AppError::Upstream(m.clone()),
            AppError::Io(m) => AppError::Io(m.clone()),
            AppError::Json(m) => AppError::Json(m.clone()),
            AppError::Internal(m) => AppError::Internal(m.clone()),
        }
    }
}

/// The HTTP status code that answers an error code.
pub fn map_status(code: ErrorCode) -> (status: u16)
    ensures
        status == status_of(code),
{
    match code {
        ErrorCode::Unauthorized => 401,
        ErrorCode::NotFound => 404,
        ErrorCode::Conflict => 409,
        ErrorCode::ValidationFailed | ErrorCode::BadRequest => 400,
        ErrorCode::UpstreamFailed => 502,
        ErrorCode::Internal => 500,
    }
}

} // verus!
