//! Application errors and the JSON body they are reported with.

use vstd::prelude::*;

verus! {

/// A structured JSON error body returned to the client.
#[derive(Debug)]
pub struct ErrorBody {
    pub status: u16,
    pub error: String,
    pub message: String,
}

/// Application-level error type that can be returned from any handler.
#[derive(Debug)]
pub enum AppError {
    /// 400 Bad Request
    BadRequest(String),
    /// 404 Not Found
    NotFound(String),
    /// 500 Internal Server Error
    Internal(String),
    /// 422 Unprocessable Entity
    Unprocessable(String),
}

/// How a database call failed, as far as the errors it is reported with
/// distinguish it.
#[derive(Debug, Clone, Copy, PartialEq, Eq, Structural)]
pub enum DbFailure {
    /// The query returned no row where one was expected.
    RowNotFound,
    /// Any other database error.
    Other,
}

/// The HTTP status of each kind of error.
pub open spec fn status_of(e: AppError) -> u16 {
    match e {
        AppError::BadRequest(_) => 400,
        AppError::NotFound(_) => 404,
        AppError::Internal(_) => 500,
        AppError::Unprocessable(_) => 422,
    }
}

/// The reason phrase of each kind of error.
pub open spec fn label_of(e: AppError) -> Seq<char> {
    match e {
        AppError::BadRequest(_) => "Bad Request"@,
        AppError::NotFound(_) => "Not Found"@,
        AppError::Internal(_) => "Internal Server Error"@,
        AppError::Unprocessable(_) => "Unprocessable Entity"@,
    }
}

/// The message an error carries.
pub open spec fn message_of(e: AppError) -> String {
    match e {
        AppError::BadRequest(m) => m,
        AppError::NotFound(m) => m,
        AppError::Internal(m) => m,
        AppError::Unprocessable(m) => m,
    }
}

impl AppError {
    /// An internal error. The cause is not shown to the client.
    pub fn internal<E>(err: E) -> (r: AppError)
        ensures
            r matches AppError::Internal(m) && m@ == "An internal server error occurred"@,
    {
        AppError::Internal(String::from_str("An internal server error occurred"))
    }

    /// A 404 error with the given message.
    pub fn not_found(msg: String) -> (r: AppError)
        ensures
            r == AppError::NotFound(msg),
    {
        AppError::NotFound(msg)
    }

    /// A 400 error with the given message.
    pub fn bad_request(msg: String) -> (r: AppError)
        ensures
            r == AppError::BadRequest(msg),
    {
        AppError::BadRequest(msg)
    }

    /// The error reported for a failed database call: a missing row is a 404,
    /// anything else a 500 whose cause is not shown to the client.
    pub fn from_db(failure: DbFailure) -> (r: AppError)
        ensures
            failure == DbFailure::RowNotFound ==> (r matches AppError::NotFound(m) && m@
                == "Resource not found"@),
            failure == DbFailure::Other ==> (r matches AppError::Internal(m) && m@
                == "A database error occurred"@),
    {
        match failure {
            DbFailure::RowNotFound => AppError::NotFound(String::from_str("Resource not found")),
            DbFailure::Other => AppError::Internal(String::from_str("A database error occurred")),
        }
    }

    /// The error reported for a failed call to an upstream HTTP service.
    pub fn upstream() -> (r: AppError)
        ensures
            r matches AppError::Internal(m) && m@ == "An upstream service error occurred"@,
    {
        AppError::Internal(String::from_str("An upstream service error occurred"))
    }

    /// The HTTP status code of the error.
    pub fn status_code(&self) -> (s: u16)
        ensures
            s == status_of(*self),
    {
        match self {
            AppError::BadRequest(_) => 400,
            AppError::NotFound(_) => 404,
            AppError::Internal(_) => 500,
            AppError::Unprocessable(_) => 422,
        }
    }

    /// The JSON body the error is answered with: its status, the status's
    /// reason phrase and its message.
    pub fn into_body(self) -> (b: ErrorBody)
        ensures
            b.status == status_of(self),
            b.error@ == label_of(self),
            b.message == message_of(self),
    {
        let status = self.status_code();
        match self {
            AppError::BadRequest(m) => ErrorBody { status, error: String::from_str("Bad Request"), message: m },
            AppError::NotFound(m) => ErrorBody { status, error: String::from_str("Not Found"), message: m },
            AppError::Internal(m) => ErrorBody {
                status,
                error: String::from_str("Internal Server Error"),
                message: m,
            },
            AppError::Unprocessable(m) => ErrorBody {
                status,
                error: String::from_str("Unprocessable Entity"),
                message: m,
            },
        }
    }
}

/// A plain message converts into a bad request.
impl From<String> for AppError {
    fn from(msg: String) -> (r: AppError) {
        AppError::BadRequest(msg)
    }
}

impl vstd::std_specs::convert::FromSpecImpl<String> for AppError {
    open spec fn obeys_from_spec() -> bool {
        true
    }

    open spec fn from_spec(msg: String) -> AppError {
        AppError::BadRequest(msg)
    }
}

} // verus!
