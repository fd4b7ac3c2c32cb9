//! The refusal vocabulary every surface shares: a class a caller switches on,
//! a stable code, and a sentence.

use vstd::prelude::*;

verus! {

/// What kind of refusal this is; each class has one status on every transport.
#[derive(Debug, Clone, Copy, PartialEq, Eq)]
pub enum ErrorClass {
    Validation,
    Conflict,
    NotFound,
    Unavailable,
    Internal,
}

/// One refusal, as the API answers it.
#[derive(Debug, Clone, PartialEq, Eq)]
pub struct ApiError {
    pub class: ErrorClass,
    pub code: String,
    pub message: String,
    /// What only the operator may read: paths, the store's own words. Never
    /// part of the safe sentence.
    pub internal: Option<String>,
}

impl ErrorClass {
    /// The HTTP status a class is answered with.
    pub open spec fn spec_http_status(self) -> u16 {
        match self {
            ErrorClass::Validation => 422,
            ErrorClass::Conflict => 409,
            ErrorClass::NotFound => 404,
            ErrorClass::Unavailable => 503,
            ErrorClass::Internal => 500,
        }
    }

    /// The HTTP status a class is answered with.
    pub fn http_status(self) -> (status: u16)
        ensures
            status == self.spec_http_status(),
    {
        match self {
            ErrorClass::Validation => 422,
            ErrorClass::Conflict => 409,
            ErrorClass::NotFound => 404,
            ErrorClass::Unavailable => 503,
            ErrorClass::Internal => 500,
        }
    }
}

impl ApiError {
    /// A refusal from its three parts.
    pub fn new(class: ErrorClass, code: &str, message: String) -> (error: Self)
        ensures
            error.class == class,
            error.code@ == code@,
            error.message == message,
            error.internal is None,
    {
        ApiError { class, code: code.to_owned(), message, internal: None }
    }

    /// The same refusal, carrying operator-only detail.
    pub fn with_internal(self, detail: String) -> (error: Self)
        ensures
            error.class == self.class,
            error.code == self.code,
            error.message == self.message,
            error.internal == Some(detail),
    {
        ApiError { internal: Some(detail), ..self }
    }
}

/// The gRPC status a refusal is answered with.
#[derive(Debug, Clone, Copy, PartialEq, Eq, Structural)]
pub enum GrpcCode {
    InvalidArgument,
    AlreadyExists,
    FailedPrecondition,
    NotFound,
    Unavailable,
    Internal,
}

/// The gRPC status of a refusal: gRPC tells apart the two conflicts HTTP
/// folds into 409, a name that exists already and a precondition the caller
/// has to clear first.
pub fn grpc_code(error: &ApiError) -> (code: GrpcCode)
    ensures
        code == (match error.class {
            ErrorClass::Validation => GrpcCode::InvalidArgument,
            ErrorClass::Conflict => if error.code@ == "name_taken"@ { GrpcCode::AlreadyExists } else { GrpcCode::FailedPrecondition },
            ErrorClass::NotFound => GrpcCode::NotFound,
            ErrorClass::Unavailable => GrpcCode::Unavailable,
            ErrorClass::Internal => GrpcCode::Internal,
        }),
{
    match error.class {
        ErrorClass::Validation => GrpcCode::InvalidArgument,
        ErrorClass::Conflict => if crate::text::same_text(error.code.as_str(), "name_taken") {
            GrpcCode::AlreadyExists
        } else {
            GrpcCode::FailedPrecondition
        },
        ErrorClass::NotFound => GrpcCode::NotFound,
        ErrorClass::Unavailable => GrpcCode::Unavailable,
        ErrorClass::Internal => GrpcCode::Internal,
    }
}

} // verus!
