//! Error taxonomy of the service, and its mapping to HTTP status codes.

use vstd::prelude::*;

verus! {

/// A typed error of the service.  Each variant carries a human-readable
/// message; the variant alone decides the HTTP status code.
#[derive(Debug, Clone)]
pub enum AppError {
    /// An evaluator call failed, an output was missing, or a worker crashed.
    ModelError(String),
    /// The request was rejected before any work was done.
    ValidationError(String),
    /// The service is overloaded: no permit, no pool slot, or a deadline passed.
    ResourceError(String),
    /// The text encoder failed.
    TokenizationError(String),
}

impl AppError {
    /// The HTTP status code of each error kind.
    pub open spec fn spec_status_code(&self) -> u16 {
        match self {
            AppError::ModelError(_) => 500,
            AppError::ValidationError(_) => 400,
            AppError::ResourceError(_) => 503,
            AppError::TokenizationError(_) => 500,
        }
    }

    /// The message carried by the error.
    pub open spec fn spec_message(&self) -> Seq<char> {
        match self {
            AppError::ModelError(m) => m@,
            AppError::ValidationError(m) => m@,
            AppError::ResourceError(m) => m@,
            AppError::TokenizationError(m) => m@,
        }
    }

    /// HTTP status code for this error: validation errors are the client's
    /// fault, resource errors ask the client to retry, the rest are internal.
    pub fn status_code(&self) -> (c: u16)
        ensures
            c == self.spec_status_code(),
    {
        match self {
            AppError::ModelError(_) => 500,
            AppError::ValidationError(_) => 400,
            AppError::ResourceError(_) => 503,
            AppError::TokenizationError(_) => 500,
        }
    }

    /// The message carried by the error, for response bodies and logs.
    pub fn message(&self) -> (m: &String)
        ensures
            m@ == self.spec_message(),
    {
        match self {
            AppError::ModelError(m) => m,
            AppError::ValidationError(m) => m,
            AppError::ResourceError(m) => m,
            AppError::TokenizationError(m) => m,
        }
    }
}

} // verus!
