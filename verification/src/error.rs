//! Error taxonomy of the storage core.
//!
//! Every failure surfaced by the library falls in one of four classes:
//! a request the client can fix (`Validation`), an unknown document
//! (`NotFound`), a backend fault the caller may retry (`StorageFailure`),
//! and a client disconnect (`Cancelled`).

use vstd::prelude::*;

verus! {

/// Why a request was rejected before any byte reached the backend.
#[derive(Clone, Copy, Debug, PartialEq, Eq, Structural)]
pub enum ValidationFault {
    /// The payload exceeded the configured size ceiling.
    Oversized,
    /// The multipart body carried no file part.
    MissingFilePart,
    /// The multipart body carried more than one file part.
    ExtraFilePart,
    /// A declared content type outside the accepted set.
    UnsupportedContentType,
}

/// The uniform error type of the storage core.
#[derive(Clone, Copy, Debug, PartialEq, Eq, Structural)]
pub enum StorageError {
    /// Malformed or oversized request; the backend was never touched.
    Validation(ValidationFault),
    /// The document identifier is unknown; terminal, not retryable.
    NotFound,
    /// Backend I/O, network or permission fault; retryable by the caller.
    StorageFailure,
    /// The client disconnected before the request completed.
    Cancelled,
}

impl StorageError {
    /// The HTTP status this error is surfaced as.
    pub fn status_code(&self) -> (code: u16)
        ensures
            code == self.spec_status_code(),
    {
        match self {
            StorageError::Validation(ValidationFault::Oversized) => 413,
            StorageError::Validation(_) => 400,
            StorageError::NotFound => 404,
            StorageError::StorageFailure => 500,
            StorageError::Cancelled => 499,
        }
    }

    /// The status mapping as a mathematical function.
    pub open spec fn spec_status_code(&self) -> u16 {
        match self {
            StorageError::Validation(ValidationFault::Oversized) => 413,
            StorageError::Validation(_) => 400,
            StorageError::NotFound => 404,
            StorageError::StorageFailure => 500,
            StorageError::Cancelled => 499,
        }
    }

    /// A short diagnostic label for logs and response bodies.
    pub fn describe(&self) -> &'static str {
        match self {
            StorageError::Validation(ValidationFault::Oversized) => "payload exceeds size ceiling",
            StorageError::Validation(ValidationFault::MissingFilePart) => "no file part in request",
            StorageError::Validation(ValidationFault::ExtraFilePart) => "more than one file part",
            StorageError::Validation(ValidationFault::UnsupportedContentType) => "unsupported content type",
            StorageError::NotFound => "document not found",
            StorageError::StorageFailure => "storage backend failure",
            StorageError::Cancelled => "client disconnected",
        }
    }
}

} // verus!
