//! The error type surfaced to API clients.

use vstd::prelude::*;

verus! {

/// Errors surfaced to API clients; each variant maps to one HTTP status.
#[derive(Debug)]
pub enum ApiError {
    /// Bad or missing credentials / token (401).
    Unauthorized(String),
    /// Malformed request (400).
    BadRequest(String),
    /// No such resource (404).
    NotFound(String),
    /// Unexpected server-side failure (500).
    Internal(String),
}

impl ApiError {
    /// The HTTP status code this error is answered with.
    pub fn status_code(&self) -> (code: u16)
        ensures
            code == match self {
                ApiError::Unauthorized(_) => 401u16,
                ApiError::BadRequest(_) => 400u16,
                ApiError::NotFound(_) => 404u16,
                ApiError::Internal(_) => 500u16,
            },
    {
        match self {
            ApiError::Unauthorized(_) => 401,
            ApiError::BadRequest(_) => 400,
            ApiError::NotFound(_) => 404,
            ApiError::Internal(_) => 500,
        }
    }

    /// The message carried in the `{error}` body.
    pub fn message(&self) -> (m: &String)
        ensures
            *m == match self {
                ApiError::Unauthorized(m) => *m,
                ApiError::BadRequest(m) => *m,
                ApiError::NotFound(m) => *m,
                ApiError::Internal(m) => *m,
            },
    {
        match self {
            ApiError::Unauthorized(m) => m,
            ApiError::BadRequest(m) => m,
            ApiError::NotFound(m) => m,
            ApiError::Internal(m) => m,
        }
    }
}

} // verus!
