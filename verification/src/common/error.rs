//! The structured JSON error every daemon answers with.
use vstd::prelude::*;

use crate::common::jail::JailError;

verus! {

/// Body of a JSON error reply: `{"error": {...}}`.
#[derive(Debug, Clone)]
pub struct ErrorResponse {
    pub error: ErrorBody,
}

#[derive(Debug, Clone)]
pub struct ErrorBody {
    pub code: String,
    pub message: String,
    pub status: u16,
}

impl ErrorResponse {
    pub fn new(status: u16, code: &str, message: String) -> (r: Self)
        ensures
            r.error.code@ == code@,
            r.error.message == message,
            r.error.status == status,
    {
        ErrorResponse { error: ErrorBody { code: code.to_owned(), message, status } }
    }
}

/// An error a handler answers with: HTTP status, machine code, message.
#[derive(Debug, Clone)]
pub enum ApiError {
    Status { status: u16, code: &'static str, message: String },
}

pub open spec fn api_error(e: ApiError, status: u16, code: Seq<char>, message: Seq<char>) -> bool {
    match e {
        ApiError::Status { status: s, code: c, message: m } => s == status && c@ == code && m@
            == message,
    }
}

impl ApiError {
    pub open spec fn status_of(&self) -> u16 {
        match self {
            ApiError::Status { status, .. } => *status,
        }
    }

    pub open spec fn code_of(&self) -> Seq<char> {
        match self {
            ApiError::Status { code, .. } => code@,
        }
    }

    pub open spec fn message_of(&self) -> Seq<char> {
        match self {
            ApiError::Status { message, .. } => message@,
        }
    }

    pub fn new(status: u16, code: &'static str, message: String) -> (e: Self)
        ensures
            e == (ApiError::Status { status, code, message }),
    {
        ApiError::Status { status, code, message }
    }

    pub fn unauthorized() -> (e: Self)
        ensures
            api_error(e, 401, "unauthorized"@, "missing or invalid bearer token"@),
    {
        ApiError::new(401, "unauthorized", "missing or invalid bearer token".to_owned())
    }

    pub fn invalid_request(message: String) -> (e: Self)
        ensures
            api_error(e, 400, "invalid_request"@, message@),
    {
        ApiError::new(400, "invalid_request", message)
    }

    pub fn not_found(message: String) -> (e: Self)
        ensures
            api_error(e, 404, "not_found"@, message@),
    {
        ApiError::new(404, "not_found", message)
    }

    pub fn payload_too_large(message: String) -> (e: Self)
        ensures
            api_error(e, 413, "payload_too_large"@, message@),
    {
        ApiError::new(413, "payload_too_large", message)
    }

    pub fn io(message: String) -> (e: Self)
        ensures
            api_error(e, 500, "io_error"@, message@),
    {
        ApiError::new(500, "io_error", message)
    }

    pub fn internal(message: String) -> (e: Self)
        ensures
            api_error(e, 500, "internal"@, message@),
    {
        ApiError::new(500, "internal", message)
    }

    /// Too many concurrent requests of a kind.
    pub fn busy(message: String) -> (e: Self)
        ensures
            api_error(e, 429, "busy"@, message@),
    {
        ApiError::new(429, "busy", message)
    }

    pub fn status(&self) -> (s: u16)
        ensures
            s == self.status_of(),
    {
        match self {
            ApiError::Status { status, .. } => *status,
        }
    }

    pub fn code(&self) -> (c: &'static str)
        ensures
            c@ == self.code_of(),
    {
        match self {
            ApiError::Status { code, .. } => *code,
        }
    }

    /// The sentence the error is shown as: its message.
    pub fn message(&self) -> (m: String)
        ensures
            m@ == self.message_of(),
    {
        match self {
            ApiError::Status { message, .. } => message.clone(),
        }
    }

    /// The JSON envelope this error is answered with.
    pub fn into_response_body(&self) -> (r: ErrorResponse)
        ensures
            r.error.status == self.status_of(),
            r.error.code@ == self.code_of(),
            r.error.message@ == self.message_of(),
    {
        match self {
            ApiError::Status { status, code, message } => ErrorResponse::new(
                *status,
                *code,
                message.clone(),
            ),
        }
    }
}

/// How a refused path is reported.
pub open spec fn jail_error_reply(e: JailError) -> (u16, Seq<char>, Seq<char>) {
    match e {
        JailError::Empty => (400, "invalid_request"@, "path must not be empty"@),
        JailError::Escape => (400, "path_escape"@, "path is outside the workspace jail"@),
        JailError::TooLong => (400, "invalid_request"@, "path is too long"@),
        JailError::Invalid => (400, "invalid_request"@, "path contains invalid characters"@),
        JailError::Io(m) => (500, "io_error"@, m@),
    }
}

/// The error a refused path is answered with.
pub fn from_jail(e: JailError) -> (r: ApiError)
    ensures
        ({
            let (s, c, m) = jail_error_reply(e);
            api_error(r, s, c, m)
        }),
{
    match e {
        JailError::Empty => ApiError::invalid_request("path must not be empty".to_owned()),
        JailError::Escape => ApiError::new(
            400,
            "path_escape",
            "path is outside the workspace jail".to_owned(),
        ),
        JailError::TooLong => ApiError::invalid_request("path is too long".to_owned()),
        JailError::Invalid => ApiError::invalid_request(
            "path contains invalid characters".to_owned(),
        ),
        JailError::Io(m) => ApiError::io(m),
    }
}

} // verus!
