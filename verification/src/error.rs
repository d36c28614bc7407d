//! Structured errors with stable, machine-readable codes.
//!
//! Every [`DepupError`] carries a [`DepupErrorCode`] that JSON output spells in
//! `SCREAMING_SNAKE_CASE`, so that scripts can tell failures apart.

use vstd::prelude::*;

verus! {

/// Stable, machine-readable error codes.
#[derive(Debug, Clone, Copy, PartialEq, Eq, Structural)]
pub enum DepupErrorCode {
    PomNotFound,
    PomParseFailed,
    HttpRequestFailed,
    ClapParseError,
    Internal,
}

impl DepupErrorCode {
    pub open spec fn spec_name(self) -> Seq<char> {
        match self {
            DepupErrorCode::PomNotFound => "POM_NOT_FOUND"@,
            DepupErrorCode::PomParseFailed => "POM_PARSE_FAILED"@,
            DepupErrorCode::HttpRequestFailed => "HTTP_REQUEST_FAILED"@,
            DepupErrorCode::ClapParseError => "CLAP_PARSE_ERROR"@,
            DepupErrorCode::Internal => "INTERNAL"@,
        }
    }

    /// The code as it appears in JSON output.
    pub fn as_str(&self) -> (s: &'static str)
        ensures
            s@ == self.spec_name(),
    {
        match self {
            DepupErrorCode::PomNotFound => "POM_NOT_FOUND",
            DepupErrorCode::PomParseFailed => "POM_PARSE_FAILED",
            DepupErrorCode::HttpRequestFailed => "HTTP_REQUEST_FAILED",
            DepupErrorCode::ClapParseError => "CLAP_PARSE_ERROR",
            DepupErrorCode::Internal => "INTERNAL",
        }
    }
}

/// An error with a stable code and a human-readable message.
#[derive(Debug, Clone)]
pub struct DepupError {
    pub code: DepupErrorCode,
    pub message: String,
}

impl DepupError {
    pub fn pom_not_found(path: &str) -> (e: Self)
        ensures
            e.code == DepupErrorCode::PomNotFound,
            e.message@ == "No pom.xml found in "@ + path@,
    {
        let mut message = String::from_str("No pom.xml found in ");
        message.append(path);
        DepupError { code: DepupErrorCode::PomNotFound, message }
    }

    pub fn pom_parse_failed(path: &str, detail: &str) -> (e: Self)
        ensures
            e.code == DepupErrorCode::PomParseFailed,
            e.message@ == "Failed to parse "@ + path@ + ": "@ + detail@,
    {
        let mut message = String::from_str("Failed to parse ");
        message.append(path);
        message.append(": ");
        message.append(detail);
        DepupError { code: DepupErrorCode::PomParseFailed, message }
    }

    pub fn http_request_failed(url: &str, detail: &str) -> (e: Self)
        ensures
            e.code == DepupErrorCode::HttpRequestFailed,
            e.message@ == "HTTP request failed for "@ + url@ + ": "@ + detail@,
    {
        let mut message = String::from_str("HTTP request failed for ");
        message.append(url);
        message.append(": ");
        message.append(detail);
        DepupError { code: DepupErrorCode::HttpRequestFailed, message }
    }

    pub fn clap_parse_error(detail: &str) -> (e: Self)
        ensures
            e.code == DepupErrorCode::ClapParseError,
            e.message@ == detail@,
    {
        DepupError { code: DepupErrorCode::ClapParseError, message: String::from_str(detail) }
    }

    /// The text shown for the error: its message.
    pub fn to_string(&self) -> (s: String)
        ensures
            s@ == self.message@,
    {
        self.message.clone()
    }
}

/// Envelope wrapping an error for `--json` output.
#[derive(Debug, Clone)]
pub struct JsonErrorEnvelope {
    pub error: JsonErrorBody,
}

/// Inner body of the JSON error envelope.
#[derive(Debug, Clone)]
pub struct JsonErrorBody {
    pub code: DepupErrorCode,
    pub message: String,
}

impl JsonErrorEnvelope {
    pub fn from_depup_error(err: &DepupError) -> (env: Self)
        ensures
            env.error.code == err.code,
            env.error.message == err.message,
    {
        JsonErrorEnvelope {
            error: JsonErrorBody { code: err.code, message: err.message.clone() },
        }
    }

    /// The envelope for an error without a stable code.
    pub fn internal(message: String) -> (env: Self)
        ensures
            env.error.code == DepupErrorCode::Internal,
            env.error.message == message,
    {
        JsonErrorEnvelope { error: JsonErrorBody { code: DepupErrorCode::Internal, message } }
    }
}

} // verus!
