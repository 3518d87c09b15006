//! The errors a request can end with, by status, with the texts sent back.
use http::StatusCode;
use vstd::prelude::*;

use super::status::{spec_status_as_u16, spec_status_code, status_as_u16, status_from_u16};

verus! {

/// An error a request ends with; some carry their own message.
#[derive(Debug)]
pub enum GatewayError {
    BadRequest(String),
    Unauthorized(String),
    Forbidden,
    NotFound,
    MethodNotAllowed,
    Conflict(String),
    TooManyRequests,
    PayloadTooLarge,
    UnsupportedMediaType,
    BadGateway(String),
    ServiceUnavailable(String),
    GatewayTimeout,
    InternalServerError(String),
}

/// What is sent back for an error.
pub struct ErrorResponse {
    pub status_code: u16,
    pub error: &'static str,
    pub message: String,
    pub request_id: String,
}

pub open spec fn spec_error_code(e: GatewayError) -> u16 {
    match e {
        GatewayError::BadRequest(_) => 400,
        GatewayError::Unauthorized(_) => 401,
        GatewayError::Forbidden => 403,
        GatewayError::NotFound => 404,
        GatewayError::MethodNotAllowed => 405,
        GatewayError::Conflict(_) => 409,
        GatewayError::TooManyRequests => 429,
        GatewayError::PayloadTooLarge => 413,
        GatewayError::UnsupportedMediaType => 415,
        GatewayError::BadGateway(_) => 502,
        GatewayError::ServiceUnavailable(_) => 503,
        GatewayError::GatewayTimeout => 504,
        GatewayError::InternalServerError(_) => 500,
    }
}

pub open spec fn spec_error_name(e: GatewayError) -> Seq<char> {
    match e {
        GatewayError::BadRequest(_) => "Bad Request"@,
        GatewayError::Unauthorized(_) => "Unauthorized"@,
        GatewayError::Forbidden => "Forbidden"@,
        GatewayError::NotFound => "Not Found"@,
        GatewayError::MethodNotAllowed => "Method Not Allowed"@,
        GatewayError::Conflict(_) => "Conflict"@,
        GatewayError::TooManyRequests => "Too Many Requests"@,
        GatewayError::PayloadTooLarge => "Payload Too Large"@,
        GatewayError::UnsupportedMediaType => "Unsupported Media Type"@,
        GatewayError::BadGateway(_) => "Bad Gateway"@,
        GatewayError::ServiceUnavailable(_) => "Service Unavailable"@,
        GatewayError::GatewayTimeout => "Gateway Timeout"@,
        GatewayError::InternalServerError(_) => "Internal Server Error"@,
    }
}

/// The message of an error. An `Unauthorized` error keeps its message only
/// when that message is empty, and reads `Authentication required` otherwise.
pub open spec fn spec_error_message(e: GatewayError) -> Seq<char> {
    match e {
        GatewayError::BadRequest(m) => m@,
        GatewayError::Conflict(m) => m@,
        GatewayError::BadGateway(m) => m@,
        GatewayError::ServiceUnavailable(m) => m@,
        GatewayError::InternalServerError(m) => m@,
        GatewayError::Unauthorized(m) => if m@.len() == 0 {
            m@
        } else {
            "Authentication required"@
        },
        GatewayError::Forbidden => "Access denied"@,
        GatewayError::NotFound => "The requested resource was not found"@,
        GatewayError::MethodNotAllowed => "HTTP method not allowed"@,
        GatewayError::TooManyRequests => "Rate limit exceeded"@,
        GatewayError::PayloadTooLarge => "Payload too large"@,
        GatewayError::UnsupportedMediaType => "Unsupported media type"@,
        GatewayError::GatewayTimeout => "Upstream server timeout"@,
    }
}

impl GatewayError {
    /// The HTTP status number of the error.
    pub fn code(&self) -> (c: u16)
        ensures
            c == spec_error_code(*self),
    {
        match self {
            GatewayError::BadRequest(_) => 400,
            GatewayError::Unauthorized(_) => 401,
            GatewayError::Forbidden => 403,
            GatewayError::NotFound => 404,
            GatewayError::MethodNotAllowed => 405,
            GatewayError::Conflict(_) => 409,
            GatewayError::TooManyRequests => 429,
            GatewayError::PayloadTooLarge => 413,
            GatewayError::UnsupportedMediaType => 415,
            GatewayError::BadGateway(_) => 502,
            GatewayError::ServiceUnavailable(_) => 503,
            GatewayError::GatewayTimeout => 504,
            GatewayError::InternalServerError(_) => 500,
        }
    }

    pub fn status_code(&self) -> (s: StatusCode)
        ensures
            s == spec_status_code(spec_error_code(*self)),
    {
        status_from_u16(self.code())
    }

    pub fn error_name(&self) -> (n: &'static str)
        ensures
            n@ == spec_error_name(*self),
    {
        match self {
            GatewayError::BadRequest(_) => "Bad Request",
            GatewayError::Unauthorized(_) => "Unauthorized",
            GatewayError::Forbidden => "Forbidden",
            GatewayError::NotFound => "Not Found",
            GatewayError::MethodNotAllowed => "Method Not Allowed",
            GatewayError::Conflict(_) => "Conflict",
            GatewayError::TooManyRequests => "Too Many Requests",
            GatewayError::PayloadTooLarge => "Payload Too Large",
            GatewayError::UnsupportedMediaType => "Unsupported Media Type",
            GatewayError::BadGateway(_) => "Bad Gateway",
            GatewayError::ServiceUnavailable(_) => "Service Unavailable",
            GatewayError::GatewayTimeout => "Gateway Timeout",
            GatewayError::InternalServerError(_) => "Internal Server Error",
        }
    }

    pub fn message(&self) -> (m: String)
        ensures
            m@ == spec_error_message(*self),
    {
        match self {
            GatewayError::BadRequest(msg) => msg.clone(),
            GatewayError::Conflict(msg) => msg.clone(),
            GatewayError::BadGateway(msg) => msg.clone(),
            GatewayError::ServiceUnavailable(msg) => msg.clone(),
            GatewayError::InternalServerError(msg) => msg.clone(),
            GatewayError::Unauthorized(msg) => {
                if msg.as_str().is_empty() {
                    msg.clone()
                } else {
                    "Authentication required".to_owned()
                }
            },
            GatewayError::Forbidden => "Access denied".to_owned(),
            GatewayError::NotFound => "The requested resource was not found".to_owned(),
            GatewayError::MethodNotAllowed => "HTTP method not allowed".to_owned(),
            GatewayError::TooManyRequests => "Rate limit exceeded".to_owned(),
            GatewayError::PayloadTooLarge => "Payload too large".to_owned(),
            GatewayError::UnsupportedMediaType => "Unsupported media type".to_owned(),
            GatewayError::GatewayTimeout => "Upstream server timeout".to_owned(),
        }
    }

    /// The error a status number stands for; a status that is not one of
    /// the error kinds is an internal server error. The messages that the
    /// carrying kinds get are their reason phrases.
    pub fn from_code(code: u16) -> (e: GatewayError)
        ensures
            spec_error_code(e) == (if code == 400 || code == 401 || code == 403 || code == 404
                || code == 405 || code == 409 || code == 429 || code == 413 || code == 415 || code
                == 502 || code == 503 || code == 504 {
                code
            } else {
                500
            }),
            e matches GatewayError::BadRequest(m) ==> m@ == "Bad Request"@,
            e matches GatewayError::Unauthorized(m) ==> m@ == "Unauthorized"@,
            e matches GatewayError::Conflict(m) ==> m@ == "Conflict"@,
            e matches GatewayError::BadGateway(m) ==> m@ == "Bad Gateway"@,
            e matches GatewayError::ServiceUnavailable(m) ==> m@ == "Service Unavailable"@,
            e matches GatewayError::InternalServerError(m) ==> m@ == "Internal Server Error"@,
    {
        if code == 400 {
            GatewayError::BadRequest("Bad Request".to_owned())
        } else if code == 401 {
            GatewayError::Unauthorized("Unauthorized".to_owned())
        } else if code == 403 {
            GatewayError::Forbidden
        } else if code == 404 {
            GatewayError::NotFound
        } else if code == 405 {
            GatewayError::MethodNotAllowed
        } else if code == 409 {
            GatewayError::Conflict("Conflict".to_owned())
        } else if code == 429 {
            GatewayError::TooManyRequests
        } else if code == 413 {
            GatewayError::PayloadTooLarge
        } else if code == 415 {
            GatewayError::UnsupportedMediaType
        } else if code == 502 {
            GatewayError::BadGateway("Bad Gateway".to_owned())
        } else if code == 503 {
            GatewayError::ServiceUnavailable("Service Unavailable".to_owned())
        } else if code == 504 {
            GatewayError::GatewayTimeout
        } else {
            GatewayError::InternalServerError("Internal Server Error".to_owned())
        }
    }
}

impl From<StatusCode> for GatewayError {
    /// The error that the status's number stands for (see `from_code`).
    fn from(status: StatusCode) -> (e: GatewayError)
        ensures
            spec_error_code(e) == (if spec_status_as_u16(status) == 400 || spec_status_as_u16(status) == 401
                || spec_status_as_u16(status) == 403 || spec_status_as_u16(status) == 404
                || spec_status_as_u16(status) == 405 || spec_status_as_u16(status) == 409
                || spec_status_as_u16(status) == 429 || spec_status_as_u16(status) == 413
                || spec_status_as_u16(status) == 415 || spec_status_as_u16(status) == 502
                || spec_status_as_u16(status) == 503 || spec_status_as_u16(status) == 504 {
                spec_status_as_u16(status)
            } else {
                500
            }),
    {
        GatewayError::from_code(status_as_u16(&status))
    }
}

/// `from` is specified by its own `ensures` above: the errors that carry a
/// message hold a `String`, and no spec value of `String` can be written
/// from a text, so the generic spec is not claimed.
impl vstd::std_specs::convert::FromSpecImpl<StatusCode> for GatewayError {
    open spec fn obeys_from_spec() -> bool {
        false
    }

    open spec fn from_spec(v: StatusCode) -> GatewayError {
        vstd::pervasive::arbitrary()
    }
}

} // verus!
