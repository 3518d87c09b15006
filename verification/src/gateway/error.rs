//! Errors the gateway answers requests with, and the bodies it sends for them.
use http::StatusCode;
use vstd::prelude::*;
use vstd::string::StringExecFns;
use vstd::string::StringSliceAdditionalSpecFns;

use crate::config::dsl::errors::{push_decimal, spec_decimal};

use super::status::{
    canonical_reason, memmem_find, occurs_at, spec_canonical_reason, spec_status_as_u16,
    spec_status_code, status_as_u16, status_from_u16,
};

verus! {

/// What went wrong with a request, as the client is told.
#[derive(Debug, Clone, Copy, PartialEq, Eq, Structural)]
pub enum ErrorKind {
    BadRequest,
    Unauthorized,
    Forbidden,
    NotFound,
    MethodNotAllowed,
    Conflict,
    TooManyRequests,
    PayloadTooLarge,
    UnsupportedMediaType,
    BadGateway,
    ServiceUnavailable,
    GatewayTimeout,
    InternalServerError,
}

/// The HTTP status number of each kind.
pub open spec fn spec_kind_code(k: ErrorKind) -> u16 {
    match k {
        ErrorKind::BadRequest => 400,
        ErrorKind::Unauthorized => 401,
        ErrorKind::Forbidden => 403,
        ErrorKind::NotFound => 404,
        ErrorKind::MethodNotAllowed => 405,
        ErrorKind::Conflict => 409,
        ErrorKind::TooManyRequests => 429,
        ErrorKind::PayloadTooLarge => 413,
        ErrorKind::UnsupportedMediaType => 415,
        ErrorKind::BadGateway => 502,
        ErrorKind::ServiceUnavailable => 503,
        ErrorKind::GatewayTimeout => 504,
        ErrorKind::InternalServerError => 500,
    }
}

/// The kind of a status number: the kind with that number, or
/// `InternalServerError` for any other.
pub open spec fn spec_kind_of_code(code: u16) -> ErrorKind {
    if code == 400 {
        ErrorKind::BadRequest
    } else if code == 401 {
        ErrorKind::Unauthorized
    } else if code == 403 {
        ErrorKind::Forbidden
    } else if code == 404 {
        ErrorKind::NotFound
    } else if code == 405 {
        ErrorKind::MethodNotAllowed
    } else if code == 409 {
        ErrorKind::Conflict
    } else if code == 429 {
        ErrorKind::TooManyRequests
    } else if code == 413 {
        ErrorKind::PayloadTooLarge
    } else if code == 415 {
        ErrorKind::UnsupportedMediaType
    } else if code == 502 {
        ErrorKind::BadGateway
    } else if code == 503 {
        ErrorKind::ServiceUnavailable
    } else if code == 504 {
        ErrorKind::GatewayTimeout
    } else {
        ErrorKind::InternalServerError
    }
}

/// The message a kind is answered with when no other is given.
pub open spec fn spec_default_message(k: ErrorKind) -> Seq<char> {
    match k {
        ErrorKind::BadRequest => "Bad request"@,
        ErrorKind::Unauthorized => "Authentication required"@,
        ErrorKind::Forbidden => "Access denied"@,
        ErrorKind::NotFound => "The requested resource was not found"@,
        ErrorKind::MethodNotAllowed => "HTTP method not allowed"@,
        ErrorKind::Conflict => "Conflict"@,
        ErrorKind::TooManyRequests => "Rate limit exceeded"@,
        ErrorKind::PayloadTooLarge => "Payload too large"@,
        ErrorKind::UnsupportedMediaType => "Unsupported media type"@,
        ErrorKind::BadGateway => "Bad gateway"@,
        ErrorKind::ServiceUnavailable => "Service unavailable"@,
        ErrorKind::GatewayTimeout => "Upstream server timeout"@,
        ErrorKind::InternalServerError => "Internal server error"@,
    }
}

impl ErrorKind {
    pub fn default_message(&self) -> (m: &'static str)
        ensures
            m@ == spec_default_message(*self),
    {
        match self {
            ErrorKind::BadRequest => "Bad request",
            ErrorKind::Unauthorized => "Authentication required",
            ErrorKind::Forbidden => "Access denied",
            ErrorKind::NotFound => "The requested resource was not found",
            ErrorKind::MethodNotAllowed => "HTTP method not allowed",
            ErrorKind::Conflict => "Conflict",
            ErrorKind::TooManyRequests => "Rate limit exceeded",
            ErrorKind::PayloadTooLarge => "Payload too large",
            ErrorKind::UnsupportedMediaType => "Unsupported media type",
            ErrorKind::BadGateway => "Bad gateway",
            ErrorKind::ServiceUnavailable => "Service unavailable",
            ErrorKind::GatewayTimeout => "Upstream server timeout",
            ErrorKind::InternalServerError => "Internal server error",
        }
    }

    /// The HTTP status number of this kind.
    pub fn code(&self) -> (c: u16)
        ensures
            c == spec_kind_code(*self),
    {
        match self {
            ErrorKind::BadRequest => 400,
            ErrorKind::Unauthorized => 401,
            ErrorKind::Forbidden => 403,
            ErrorKind::NotFound => 404,
            ErrorKind::MethodNotAllowed => 405,
            ErrorKind::Conflict => 409,
            ErrorKind::TooManyRequests => 429,
            ErrorKind::PayloadTooLarge => 413,
            ErrorKind::UnsupportedMediaType => 415,
            ErrorKind::BadGateway => 502,
            ErrorKind::ServiceUnavailable => 503,
            ErrorKind::GatewayTimeout => 504,
            ErrorKind::InternalServerError => 500,
        }
    }

    /// The kind with status number `code`, `InternalServerError` for any other.
    pub fn from_code(code: u16) -> (k: ErrorKind)
        ensures
            k == spec_kind_of_code(code),
    {
        if code == 400 {
            ErrorKind::BadRequest
        } else if code == 401 {
            ErrorKind::Unauthorized
        } else if code == 403 {
            ErrorKind::Forbidden
        } else if code == 404 {
            ErrorKind::NotFound
        } else if code == 405 {
            ErrorKind::MethodNotAllowed
        } else if code == 409 {
            ErrorKind::Conflict
        } else if code == 429 {
            ErrorKind::TooManyRequests
        } else if code == 413 {
            ErrorKind::PayloadTooLarge
        } else if code == 415 {
            ErrorKind::UnsupportedMediaType
        } else if code == 502 {
            ErrorKind::BadGateway
        } else if code == 503 {
            ErrorKind::ServiceUnavailable
        } else if code == 504 {
            ErrorKind::GatewayTimeout
        } else {
            ErrorKind::InternalServerError
        }
    }
}

impl From<ErrorKind> for StatusCode {
    fn from(value: ErrorKind) -> (s: StatusCode) {
        status_from_u16(value.code())
    }
}

impl vstd::std_specs::convert::FromSpecImpl<ErrorKind> for StatusCode {
    open spec fn obeys_from_spec() -> bool {
        true
    }

    open spec fn from_spec(v: ErrorKind) -> StatusCode {
        spec_status_code(spec_kind_code(v))
    }
}

impl From<StatusCode> for ErrorKind {
    fn from(value: StatusCode) -> (k: ErrorKind) {
        ErrorKind::from_code(status_as_u16(&value))
    }
}

impl vstd::std_specs::convert::FromSpecImpl<StatusCode> for ErrorKind {
    open spec fn obeys_from_spec() -> bool {
        true
    }

    open spec fn from_spec(v: StatusCode) -> ErrorKind {
        spec_kind_of_code(spec_status_as_u16(v))
    }
}

/// Every kind of error survives the trip through its status number.
pub proof fn law_kind_code_roundtrip(k: ErrorKind)
    ensures
        spec_kind_of_code(spec_kind_code(k)) == k,
{
}

/// A kind of error, with the message that explains it, if any.
#[derive(Debug)]
pub struct GatewayError {
    pub kind: ErrorKind,
    pub message: Option<String>,
}

/// The message an error is answered with.
pub open spec fn spec_error_message(e: GatewayError) -> Seq<char> {
    match e.message {
        Some(m) => m@,
        None => spec_default_message(e.kind),
    }
}

impl GatewayError {
    pub fn new(kind: ErrorKind) -> (e: Self)
        ensures
            e.kind == kind,
            e.message is None,
    {
        GatewayError { kind, message: None }
    }

    /// The message: the one given, or the kind's default.
    pub fn message(&self) -> (m: String)
        ensures
            m@ == spec_error_message(*self),
    {
        match &self.message {
            Some(m) => m.clone(),
            None => self.kind.default_message().to_owned(),
        }
    }

    pub fn explain(kind: ErrorKind, message: String) -> (e: Self)
        ensures
            e.kind == kind,
            e.message == Some(message),
    {
        GatewayError { kind, message: Some(message) }
    }
}

impl From<StatusCode> for GatewayError {
    fn from(value: StatusCode) -> (e: GatewayError)
        ensures
            e.kind == spec_kind_of_code(spec_status_as_u16(value)),
            e.message is None,
    {
        GatewayError::new(ErrorKind::from_code(status_as_u16(&value)))
    }
}

impl vstd::std_specs::convert::FromSpecImpl<StatusCode> for GatewayError {
    open spec fn obeys_from_spec() -> bool {
        true
    }

    open spec fn from_spec(v: StatusCode) -> GatewayError {
        GatewayError { kind: spec_kind_of_code(spec_status_as_u16(v)), message: None }
    }
}

/// What an internal error code stands for.
pub open spec fn spec_description(code: Seq<char>) -> Seq<char> {
    if code == "GW-0001"@ {
        "Matched route missing from request context."@
    } else if code == "GW-0002"@ {
        "Selected backend missing from request context."@
    } else if code == "GW-0003"@ {
        "Gateway request lifecycle invariant violated."@
    } else if code == "GW-0004"@ {
        "Response generated more than once."@
    } else {
        "Unknown internal error."@
    }
}

/// What an internal error code stands for.
pub fn description(code: &str) -> (d: &'static str)
    ensures
        d@ == spec_description(code@),
{
    let v = crate::text::chars_of(code);
    let n = v.len();
    assert(v@.subrange(0, n as int) =~= code@);
    if crate::text::range_eq(&v, 0, n, "GW-0001") {
        "Matched route missing from request context."
    } else if crate::text::range_eq(&v, 0, n, "GW-0002") {
        "Selected backend missing from request context."
    } else if crate::text::range_eq(&v, 0, n, "GW-0003") {
        "Gateway request lifecycle invariant violated."
    } else if crate::text::range_eq(&v, 0, n, "GW-0004") {
        "Response generated more than once."
    } else {
        "Unknown internal error."
    }
}

/// The name an error body gives a status: its reason phrase, or
/// "Unknow error" where `http` knows none.
pub open spec fn spec_error_name(status: StatusCode) -> Seq<char> {
    match spec_canonical_reason(status) {
        Some(r) => r,
        None => "Unknow error"@,
    }
}

/// The bytes of `application/json`.
pub open spec fn json_media_type() -> Seq<u8> {
    "application/json".spec_bytes()
}

/// Whether an `Accept` header asks for JSON: it holds `application/json`.
pub open spec fn spec_wants_json(accept: Option<Seq<u8>>) -> bool {
    match accept {
        Some(a) => exists|j: int| #[trigger] occurs_at(a, json_media_type(), j),
        None => false,
    }
}

/// The JSON error body.
pub open spec fn spec_json_body(code: Seq<char>, message: Seq<char>, name: Seq<char>, request_id: Seq<char>) -> Seq<char> {
    "{\"status_code\":"@ + code + ",\"message\":\""@ + message + "\",\"error\":\""@ + name
        + "\",\"request_id\":\""@ + request_id + "\"}"@
}

/// The HTML error page.
pub open spec fn spec_html_body(code: Seq<char>, name: Seq<char>, message: Seq<char>, request_id: Seq<char>) -> Seq<char> {
    "<!DOCTYPE html>\n                    <html lang=\"en\">\n                    <head>\n                        <meta charset=\"UTF-8\">\n                        <meta name=\"viewport\" content=\"width=device-width, initial-scale=1.0\">\n                        <title>"@
        + code
        + " "@
        + name
        + "</title>\n                        <style>\n                            html {\n                                height: 100%;\n                                width: 100%;\n                                background-image: linear-gradient(324deg, transparent 0%, transparent 45%,rgba(186, 186, 186,0.04) 45%, rgba(186, 186, 186,0.04) 47%,transparent 47%, transparent 100%),linear-gradient(208deg, transparent 0%, transparent 40%,rgba(186, 186, 186,0.04) 40%, rgba(186, 186, 186,0.04) 80%,transparent 80%, transparent 100%),linear-gradient(202deg, transparent 0%, transparent 20%,rgba(186, 186, 186,0.04) 20%, rgba(186, 186, 186,0.04) 40%,transparent 40%, transparent 100%),linear-gradient(338deg, transparent 0%, transparent 10%,rgba(186, 186, 186,0.04) 10%, rgba(186, 186, 186,0.04) 72%,transparent 72%, transparent 100%),linear-gradient(90deg, rgb(0,0,0),rgb(0,0,0));\n                            }\n\n                            body {\n                                font-family: sans-serif;\n                                color: #ebeef1;\n                                display: flex;\n                                align-items: center;\n                                justify-content: center;\n                                height: 100vh;\n                                margin: 0;\n                            }\n\n                            .card {\n                                background: #1a1b1c;\n                                padding: 32px;\n                                border-radius: 12px;\n                                width: 480px;\n                            }\n\n                            h1 {\n                                margin: 0;\n                                font-size: 32px;\n                            }\n\n                            p {\n                                color: #9ea9b9;\n                            }\n\n                            code {\n                                color: #38bdf8;\n                            }\n                        </style>\n                    </head>\n                    <body>\n                        <div class=\"card\">\n                            <h1>"@
        + code
        + " "@
        + name
        + "</h1>\n                            <p>"@
        + message
        + "</p>\n                            <p>Request ID: <code>"@
        + request_id
        + "</code></p>\n                        </div>\n                    </body>\n                    </html>"@
}

/// The response to a failed request: its status, its body (JSON where the
/// `Accept` header asks for `application/json`, an HTML page otherwise) and
/// the body's content type.
pub fn build_error_body(error: &GatewayError, accept: Option<&[u8]>, request_id: &str) -> (r: (
    StatusCode,
    String,
    &'static str,
))
    ensures
        r.0 == spec_status_code(spec_kind_code(error.kind)),
        ({
            let code = spec_decimal(spec_kind_code(error.kind) as nat);
            let name = spec_error_name(r.0);
            let message = spec_error_message(*error);
            let json = spec_wants_json(
                match accept {
                    Some(a) => Some(a@),
                    None => None,
                },
            );
            &&& r.1@ == if json {
                spec_json_body(code, message, name, request_id@)
            } else {
                spec_html_body(code, name, message, request_id@)
            }
            &&& r.2@ == if json {
                "application/json"@
            } else {
                "text/html; charset=utf-8"@
            }
        }),
{
    let code = error.kind.code();
    let status = status_from_u16(code);
    let name = match canonical_reason(&status) {
        Some(r) => r,
        None => "Unknow error",
    };
    let message = error.message();
    let wants_json = match accept {
        Some(a) => {
            let found = memmem_find(a, "application/json".as_bytes());
            proof {
                let oa: Option<Seq<u8>> = Some(a@);
                if let Some(i) = found {
                    assert(occurs_at(a@, json_media_type(), i as int));
                    assert(oa matches Some(x) && x == a@);
                    assert(spec_wants_json(oa));
                } else {
                    assert(!spec_wants_json(oa));
                }
            }
            found.is_some()
        },
        None => false,
    };
    assert(wants_json == spec_wants_json(
        match accept {
            Some(a) => Some(a@),
            None => None,
        },
    ));
    let mut body = String::new();
    if wants_json {
        body.append("{\"status_code\":");
        push_decimal(&mut body, code as u64);
        body.append(",\"message\":\"");
        body.append(message.as_str());
        body.append("\",\"error\":\"");
        body.append(name);
        body.append("\",\"request_id\":\"");
        body.append(request_id);
        body.append("\"}");
        (status, body, "application/json")
    } else {
        body.append("<!DOCTYPE html>\n                    <html lang=\"en\">\n                    <head>\n                        <meta charset=\"UTF-8\">\n                        <meta name=\"viewport\" content=\"width=device-width, initial-scale=1.0\">\n                        <title>");
        push_decimal(&mut body, code as u64);
        body.append(" ");
        body.append(name);
        body.append("</title>\n                        <style>\n                            html {\n                                height: 100%;\n                                width: 100%;\n                                background-image: linear-gradient(324deg, transparent 0%, transparent 45%,rgba(186, 186, 186,0.04) 45%, rgba(186, 186, 186,0.04) 47%,transparent 47%, transparent 100%),linear-gradient(208deg, transparent 0%, transparent 40%,rgba(186, 186, 186,0.04) 40%, rgba(186, 186, 186,0.04) 80%,transparent 80%, transparent 100%),linear-gradient(202deg, transparent 0%, transparent 20%,rgba(186, 186, 186,0.04) 20%, rgba(186, 186, 186,0.04) 40%,transparent 40%, transparent 100%),linear-gradient(338deg, transparent 0%, transparent 10%,rgba(186, 186, 186,0.04) 10%, rgba(186, 186, 186,0.04) 72%,transparent 72%, transparent 100%),linear-gradient(90deg, rgb(0,0,0),rgb(0,0,0));\n                            }\n\n                            body {\n                                font-family: sans-serif;\n                                color: #ebeef1;\n                                display: flex;\n                                align-items: center;\n                                justify-content: center;\n                                height: 100vh;\n                                margin: 0;\n                            }\n\n                            .card {\n                                background: #1a1b1c;\n                                padding: 32px;\n                                border-radius: 12px;\n                                width: 480px;\n                            }\n\n                            h1 {\n                                margin: 0;\n                                font-size: 32px;\n                            }\n\n                            p {\n                                color: #9ea9b9;\n                            }\n\n                            code {\n                                color: #38bdf8;\n                            }\n                        </style>\n                    </head>\n                    <body>\n                        <div class=\"card\">\n                            <h1>");
        push_decimal(&mut body, code as u64);
        body.append(" ");
        body.append(name);
        body.append("</h1>\n                            <p>");
        body.append(message.as_str());
        body.append("</p>\n                            <p>Request ID: <code>");
        body.append(request_id);
        body.append("</code></p>\n                        </div>\n                    </body>\n                    </html>");
        (status, body, "text/html; charset=utf-8")
    }
}

} // verus!
