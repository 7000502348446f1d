//! Failures, and the replies that report them to a client.
use crate::json;
use crate::json::{JsonTree, Members};
use crate::text;
use serde_json::Value;
use vstd::prelude::*;
use vstd::string::*;

verus! {

pub const OK: u16 = 200;

pub const BAD_REQUEST: u16 = 400;

pub const NOT_FOUND: u16 = 404;

pub const PAYLOAD_TOO_LARGE: u16 = 413;

pub const TOO_MANY_REQUESTS: u16 = 429;

pub const BAD_GATEWAY: u16 = 502;

pub const SERVICE_UNAVAILABLE: u16 = 503;

pub const GATEWAY_TIMEOUT: u16 = 504;

/// Why the gateway could not do what it was asked to.
#[derive(Debug)]
pub enum GatewayError {
    Config(String),
    Invalid(String),
    Unavailable,
    Backend(String),
    Timeout,
}

/// A [`GatewayError`] with its text as characters.
pub enum GatewayErrorView {
    Config(Seq<char>),
    Invalid(Seq<char>),
    Unavailable,
    Backend(Seq<char>),
    Timeout,
}

impl View for GatewayError {
    type V = GatewayErrorView;

    open spec fn view(&self) -> GatewayErrorView {
        match self {
            GatewayError::Config(text) => GatewayErrorView::Config(text@),
            GatewayError::Invalid(text) => GatewayErrorView::Invalid(text@),
            GatewayError::Unavailable => GatewayErrorView::Unavailable,
            GatewayError::Backend(text) => GatewayErrorView::Backend(text@),
            GatewayError::Timeout => GatewayErrorView::Timeout,
        }
    }
}

impl Clone for GatewayError {
    fn clone(&self) -> (copy: Self)
        ensures
            copy@ == self@,
    {
        match self {
            GatewayError::Config(text) => GatewayError::Config(text.clone()),
            GatewayError::Invalid(text) => GatewayError::Invalid(text.clone()),
            GatewayError::Unavailable => GatewayError::Unavailable,
            GatewayError::Backend(text) => GatewayError::Backend(text.clone()),
            GatewayError::Timeout => GatewayError::Timeout,
        }
    }
}

impl GatewayErrorView {
    /// The text by which a failure is reported.
    pub open spec fn message(self) -> Seq<char> {
        match self {
            GatewayErrorView::Config(text) => text,
            GatewayErrorView::Invalid(text) => text,
            GatewayErrorView::Unavailable => "backend unavailable"@,
            GatewayErrorView::Backend(text) => "backend failure: "@ + text,
            GatewayErrorView::Timeout => "request timed out"@,
        }
    }
}

impl GatewayError {
    /// The text by which this failure is reported.
    pub fn to_string(&self) -> (message: String)
        ensures
            message@ == self@.message(),
    {
        match self {
            GatewayError::Config(text) => text.clone(),
            GatewayError::Invalid(text) => text.clone(),
            GatewayError::Unavailable => "backend unavailable".to_owned(),
            GatewayError::Backend(text) => {
                let mut message: String = "backend failure: ".to_owned();
                message.append(text.as_str());
                message
            },
            GatewayError::Timeout => "request timed out".to_owned(),
        }
    }
}

/// An HTTP reply: a status code and a JSON body.
#[derive(Debug)]
pub struct Reply {
    pub status: u16,
    pub body: Value,
}

/// A [`Reply`] with what its body says.
pub struct ReplyView {
    pub status: u16,
    pub body: JsonTree,
}

impl View for Reply {
    type V = ReplyView;

    open spec fn view(&self) -> ReplyView {
        ReplyView { status: self.status, body: json::value_tree(self.body) }
    }
}

/// The body of every reply that reports a failure.
pub open spec fn error_tree(
    message: Seq<char>,
    kind: Seq<char>,
    param: Option<Seq<char>>,
    code: Option<Seq<char>>,
) -> JsonTree {
    JsonTree::Object(
        map![
            "error"@ => JsonTree::Object(
                map![
                    "message"@ => JsonTree::Text(message),
                    "type"@ => JsonTree::Text(kind),
                    "param"@ => json::nullable(param),
                    "code"@ => json::nullable(code),
                ],
            ),
        ],
    )
}

/// A reply that reports a failure.
pub open spec fn error_reply(
    status: u16,
    message: Seq<char>,
    kind: Seq<char>,
    param: Option<Seq<char>>,
    code: Option<Seq<char>>,
) -> ReplyView {
    ReplyView { status, body: error_tree(message, kind, param, code) }
}

/// The document that reports a failure.
pub fn error_body(
    message: &str,
    kind: &str,
    param: Option<&str>,
    code: Option<&str>,
) -> (body: Value)
    ensures
        json::value_tree(body) == error_tree(
            message@,
            kind@,
            text::opt_str_view(param),
            text::opt_str_view(code),
        ),
{
    let error: Value = Members::new().with("message", json::text(message)).with(
        "type",
        json::text(kind),
    ).with("param", json::nullable_text(param)).with("code", json::nullable_text(code)).build();
    Members::new().with("error", error).build()
}

/// The reply that reports a failure.
pub fn error_response(
    status: u16,
    message: &str,
    kind: &str,
    param: Option<&str>,
    code: Option<&str>,
) -> (reply: Reply)
    ensures
        reply@ == error_reply(
            status,
            message@,
            kind@,
            text::opt_str_view(param),
            text::opt_str_view(code),
        ),
{
    Reply { status, body: error_body(message, kind, param, code) }
}

/// The reply to a request body that could not be read, given the status of that failure.
pub open spec fn rejection_reply(status: u16) -> ReplyView {
    if status == PAYLOAD_TOO_LARGE {
        error_reply(
            PAYLOAD_TOO_LARGE,
            "request body exceeds the configured limit"@,
            "invalid_request_error"@,
            None,
            None,
        )
    } else {
        error_reply(
            BAD_REQUEST,
            "request body is not valid JSON for this endpoint"@,
            "invalid_request_error"@,
            None,
            None,
        )
    }
}

/// The reply to a request body that could not be read: one that is too large is told apart, and
/// every other failure is a bad request.
pub fn json_rejection_response(status: u16) -> (reply: Reply)
    ensures
        reply@ == rejection_reply(status),
{
    if status == PAYLOAD_TOO_LARGE {
        error_response(
            status,
            "request body exceeds the configured limit",
            "invalid_request_error",
            None,
            None,
        )
    } else {
        error_response(
            BAD_REQUEST,
            "request body is not valid JSON for this endpoint",
            "invalid_request_error",
            None,
            None,
        )
    }
}

/// Why no permit to run could be had at once.
#[derive(Debug, Clone, Copy, PartialEq, Eq, Structural)]
pub enum PermitRefusal {
    /// As many requests as are allowed are running.
    NoPermits,
    /// The gateway hands out no more permits.
    Closed,
}

/// The reply to a request that got no permit.
pub open spec fn refusal_reply(refusal: PermitRefusal) -> ReplyView {
    match refusal {
        PermitRefusal::NoPermits => error_reply(
            TOO_MANY_REQUESTS,
            "too many concurrent requests"@,
            "rate_limit_error"@,
            None,
            None,
        ),
        PermitRefusal::Closed => error_reply(
            SERVICE_UNAVAILABLE,
            "gateway is shutting down"@,
            "backend_unavailable"@,
            None,
            None,
        ),
    }
}

/// Whether a request may run: with a permit it may, and without one it is answered at once instead
/// of being queued.
pub fn acquire<P>(permit: Result<P, PermitRefusal>) -> (admitted: Result<P, Reply>)
    ensures
        match permit {
            Ok(permit) => admitted == Ok::<P, Reply>(permit),
            Err(refusal) => admitted matches Err(reply) && reply@ == refusal_reply(refusal),
        },
{
    match permit {
        Ok(permit) => Ok(permit),
        Err(PermitRefusal::NoPermits) => Err(
            error_response(
                TOO_MANY_REQUESTS,
                "too many concurrent requests",
                "rate_limit_error",
                None,
                None,
            ),
        ),
        Err(PermitRefusal::Closed) => Err(
            error_response(
                SERVICE_UNAVAILABLE,
                "gateway is shutting down",
                "backend_unavailable",
                None,
                None,
            ),
        ),
    }
}

/// The reply to a run that failed. A backend that is not there is told apart from one that broke its
/// protocol.
pub open spec fn failure_reply(error: GatewayErrorView) -> ReplyView {
    match error {
        GatewayErrorView::Timeout => error_reply(
            GATEWAY_TIMEOUT,
            "request timed out"@,
            "timeout_error"@,
            None,
            None,
        ),
        GatewayErrorView::Invalid(message) => error_reply(
            BAD_REQUEST,
            message,
            "invalid_request_error"@,
            None,
            None,
        ),
        GatewayErrorView::Unavailable => error_reply(
            SERVICE_UNAVAILABLE,
            error.message(),
            "backend_unavailable"@,
            None,
            None,
        ),
        _ => error_reply(BAD_GATEWAY, error.message(), "backend_unavailable"@, None, None),
    }
}

/// The reply to a run that failed.
pub fn backend_error_response(error: GatewayError) -> (reply: Reply)
    ensures
        reply@ == failure_reply(error@),
{
    match error {
        GatewayError::Timeout => error_response(
            GATEWAY_TIMEOUT,
            "request timed out",
            "timeout_error",
            None,
            None,
        ),
        GatewayError::Invalid(message) => error_response(
            BAD_REQUEST,
            message.as_str(),
            "invalid_request_error",
            None,
            None,
        ),
        GatewayError::Unavailable => backend_rejection_response(&GatewayError::Unavailable),
        error => {
            let message: String = error.to_string();
            error_response(BAD_GATEWAY, message.as_str(), "backend_unavailable", None, None)
        },
    }
}

/// The reply to a request that the backend did not take.
pub fn backend_rejection_response(error: &GatewayError) -> (reply: Reply)
    ensures
        reply@ == error_reply(
            SERVICE_UNAVAILABLE,
            error@.message(),
            "backend_unavailable"@,
            None,
            None,
        ),
{
    let message: String = error.to_string();
    error_response(SERVICE_UNAVAILABLE, message.as_str(), "backend_unavailable", None, None)
}

/// The reply to a run that did not end in time.
pub fn timeout_response() -> (reply: Reply)
    ensures
        reply@ == error_reply(
            GATEWAY_TIMEOUT,
            "request timed out"@,
            "timeout_error"@,
            None,
            None,
        ),
{
    error_response(GATEWAY_TIMEOUT, "request timed out", "timeout_error", None, None)
}

/// Every failure of a run is reported with an error status: a failed run is never taken for a
/// completed one.
pub proof fn failures_are_not_completions(error: GatewayErrorView)
    ensures
        failure_reply(error).status != OK,
        failure_reply(error).status == BAD_REQUEST || failure_reply(error).status == BAD_GATEWAY
            || failure_reply(error).status == SERVICE_UNAVAILABLE || failure_reply(error).status
            == GATEWAY_TIMEOUT,
{
}

} // verus!
