//! Error replies of the MCP protocol that the server's components produce.
use vstd::prelude::*;
use crate::oauth::{error_code_text, OAuthError, OAuthErrorKind};

verus! {

/// The code of an MCP error reply.
#[derive(Debug, Clone, Copy, PartialEq, Eq, Structural)]
pub enum McpErrorCode {
    /// The request is malformed or not allowed in the current state.
    InvalidRequest,
    /// The request's parameters are invalid.
    InvalidParams,
    /// The caller may not access the resource.
    ResourceForbidden,
    /// The server failed internally.
    InternalError,
    /// The request was cancelled or ran out of budget or time.
    RequestCancelled,
    /// No such method, or no such tool.
    MethodNotFound,
    /// No such resource.
    ResourceNotFound,
    /// No such prompt.
    PromptNotFound,
    /// An application-defined code.
    Custom(i32),
}

/// An MCP error reply: a code and a human-readable message.
#[derive(Debug, Clone)]
pub struct McpError {
    /// The error code.
    pub code: McpErrorCode,
    /// The message.
    pub message: String,
}

impl McpError {
    /// An error with the given code and message.
    pub fn new(code: McpErrorCode, message: String) -> (e: McpError)
        ensures
            e.code == code,
            e.message@ == message@,
    {
        McpError { code, message }
    }

    /// An invalid-request error with the given message.
    pub fn invalid_request(message: String) -> (e: McpError)
        ensures
            e.code == McpErrorCode::InvalidRequest,
            e.message@ == message@,
    {
        McpError { code: McpErrorCode::InvalidRequest, message }
    }

    /// An internal error with the given message.
    pub fn internal_error(message: String) -> (e: McpError)
        ensures
            e.code == McpErrorCode::InternalError,
            e.message@ == message@,
    {
        McpError { code: McpErrorCode::InternalError, message }
    }

    /// An invalid-params error with the given message.
    pub fn invalid_params(message: String) -> (e: McpError)
        ensures
            e.code == McpErrorCode::InvalidParams,
            e.message@ == message@,
    {
        McpError { code: McpErrorCode::InvalidParams, message }
    }
}

/// The MCP code that an OAuth error of kind `k` is reported with: client and
/// access failures are forbidden, everything else is an invalid request.
pub open spec fn mcp_code_of_oauth(k: OAuthErrorKind) -> McpErrorCode {
    match k {
        OAuthErrorKind::InvalidClient => McpErrorCode::ResourceForbidden,
        OAuthErrorKind::UnauthorizedClient => McpErrorCode::ResourceForbidden,
        OAuthErrorKind::AccessDenied => McpErrorCode::ResourceForbidden,
        _ => McpErrorCode::InvalidRequest,
    }
}

impl McpError {
    /// The MCP error reply for an OAuth error: its code by
    /// [`mcp_code_of_oauth`], its message the OAuth error's display text.
    pub fn from_oauth(err: OAuthError) -> (e: McpError)
        ensures
            e.code == mcp_code_of_oauth(err.kind()),
            e.message@ == error_code_text(err.kind()) + ": "@ + err.msg(),
    {
        let message = err.to_string();
        let code = match &err {
            OAuthError::InvalidClient(_) | OAuthError::UnauthorizedClient(_) => {
                McpErrorCode::ResourceForbidden
            },
            OAuthError::AccessDenied(_) => McpErrorCode::ResourceForbidden,
            _ => McpErrorCode::InvalidRequest,
        };
        McpError { code, message }
    }
}

impl From<OAuthError> for McpError {
    /// As [`McpError::from_oauth`].
    fn from(err: OAuthError) -> (e: McpError)
        ensures
            e.code == mcp_code_of_oauth(err.kind()),
            e.message@ == error_code_text(err.kind()) + ": "@ + err.msg(),
    {
        McpError::from_oauth(err)
    }
}

/// The conversion is described by the `ensures` of `from` itself: a message
/// is a `String`, which no spec function can build from its text.
impl vstd::std_specs::convert::FromSpecImpl<OAuthError> for McpError {
    open spec fn obeys_from_spec() -> bool {
        false
    }

    open spec fn from_spec(err: OAuthError) -> McpError {
        McpError { code: mcp_code_of_oauth(err.kind()), message: vstd::pervasive::arbitrary() }
    }
}

} // verus!
