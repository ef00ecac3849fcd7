//! What can go wrong with a request.
use vstd::prelude::*;

verus! {

#[derive(Debug)]
pub enum ProxyError {
    /// A value that could not be written as JSON.
    Serialization(serde_json::Error),
    /// An answer that has no counterpart in the other API.
    Transform(String),
    /// The upstream failed and there is no status to hand on.
    Upstream(String),
    /// The upstream answered with an error status, which the client gets too.
    UpstreamStatus { status: u16, message: String },
    /// No answer came: a transport failure, in words.
    Http(String),
}

/// What an error says.
pub ghost enum ErrorSpec {
    Serialization(serde_json::Error),
    Transform(Seq<char>),
    Upstream(Seq<char>),
    UpstreamStatus(u16, Seq<char>),
    Http(Seq<char>),
}

impl ProxyError {
    pub open spec fn view(&self) -> ErrorSpec {
        match self {
            ProxyError::Serialization(err) => ErrorSpec::Serialization(*err),
            ProxyError::Transform(message) => ErrorSpec::Transform(message@),
            ProxyError::Upstream(message) => ErrorSpec::Upstream(message@),
            ProxyError::UpstreamStatus { status, message } => ErrorSpec::UpstreamStatus(
                *status,
                message@,
            ),
            ProxyError::Http(message) => ErrorSpec::Http(message@),
        }
    }
}

/// The HTTP status that a client gets for an error: the upstream's own, or else one that says
/// whose fault it is.
pub open spec fn client_status(err: ErrorSpec) -> u16 {
    match err {
        ErrorSpec::Serialization(_) => 500,
        ErrorSpec::Transform(_) => 500,
        ErrorSpec::Upstream(_) => 502,
        ErrorSpec::UpstreamStatus(status, _) => status,
        ErrorSpec::Http(_) => 502,
    }
}

/// What an error with a status is called in the body that a client gets.
pub open spec fn status_name(status: u16) -> Seq<char> {
    if status == 401 {
        "authentication_error"@
    } else if status == 403 {
        "permission_error"@
    } else if status == 404 {
        "not_found_error"@
    } else if status == 413 {
        "request_too_large"@
    } else if status == 429 {
        "rate_limit_error"@
    } else if 400 <= status < 500 {
        "invalid_request_error"@
    } else {
        "api_error"@
    }
}

impl ProxyError {
    pub fn status_code(&self) -> (status: u16)
        ensures
            status == client_status(self@),
    {
        match self {
            ProxyError::Serialization(_) => 500,
            ProxyError::Transform(_) => 500,
            ProxyError::Upstream(_) => 502,
            ProxyError::UpstreamStatus { status, .. } => *status,
            ProxyError::Http(_) => 502,
        }
    }

    pub fn error_kind(&self) -> (name: &'static str)
        ensures
            name@ == status_name(client_status(self@)),
    {
        let status = self.status_code();
        if status == 401 {
            "authentication_error"
        } else if status == 403 {
            "permission_error"
        } else if status == 404 {
            "not_found_error"
        } else if status == 413 {
            "request_too_large"
        } else if status == 429 {
            "rate_limit_error"
        } else if 400 <= status && status < 500 {
            "invalid_request_error"
        } else {
            "api_error"
        }
    }
}

pub type ProxyResult<T> = Result<T, ProxyError>;

} // verus!
