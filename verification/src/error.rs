//! The application's error: what went wrong, and the message a user sees.
//! Network and database failures carry the failing library's own message.

use vstd::prelude::*;

use crate::text;

verus! {

pub enum AppError {
    /// A network failure talking to Jira (the HTTP client's message).
    Http(String),
    /// Jira answered with a non-success status.
    Jira { status: u16, message: String },
    /// A local database failure (the database's message).
    Db(String),
    Keychain(String),
    Config(String),
    Other(String),
}

/// 404, 405 and 410: the endpoint does not exist on this deployment.
pub open spec fn missing_status(status: u16) -> bool {
    status == 404 || status == 405 || status == 410
}

/// 401 and 403: the credentials were refused.
pub open spec fn unauthorized_status(status: u16) -> bool {
    status == 401 || status == 403
}

/// The message a user reads for an error.
pub open spec fn message_spec(e: AppError) -> Seq<char> {
    match e {
        AppError::Http(m) => "Network error talking to Jira: "@ + m@,
        AppError::Jira { status, message } => "Jira API error ("@ + text::decimal_spec(status as int) + "): "@
            + message@,
        AppError::Db(m) => "Local database error: "@ + m@,
        AppError::Keychain(m) => "Credential store error: "@ + m@,
        AppError::Config(m) => "Configuration error: "@ + m@,
        AppError::Other(m) => m@,
    }
}

impl AppError {
    pub fn jira(status: u16, message: String) -> (e: AppError)
        ensures
            e == (AppError::Jira { status, message }),
    {
        AppError::Jira { status, message }
    }

    /// A failure to read or write JSON, with the parser's message.
    pub fn serialization(detail: &str) -> (e: AppError)
        ensures
            e matches AppError::Other(m) && m@ == "Serialization error: "@ + detail@,
    {
        AppError::Other(text::concat("Serialization error: ", detail))
    }

    pub open spec fn endpoint_missing_spec(&self) -> bool {
        self matches AppError::Jira { status, .. } && missing_status(*status)
    }

    pub open spec fn unauthorized_spec(&self) -> bool {
        self matches AppError::Jira { status, .. } && unauthorized_status(*status)
    }

    /// True when the error says the endpoint does not exist on this
    /// deployment (used to fall back between Data Center and Cloud APIs).
    pub fn is_endpoint_missing(&self) -> (r: bool)
        ensures
            r == self.endpoint_missing_spec(),
    {
        match self {
            AppError::Jira { status, .. } => *status == 404 || *status == 405 || *status == 410,
            _ => false,
        }
    }

    pub fn is_unauthorized(&self) -> (r: bool)
        ensures
            r == self.unauthorized_spec(),
    {
        match self {
            AppError::Jira { status, .. } => *status == 401 || *status == 403,
            _ => false,
        }
    }

    /// The error's message (its `Display` text).
    pub fn message(&self) -> (m: String)
        ensures
            m@ == message_spec(*self),
    {
        match self {
            AppError::Http(m) => text::concat("Network error talking to Jira: ", m.as_str()),
            AppError::Jira { status, message } => {
                let head = text::concat("Jira API error (", text::decimal(*status as i64).as_str());
                let head = text::concat(head.as_str(), "): ");
                let out = text::concat(head.as_str(), message.as_str());
                proof {
                    assert(out@ =~= "Jira API error ("@ + text::decimal_spec(*status as int) + "): "@ + message@);
                }
                out
            },
            AppError::Db(m) => text::concat("Local database error: ", m.as_str()),
            AppError::Keychain(m) => text::concat("Credential store error: ", m.as_str()),
            AppError::Config(m) => text::concat("Configuration error: ", m.as_str()),
            AppError::Other(m) => m.clone(),
        }
    }
}

} // verus!
