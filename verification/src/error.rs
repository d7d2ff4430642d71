//! The error taxonomy of the service, with the HTTP status and the
//! message text that each variant is rendered with.

use vstd::prelude::*;
use vstd::string::*;

verus! {

#[derive(Debug)]
pub enum AppError {
    ChannelNotFound(String),
    InvalidM3U(String),
    ProxyError(String),
    Internal(String),
}

pub open spec fn status_of(e: AppError) -> u16 {
    match e {
        AppError::ChannelNotFound(_) => 404,
        AppError::InvalidM3U(_) => 400,
        AppError::ProxyError(_) => 502,
        AppError::Internal(_) => 500,
    }
}

pub open spec fn message_of(e: AppError) -> Seq<char> {
    match e {
        AppError::ChannelNotFound(m) => "Channel not found: "@ + m@,
        AppError::InvalidM3U(m) => "Invalid M3U format: "@ + m@,
        AppError::ProxyError(m) => "Proxy error: "@ + m@,
        AppError::Internal(m) => "Internal error: "@ + m@,
    }
}

impl AppError {
    /// The HTTP status code the variant maps to at the request boundary.
    pub fn status_code(&self) -> (r: u16)
        ensures
            r == status_of(*self),
    {
        match self {
            AppError::ChannelNotFound(_) => 404,
            AppError::InvalidM3U(_) => 400,
            AppError::ProxyError(_) => 502,
            AppError::Internal(_) => 500,
        }
    }

    /// The error message rendered into the structured error body.
    pub fn message(&self) -> (r: String)
        ensures
            r@ == message_of(*self),
    {
        match self {
            AppError::ChannelNotFound(m) => {
                let mut s = String::from_str("Channel not found: ");
                s.append(m.as_str());
                s
            },
            AppError::InvalidM3U(m) => {
                let mut s = String::from_str("Invalid M3U format: ");
                s.append(m.as_str());
                s
            },
            AppError::ProxyError(m) => {
                let mut s = String::from_str("Proxy error: ");
                s.append(m.as_str());
                s
            },
            AppError::Internal(m) => {
                let mut s = String::from_str("Internal error: ");
                s.append(m.as_str());
                s
            },
        }
    }
}

} // verus!
