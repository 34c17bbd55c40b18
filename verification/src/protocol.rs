//! The typed request/response vocabulary exchanged as JSON frames over the
//! WebSocket. JSON framing itself is done outside the library; the session
//! state machine consumes and produces these values.

use vstd::prelude::*;

verus! {

/// Errors surfaced to the client inside an `Error` response.
#[derive(Clone, Copy, Debug, PartialEq, Eq, Structural)]
pub enum GrinboxError {
    UnknownError,
    InvalidRequest,
    InvalidSignature,
    InvalidChallenge,
    TooManySubscriptions,
    InvalidRelayAbbr,
    Offline,
}

/// A client-to-server request frame.
#[derive(Clone, Debug, PartialEq)]
pub enum GrinboxRequest {
    Challenge,
    Subscribe { address: String, signature: String },
    RetrieveRelayAddr { abbr: String },
    PostSlate {
        from: String,
        to: String,
        str: String,
        signature: String,
        message_expiration_in_seconds: Option<u32>,
    },
    Unsubscribe { address: String },
}

/// A server-to-client response frame.
#[derive(Clone, Debug, PartialEq)]
pub enum GrinboxResponse {
    Okay,
    Error { kind: GrinboxError, description: String },
    Challenge { str: String },
    Slate { from: String, str: String, signature: String, challenge: String },
    RelayAddr { abbr: String, relay_addr: Vec<String> },
}

/// The log summary of a request.
pub open spec fn spec_request_summary(r: GrinboxRequest) -> Seq<char> {
    match r {
        GrinboxRequest::Challenge => "Challenge"@,
        GrinboxRequest::Subscribe { address, .. } => "Subscribe to "@ + address@,
        GrinboxRequest::Unsubscribe { address } => "Unsubscribe from "@ + address@,
        GrinboxRequest::PostSlate { from, to, .. } => "PostSlate from "@ + from@ + " to "@ + to@,
        GrinboxRequest::RetrieveRelayAddr { abbr } => "RetrieveRelayAddr : "@ + abbr@,
    }
}

/// The log summary of a response.
pub open spec fn spec_response_summary(r: GrinboxResponse) -> Seq<char> {
    match r {
        GrinboxResponse::Okay => "Ok"@,
        GrinboxResponse::Error { .. } => "error"@,
        GrinboxResponse::Challenge { str } => "Challenge "@ + str@,
        GrinboxResponse::Slate { from, .. } => "Slate from "@ + from@,
        GrinboxResponse::RelayAddr { abbr, .. } => "RelayAddr: abbr: "@ + abbr@,
    }
}

impl GrinboxRequest {
    /// A short plain-text summary for logs.
    pub fn describe(&self) -> (r: String)
        ensures
            r@ == spec_request_summary(*self),
    {
        match self {
            GrinboxRequest::Challenge => "Challenge".to_owned(),
            GrinboxRequest::Subscribe { address, .. } => {
                let mut s = "Subscribe to ".to_owned();
                s.append(address.as_str());
                s
            },
            GrinboxRequest::Unsubscribe { address } => {
                let mut s = "Unsubscribe from ".to_owned();
                s.append(address.as_str());
                s
            },
            GrinboxRequest::PostSlate { from, to, .. } => {
                let mut s = "PostSlate from ".to_owned();
                s.append(from.as_str());
                s.append(" to ");
                s.append(to.as_str());
                s
            },
            GrinboxRequest::RetrieveRelayAddr { abbr } => {
                let mut s = "RetrieveRelayAddr : ".to_owned();
                s.append(abbr.as_str());
                s
            },
        }
    }
}

impl GrinboxResponse {
    /// A short plain-text summary for logs.
    pub fn describe(&self) -> (r: String)
        ensures
            r@ == spec_response_summary(*self),
    {
        match self {
            GrinboxResponse::Okay => "Ok".to_owned(),
            GrinboxResponse::Error { .. } => "error".to_owned(),
            GrinboxResponse::Challenge { str } => {
                let mut s = "Challenge ".to_owned();
                s.append(str.as_str());
                s
            },
            GrinboxResponse::Slate { from, .. } => {
                let mut s = "Slate from ".to_owned();
                s.append(from.as_str());
                s
            },
            GrinboxResponse::RelayAddr { abbr, .. } => {
                let mut s = "RelayAddr: abbr: ".to_owned();
                s.append(abbr.as_str());
                s
            },
        }
    }
}

} // verus!
