//! LDAP errors

use vstd::prelude::*;
use crate::channel::ChannelError;
use crate::model::{BindResponse, LdapResult, ResultCode};

verus! {

/// LDAP operation error
#[derive(Debug, Clone, PartialEq, Eq)]
pub struct OperationError {
    /// Result code
    pub result_code: ResultCode,
    /// Matched DN
    pub matched_dn: String,
    /// Diagnostic message
    pub diagnostic_message: String,
}

/// LDAP errors
#[derive(Debug, Clone, PartialEq, Eq)]
pub enum Error {
    /// The socket failed; the text is the system's message.
    Io(String),
    /// The bytes received are no LDAP message or no control value.
    AsnDecode(String),
    /// A message or control value could not be encoded.
    AsnEncode(String),
    /// The channel to the server could not be set up.
    Channel(ChannelError),
    /// The outbound queue is closed.
    Send(String),
    InvalidMessageId,
    /// The server answered with a result code that is a failure.
    OperationFailed(OperationError),
    /// The text is no RFC 2254 filter.
    InvalidFilter,
    /// The response does not fit the request, or a control is missing.
    InvalidResponse,
    /// The stream of responses ended before the operation was complete.
    ConnectionClosed,
    GssApiError(String),
    NoSaslCredentials,
}

impl From<LdapResult> for OperationError {
    fn from(r: LdapResult) -> (e: Self) {
        OperationError {
            result_code: r.result_code,
            matched_dn: r.matched_dn,
            diagnostic_message: r.diagnostic_message,
        }
    }
}

impl vstd::std_specs::convert::FromSpecImpl<LdapResult> for OperationError {
    open spec fn obeys_from_spec() -> bool {
        true
    }

    open spec fn from_spec(r: LdapResult) -> Self {
        OperationError {
            result_code: r.result_code,
            matched_dn: r.matched_dn,
            diagnostic_message: r.diagnostic_message,
        }
    }
}

impl From<BindResponse> for OperationError {
    fn from(r: BindResponse) -> (e: Self) {
        OperationError {
            result_code: r.result_code,
            matched_dn: r.matched_dn,
            diagnostic_message: r.diagnostic_message,
        }
    }
}

impl vstd::std_specs::convert::FromSpecImpl<BindResponse> for OperationError {
    open spec fn obeys_from_spec() -> bool {
        true
    }

    open spec fn from_spec(r: BindResponse) -> Self {
        OperationError {
            result_code: r.result_code,
            matched_dn: r.matched_dn,
            diagnostic_message: r.diagnostic_message,
        }
    }
}

} // verus!
