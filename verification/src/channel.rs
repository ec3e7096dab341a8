//! Low-level LDAP channel: where to connect, how the transport is secured,
//! and the StartTLS exchange that comes before a TLS handshake.

use vstd::prelude::*;
use vstd::slice::slice_to_vec;
use vstd::string::StringSliceAdditionalSpecFns;
use crate::model::{ExtendedRequest, Message, ProtocolOp, ResultCode};
use crate::oid::STARTTLS_OID;
use crate::options::{TlsKind, TlsOptions};

verus! {

/// Messages that each queue between the socket and the client may hold.
pub const CHANNEL_SIZE: usize = 1024;

/// Seconds after which name resolution and TCP connect are given up.
pub const CONNECT_TIMEOUT: u64 = 10;

/// Seconds to wait for the reply to the StartTLS request.
pub const STARTTLS_TIMEOUT: u64 = 30;

/// The message id of the StartTLS request. Id 0 belongs to the server's
/// unsolicited notifications, ids from 2 on to the client's operations.
pub const STARTTLS_MESSAGE_ID: u32 = 1;

/// LDAP channel errors
#[derive(Debug, Clone, PartialEq, Eq)]
pub enum ChannelError {
    /// The socket failed; the text is the system's message.
    IoError(String),
    /// The TCP connection was not there in time.
    ConnectTimeout,
    /// The server did not agree to StartTLS, or did not answer in time.
    StartTlsFailed,
    /// The TLS handshake failed; the text is the TLS library's message.
    Tls(String),
}

/// LDAP TCP channel connector
#[derive(Debug, Clone, PartialEq, Eq)]
pub struct LdapChannel {
    pub address: String,
    pub port: u16,
}

/// What stands between the TCP connection and the framed message stream.
#[derive(Debug, Clone, PartialEq, Eq)]
pub enum Transport {
    /// Nothing: messages go over the socket as it is.
    Plain,
    /// A TLS handshake, with `domain` as the server name.
    Tls { domain: String },
    /// `request` is sent in the clear; once the server has agreed to it, a
    /// TLS handshake on the same socket, with `domain` as the server name.
    StartTls { request: Message, domain: String },
}

/// What came of the StartTLS request.
#[derive(Debug, Clone, PartialEq, Eq)]
pub enum StartTlsReply {
    /// The server's next message
    Reply(Message),
    /// The request could not be sent
    SendFailed,
    /// What the server sent is no LDAP message
    Corrupt,
    /// The server closed the connection
    Closed,
    /// No reply within [`STARTTLS_TIMEOUT`]
    TimedOut,
}

/// Whether `msg` is the StartTLS request: id 1, the extended request named
/// by the StartTLS OID, without value and without controls.
pub open spec fn is_starttls_request(msg: Message) -> bool {
    &&& msg.message_id == STARTTLS_MESSAGE_ID
    &&& msg.controls is None
    &&& msg.protocol_op matches ProtocolOp::ExtendedReq(req)
    &&& req.request_name@ == STARTTLS_OID.spec_bytes()
    &&& req.request_value is None
}

/// Whether `reply` lets the TLS handshake begin: it is the server's
/// extended response to message 1 with result code `Success`.
pub open spec fn starttls_agreed(reply: StartTlsReply) -> bool {
    &&& reply matches StartTlsReply::Reply(msg)
    &&& msg.message_id == STARTTLS_MESSAGE_ID
    &&& msg.protocol_op matches ProtocolOp::ExtendedResp(resp)
    &&& resp.result_code == ResultCode::Success
}

impl LdapChannel {
    /// Create a client-side channel with a given server address and port
    pub fn for_client(address: &str, port: u16) -> (r: Self)
        ensures
            r.address@ == address@,
            r.port == port,
    {
        LdapChannel { address: address.to_owned(), port }
    }

    /// The server name for the TLS handshake: the name that the options
    /// give, else the address of the channel.
    pub open spec fn sni(&self, tls_options: &TlsOptions) -> Seq<char> {
        match tls_options.domain_name {
            Some(d) => d@,
            None => self.address@,
        }
    }

    /// The server name for the TLS handshake.
    pub fn tls_domain(&self, tls_options: &TlsOptions) -> (domain: String)
        ensures
            domain@ == self.sni(tls_options),
    {
        match &tls_options.domain_name {
            Some(d) => d.clone(),
            None => self.address.clone(),
        }
    }

    /// The StartTLS request.
    pub fn starttls_request() -> (msg: Message)
        ensures
            is_starttls_request(msg),
    {
        let req = ExtendedRequest {
            request_name: slice_to_vec(STARTTLS_OID.as_bytes()),
            request_value: None,
        };
        Message::new(STARTTLS_MESSAGE_ID, ProtocolOp::ExtendedReq(req))
    }

    /// Whether `t` is what the options ask for on a connection to this
    /// channel's server: nothing for a plain connection; a TLS handshake
    /// with the server name of [`LdapChannel::sni`]; or the StartTLS request
    /// and then that handshake.
    pub open spec fn transport(&self, tls_options: &TlsOptions, t: Transport) -> bool {
        match tls_options.kind {
            TlsKind::Plain => t == Transport::Plain,
            TlsKind::Tls => t matches Transport::Tls { domain } && domain@ == self.sni(tls_options),
            TlsKind::StartTls => t matches Transport::StartTls { request, domain }
                && is_starttls_request(request) && domain@ == self.sni(tls_options),
        }
    }

    /// What is to happen on the fresh TCP connection before messages flow,
    /// by the transport mode of the options.
    pub fn connect(&self, tls_options: &TlsOptions) -> (t: Transport)
        ensures
            self.transport(tls_options, t),
    {
        match tls_options.kind {
            TlsKind::Plain => Transport::Plain,
            TlsKind::Tls => Transport::Tls { domain: self.tls_domain(tls_options) },
            TlsKind::StartTls => Transport::StartTls {
                request: Self::starttls_request(),
                domain: self.tls_domain(tls_options),
            },
        }
    }

    /// Decides on the outcome of the StartTLS request: the handshake may
    /// begin where the server's reply agrees, and in no other case.
    pub fn starttls_connect(reply: StartTlsReply) -> (r: Result<(), ChannelError>)
        ensures
            starttls_agreed(reply) ==> r == Ok::<(), ChannelError>(()),
            !starttls_agreed(reply) ==> r == Err::<(), ChannelError>(ChannelError::StartTlsFailed),
    {
        match reply {
            StartTlsReply::Reply(item) => match item.protocol_op {
                ProtocolOp::ExtendedResp(resp) => {
                    if resp.result_code == ResultCode::Success && item.message_id
                        == STARTTLS_MESSAGE_ID {
                        Ok(())
                    } else {
                        Err(ChannelError::StartTlsFailed)
                    }
                },
                _ => Err(ChannelError::StartTlsFailed),
            },
            _ => Err(ChannelError::StartTlsFailed),
        }
    }
}

} // verus!
