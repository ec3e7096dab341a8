//! SASL GSSAPI (Kerberos) bind: the order of the exchange.
//!
//! The security context is the caller's. This module says what to send,
//! what to feed to the context and when the bind is complete. SASL
//! protection over a plain connection is not negotiated: use TLS.

use vstd::prelude::*;
use vstd::string::StringExecFns;
use crate::client::{bind_outcome, is_sasl_bind, next_after, LdapClient, SASL_GSSAPI};
use crate::error::Error;
use crate::model::Message;

verus! {

/// The prefix of the service principal name of an LDAP server.
pub const SERVICE_PREFIX: &'static str = "ldap/";

/// The text of the error for a security context that is not complete after
/// the server's first token, or that has one more token to send.
pub const NOT_FINISHED: &'static str = "GSSAPI exchange not finished or has an additional token";

/// The text of the error for an event that the exchange did not wait for.
pub const OUT_OF_STEP: &'static str = "GSSAPI exchange out of step";

/// Where the exchange stands.
#[derive(Debug, Clone, Copy, PartialEq, Eq, Structural)]
pub enum GssapiState {
    /// Nothing sent yet; the context's first token is awaited.
    Start,
    /// The first bind request is out; the server's token is awaited.
    TokenSent,
    /// The server's token is with the context.
    Stepping,
    /// The second bind request, without credentials, is out.
    EmptySent,
    /// The security layer message is with the context, to be wrapped.
    Wrapping,
    /// The third bind request, with the wrapped message, is out.
    LayerSent,
    /// The bind is complete.
    Done,
    /// The bind failed.
    Failed,
}

/// What happened since the last action.
#[derive(Debug, PartialEq, Eq)]
pub enum GssapiEvent {
    /// The context was set up and gave its first token.
    Started(Vec<u8>),
    /// The server answered the bind request sent last.
    Response(Message),
    /// The context took the server's token, is complete and has no token
    /// to send.
    StepFinished,
    /// The context took the server's token and is not complete, or has one
    /// more token to send.
    StepUnfinished,
    /// The context wrapped the security layer message.
    Wrapped(Vec<u8>),
    /// The context failed; the text is its message.
    Failed(String),
}

/// What to do next.
#[derive(Debug, PartialEq, Eq)]
pub enum GssapiAction {
    /// Send this bind request and come back with the response.
    Send(Message),
    /// Feed this token of the server to the context.
    Step(Vec<u8>),
    /// Have the context wrap this message, with encryption.
    Wrap(Vec<u8>),
    /// Nothing: the bind is complete.
    Done,
}

/// The security layer message: no security layer (bit mask 1), and a
/// maximum receive size of 0x9FFFB8.
pub open spec fn security_layer_message() -> Seq<u8> {
    seq![0x01u8, 0x9f, 0xff, 0xb8]
}

/// The state after `event` in the state `state`.
pub open spec fn gssapi_next(state: GssapiState, event: GssapiEvent) -> GssapiState {
    match (state, event) {
        (_, GssapiEvent::Failed(_)) => GssapiState::Failed,
        (GssapiState::Start, GssapiEvent::Started(_)) => GssapiState::TokenSent,
        (GssapiState::TokenSent, GssapiEvent::Response(msg)) => match bind_outcome(msg) {
            Ok(resp) => if resp.server_sasl_creds is Some {
                GssapiState::Stepping
            } else {
                GssapiState::Failed
            },
            Err(_) => GssapiState::Failed,
        },
        (GssapiState::Stepping, GssapiEvent::StepFinished) => GssapiState::EmptySent,
        (GssapiState::EmptySent, GssapiEvent::Response(msg)) => match bind_outcome(msg) {
            Ok(resp) => if resp.server_sasl_creds is Some {
                GssapiState::Wrapping
            } else {
                GssapiState::Failed
            },
            Err(_) => GssapiState::Failed,
        },
        (GssapiState::Wrapping, GssapiEvent::Wrapped(_)) => GssapiState::LayerSent,
        (GssapiState::LayerSent, GssapiEvent::Response(msg)) => match bind_outcome(msg) {
            Ok(_) => GssapiState::Done,
            Err(_) => GssapiState::Failed,
        },
        _ => GssapiState::Failed,
    }
}

/// Whether `r` is the action or the error that `event` calls for in the
/// state `state`, a request carrying the id `id`.
pub open spec fn gssapi_answer(
    state: GssapiState,
    event: GssapiEvent,
    id: u32,
    r: Result<GssapiAction, Error>,
) -> bool {
    match (state, event) {
        (_, GssapiEvent::Failed(text)) => r == Err::<GssapiAction, Error>(Error::GssApiError(text)),
        (GssapiState::Start, GssapiEvent::Started(token)) => r matches Ok(GssapiAction::Send(msg))
            && is_sasl_bind(msg, id, SASL_GSSAPI@, Some(token@)),
        (GssapiState::TokenSent, GssapiEvent::Response(msg)) => match bind_outcome(msg) {
            Ok(resp) => match resp.server_sasl_creds {
                Some(token) => r == Ok::<GssapiAction, Error>(GssapiAction::Step(token)),
                None => r == Err::<GssapiAction, Error>(Error::NoSaslCredentials),
            },
            Err(e) => r == Err::<GssapiAction, Error>(e),
        },
        (GssapiState::Stepping, GssapiEvent::StepFinished) => r matches Ok(GssapiAction::Send(msg))
            && is_sasl_bind(msg, id, SASL_GSSAPI@, None),
        (GssapiState::Stepping, GssapiEvent::StepUnfinished) => r matches Err(
            Error::GssApiError(text),
        ) && text@ == NOT_FINISHED@,
        (GssapiState::EmptySent, GssapiEvent::Response(msg)) => match bind_outcome(msg) {
            Ok(resp) => if resp.server_sasl_creds is Some {
                r matches Ok(GssapiAction::Wrap(bytes)) && bytes@ == security_layer_message()
            } else {
                r == Err::<GssapiAction, Error>(Error::NoSaslCredentials)
            },
            Err(e) => r == Err::<GssapiAction, Error>(e),
        },
        (GssapiState::Wrapping, GssapiEvent::Wrapped(wrapped)) => r matches Ok(
            GssapiAction::Send(msg),
        ) && is_sasl_bind(msg, id, SASL_GSSAPI@, Some(wrapped@)),
        (GssapiState::LayerSent, GssapiEvent::Response(msg)) => match bind_outcome(msg) {
            Ok(_) => r == Ok::<GssapiAction, Error>(GssapiAction::Done),
            Err(e) => r == Err::<GssapiAction, Error>(e),
        },
        _ => r matches Err(Error::GssApiError(text)) && text@ == OUT_OF_STEP@,
    }
}

/// Whether `event` in the state `state` makes a request, which takes an id.
pub open spec fn gssapi_sends(state: GssapiState, event: GssapiEvent) -> bool {
    match (state, event) {
        (GssapiState::Start, GssapiEvent::Started(_)) => true,
        (GssapiState::Stepping, GssapiEvent::StepFinished) => true,
        (GssapiState::Wrapping, GssapiEvent::Wrapped(_)) => true,
        _ => false,
    }
}

/// The service principal name of the LDAP server of a realm: `ldap/` and
/// the realm.
pub fn service_principal(realm: &str) -> (spn: String)
    ensures
        spn@ == SERVICE_PREFIX@ + realm@,
{
    let mut spn = SERVICE_PREFIX.to_owned();
    spn.append(realm);
    spn
}

impl LdapClient {
    /// One step of a SASL GSSAPI bind (Kerberos): takes what happened and
    /// says what to do next.
    ///
    /// The context's first token goes out in a first bind request. The
    /// server's token is fed to the context, which must then be complete
    /// with nothing more to send. A second bind request goes out without
    /// credentials; the server's answer must carry credentials. The
    /// security layer message is wrapped by the context and goes out in a
    /// third bind request, whose answer completes the bind. Each answer is
    /// read as [`LdapClient::do_bind`] reads it. A response without the
    /// server's credentials is `NoSaslCredentials`; a failure of the
    /// context, or an event out of order, is `GssApiError`.
    pub fn sasl_gssapi_bind(&mut self, state: &mut GssapiState, event: GssapiEvent) -> (r: Result<
        GssapiAction,
        Error,
    >)
        ensures
            *final(state) == gssapi_next(*old(state), event),
            gssapi_answer(*old(state), event, old(self).next_id(), r),
            final(self).next_id() == if gssapi_sends(*old(state), event) {
                next_after(old(self).next_id())
            } else {
                old(self).next_id()
            },
    {
        let now = *state;
        *state = GssapiState::Failed;
        match event {
            GssapiEvent::Failed(text) => Err(Error::GssApiError(text)),
            GssapiEvent::Started(token) => match now {
                GssapiState::Start => {
                    *state = GssapiState::TokenSent;
                    Ok(GssapiAction::Send(self.sasl_bind(SASL_GSSAPI, Some(token.as_slice()))))
                },
                _ => Err(Error::GssApiError(OUT_OF_STEP.to_owned())),
            },
            GssapiEvent::Response(msg) => match now {
                GssapiState::TokenSent => {
                    let response = match Self::do_bind(msg) {
                        Ok(response) => response,
                        Err(e) => {
                            return Err(e);
                        },
                    };
                    match response.server_sasl_creds {
                        Some(token) => {
                            *state = GssapiState::Stepping;
                            Ok(GssapiAction::Step(token))
                        },
                        None => Err(Error::NoSaslCredentials),
                    }
                },
                GssapiState::EmptySent => {
                    let response = match Self::do_bind(msg) {
                        Ok(response) => response,
                        Err(e) => {
                            return Err(e);
                        },
                    };
                    if response.server_sasl_creds.is_none() {
                        return Err(Error::NoSaslCredentials);
                    }
                    *state = GssapiState::Wrapping;
                    let mut size_msg: Vec<u8> = Vec::new();
                    size_msg.push(0x01);
                    size_msg.push(0x9f);
                    size_msg.push(0xff);
                    size_msg.push(0xb8);
                    assert(size_msg@ =~= security_layer_message());
                    Ok(GssapiAction::Wrap(size_msg))
                },
                GssapiState::LayerSent => {
                    match Self::do_bind(msg) {
                        Ok(_) => {},
                        Err(e) => {
                            return Err(e);
                        },
                    }
                    *state = GssapiState::Done;
                    Ok(GssapiAction::Done)
                },
                _ => Err(Error::GssApiError(OUT_OF_STEP.to_owned())),
            },
            GssapiEvent::StepFinished => match now {
                GssapiState::Stepping => {
                    *state = GssapiState::EmptySent;
                    Ok(GssapiAction::Send(self.sasl_bind(SASL_GSSAPI, None)))
                },
                _ => Err(Error::GssApiError(OUT_OF_STEP.to_owned())),
            },
            GssapiEvent::StepUnfinished => match now {
                GssapiState::Stepping => Err(Error::GssApiError(NOT_FINISHED.to_owned())),
                _ => Err(Error::GssApiError(OUT_OF_STEP.to_owned())),
            },
            GssapiEvent::Wrapped(wrapped) => match now {
                GssapiState::Wrapping => {
                    *state = GssapiState::LayerSent;
                    Ok(GssapiAction::Send(self.sasl_bind(SASL_GSSAPI, Some(wrapped.as_slice()))))
                },
                _ => Err(Error::GssApiError(OUT_OF_STEP.to_owned())),
            },
        }
    }
}

} // verus!
