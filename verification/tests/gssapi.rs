use ldap_rs::error::{Error, OperationError};
use ldap_rs::gssapi::{service_principal, GssapiAction, GssapiEvent, GssapiState};
use ldap_rs::model::{
    AuthenticationChoice, BindRequest, BindResponse, Message, ProtocolOp, ResultCode, SaslCredentials,
};
use ldap_rs::LdapClient;

fn reply(code: ResultCode, creds: Option<&[u8]>) -> GssapiEvent {
    GssapiEvent::Response(Message::new(
        0,
        ProtocolOp::BindResponse(BindResponse {
            result_code: code,
            matched_dn: String::new(),
            diagnostic_message: String::new(),
            referral: None,
            server_sasl_creds: creds.map(|c| c.to_vec()),
        }),
    ))
}

fn gssapi_request(id: u32, creds: Option<&[u8]>) -> GssapiAction {
    GssapiAction::Send(Message::new(
        id,
        ProtocolOp::BindRequest(BindRequest {
            version: 3,
            name: String::new(),
            authentication: AuthenticationChoice::Sasl(SaslCredentials {
                mechanism: "GSSAPI".to_owned(),
                credentials: creds.map(|c| c.to_vec()),
            }),
        }),
    ))
}

#[test]
fn service_principal_is_ldap_slash_realm() {
    assert_eq!(service_principal("dc.intranet.lan"), "ldap/dc.intranet.lan");
    assert_eq!(service_principal(""), "ldap/");
}

#[test]
fn gssapi_bind_runs_in_three_requests() {
    let mut client = LdapClient::new();
    let mut state = GssapiState::Start;
    assert_eq!(
        client.sasl_gssapi_bind(&mut state, GssapiEvent::Started(b"tok1".to_vec())),
        Ok(gssapi_request(2, Some(b"tok1")))
    );
    assert_eq!(state, GssapiState::TokenSent);
    assert_eq!(
        client.sasl_gssapi_bind(&mut state, reply(ResultCode::SaslBindInProgress, Some(b"srv"))),
        Ok(GssapiAction::Step(b"srv".to_vec()))
    );
    assert_eq!(state, GssapiState::Stepping);
    assert_eq!(
        client.sasl_gssapi_bind(&mut state, GssapiEvent::StepFinished),
        Ok(gssapi_request(3, None))
    );
    assert_eq!(state, GssapiState::EmptySent);
    assert_eq!(
        client.sasl_gssapi_bind(&mut state, reply(ResultCode::SaslBindInProgress, Some(b"layers"))),
        Ok(GssapiAction::Wrap(vec![0x01, 0x9f, 0xff, 0xb8]))
    );
    assert_eq!(state, GssapiState::Wrapping);
    assert_eq!(
        client.sasl_gssapi_bind(&mut state, GssapiEvent::Wrapped(b"wrapped".to_vec())),
        Ok(gssapi_request(4, Some(b"wrapped")))
    );
    assert_eq!(state, GssapiState::LayerSent);
    assert_eq!(
        client.sasl_gssapi_bind(&mut state, reply(ResultCode::Success, None)),
        Ok(GssapiAction::Done)
    );
    assert_eq!(state, GssapiState::Done);
    assert_eq!(client.new_id(), 5);
}

#[test]
fn security_layer_message_is_the_size_with_layer_1() {
    let expected = (0x9FFFB8u32 | (1u32 << 24)).to_be_bytes().to_vec();
    let mut client = LdapClient::new();
    let mut state = GssapiState::EmptySent;
    assert_eq!(
        client.sasl_gssapi_bind(&mut state, reply(ResultCode::Success, Some(b""))),
        Ok(GssapiAction::Wrap(expected))
    );
}

#[test]
fn gssapi_bind_needs_the_server_credentials() {
    let mut client = LdapClient::new();
    for start in [GssapiState::TokenSent, GssapiState::EmptySent] {
        let mut state = start;
        assert_eq!(
            client.sasl_gssapi_bind(&mut state, reply(ResultCode::SaslBindInProgress, None)),
            Err(Error::NoSaslCredentials)
        );
        assert_eq!(state, GssapiState::Failed);
    }
}

#[test]
fn gssapi_bind_fails_with_the_server() {
    let mut client = LdapClient::new();
    for start in [GssapiState::TokenSent, GssapiState::EmptySent, GssapiState::LayerSent] {
        let mut state = start;
        assert_eq!(
            client.sasl_gssapi_bind(&mut state, reply(ResultCode::InvalidCredentials, Some(b"x"))),
            Err(Error::OperationFailed(OperationError {
                result_code: ResultCode::InvalidCredentials,
                matched_dn: String::new(),
                diagnostic_message: String::new(),
            }))
        );
        assert_eq!(state, GssapiState::Failed);
        let mut state = start;
        assert_eq!(
            client.sasl_gssapi_bind(
                &mut state,
                GssapiEvent::Response(Message::new(0, ProtocolOp::UnbindRequest))
            ),
            Err(Error::InvalidResponse)
        );
    }
}

#[test]
fn gssapi_context_failures() {
    let mut client = LdapClient::new();
    let mut state = GssapiState::Stepping;
    assert_eq!(
        client.sasl_gssapi_bind(&mut state, GssapiEvent::StepUnfinished),
        Err(Error::GssApiError("GSSAPI exchange not finished or has an additional token".to_owned()))
    );
    assert_eq!(state, GssapiState::Failed);
    let mut state = GssapiState::Start;
    assert_eq!(
        client.sasl_gssapi_bind(&mut state, GssapiEvent::Failed("no ticket".to_owned())),
        Err(Error::GssApiError("no ticket".to_owned()))
    );
    assert_eq!(state, GssapiState::Failed);
    // no id was taken
    assert_eq!(client.new_id(), 2);
}

#[test]
fn gssapi_events_out_of_order_fail() {
    let mut client = LdapClient::new();
    let cases = vec![
        (GssapiState::Start, GssapiEvent::StepFinished),
        (GssapiState::Start, reply(ResultCode::Success, Some(b"x"))),
        (GssapiState::TokenSent, GssapiEvent::Started(vec![])),
        (GssapiState::Stepping, GssapiEvent::Wrapped(vec![])),
        (GssapiState::Wrapping, GssapiEvent::StepUnfinished),
        (GssapiState::Done, GssapiEvent::StepFinished),
        (GssapiState::Failed, GssapiEvent::Started(vec![])),
    ];
    for (start, event) in cases {
        let mut state = start;
        assert_eq!(
            client.sasl_gssapi_bind(&mut state, event),
            Err(Error::GssApiError("GSSAPI exchange out of step".to_owned()))
        );
        assert_eq!(state, GssapiState::Failed);
    }
    assert_eq!(client.new_id(), 2);
}
