use ldap_rs::channel::{
    ChannelError, LdapChannel, StartTlsReply, Transport, CONNECT_TIMEOUT, STARTTLS_TIMEOUT,
};
use ldap_rs::model::{ExtendedRequest, ExtendedResponse, LdapResult, Message, ProtocolOp, ResultCode};
use ldap_rs::{TlsKind, TlsOptions};

fn extended_response(code: ResultCode) -> ProtocolOp {
    ProtocolOp::ExtendedResp(ExtendedResponse {
        result_code: code,
        matched_dn: String::new(),
        diagnostic_message: String::new(),
        referral: None,
        response_name: None,
        response_value: None,
    })
}

#[test]
fn for_client_keeps_address_and_port() {
    let ch = LdapChannel::for_client("127.0.0.1", 22561);
    assert_eq!(ch.address, "127.0.0.1");
    assert_eq!(ch.port, 22561);
}

#[test]
fn timeouts_are_fixed() {
    assert_eq!(CONNECT_TIMEOUT, 10);
    assert_eq!(STARTTLS_TIMEOUT, 30);
}

#[test]
fn options_select_the_transport() {
    assert_eq!(TlsOptions::plain().kind, TlsKind::Plain);
    assert_eq!(TlsOptions::tls().kind, TlsKind::Tls);
    assert_eq!(TlsOptions::start_tls().kind, TlsKind::StartTls);
    assert_eq!(TlsOptions::default(), TlsOptions::plain());
    assert_eq!(TlsKind::default(), TlsKind::Plain);
    assert_eq!(TlsOptions::tls().domain_name, None);
    let named = TlsOptions::start_tls().domain_name("ldap.example.com");
    assert_eq!(named.kind, TlsKind::StartTls);
    assert_eq!(named.domain_name, Some("ldap.example.com".to_owned()));
}

#[test]
fn plain_connection_needs_no_handshake() {
    let ch = LdapChannel::for_client("host", 389);
    assert_eq!(ch.connect(&TlsOptions::plain()), Transport::Plain);
}

#[test]
fn tls_uses_the_host_name_unless_overridden() {
    let ch = LdapChannel::for_client("ldap.local", 636);
    assert_eq!(ch.connect(&TlsOptions::tls()), Transport::Tls { domain: "ldap.local".to_owned() });
    assert_eq!(
        ch.connect(&TlsOptions::tls().domain_name("other.example")),
        Transport::Tls { domain: "other.example".to_owned() }
    );
    assert_eq!(ch.tls_domain(&TlsOptions::plain()), "ldap.local");
}

#[test]
fn starttls_sends_the_extended_request_with_id_1() {
    let expected = Message {
        message_id: 1,
        protocol_op: ProtocolOp::ExtendedReq(ExtendedRequest {
            request_name: b"1.3.6.1.4.1.1466.20037".to_vec(),
            request_value: None,
        }),
        controls: None,
    };
    assert_eq!(LdapChannel::starttls_request(), expected);
    let ch = LdapChannel::for_client("ldap.local", 389);
    assert_eq!(
        ch.connect(&TlsOptions::start_tls()),
        Transport::StartTls { request: expected, domain: "ldap.local".to_owned() }
    );
}

#[test]
fn starttls_goes_on_after_success_for_message_1() {
    let reply = StartTlsReply::Reply(Message::new(1, extended_response(ResultCode::Success)));
    assert_eq!(LdapChannel::starttls_connect(reply), Ok(()));
}

#[test]
fn starttls_fails_when_the_server_refuses() {
    for code in [ResultCode::ProtocolError, ResultCode::Unavailable, ResultCode::SaslBindInProgress] {
        let reply = StartTlsReply::Reply(Message::new(1, extended_response(code)));
        assert_eq!(LdapChannel::starttls_connect(reply), Err(ChannelError::StartTlsFailed));
    }
}

#[test]
fn starttls_fails_on_any_other_reply() {
    let wrong_id = StartTlsReply::Reply(Message::new(2, extended_response(ResultCode::Success)));
    let wrong_op = StartTlsReply::Reply(Message::new(
        1,
        ProtocolOp::SearchResDone(LdapResult::new(ResultCode::Success, String::new(), String::new())),
    ));
    for reply in [
        wrong_id,
        wrong_op,
        StartTlsReply::SendFailed,
        StartTlsReply::Corrupt,
        StartTlsReply::Closed,
        StartTlsReply::TimedOut,
    ] {
        assert_eq!(LdapChannel::starttls_connect(reply), Err(ChannelError::StartTlsFailed));
    }
}
