use ldap_rs::channel::{LdapChannel, Transport};
use ldap_rs::client::check_result;
use ldap_rs::controls::{encode_paged_value, SimplePagedResultsControl};
use ldap_rs::error::{Error, OperationError};
use ldap_rs::model::{
    AddRequest, Attribute, AuthenticationChoice, BindRequest, BindResponse, Control, ExtendedRequest,
    ExtendedResponse, LdapResult, Message, ProtocolOp, ResultCode, SaslCredentials, SearchEntry,
};
use ldap_rs::{LdapClient, ModifyRequest, SearchRequest, SearchStep, TlsOptions};

fn result(code: ResultCode) -> LdapResult {
    LdapResult::new(code, "dc=matched".to_owned(), "diagnostic".to_owned())
}

fn failed(code: ResultCode) -> Error {
    Error::OperationFailed(OperationError {
        result_code: code,
        matched_dn: "dc=matched".to_owned(),
        diagnostic_message: "diagnostic".to_owned(),
    })
}

fn bind_response(code: ResultCode, creds: Option<Vec<u8>>) -> BindResponse {
    BindResponse {
        result_code: code,
        matched_dn: "dc=matched".to_owned(),
        diagnostic_message: "diagnostic".to_owned(),
        referral: None,
        server_sasl_creds: creds,
    }
}

fn entry(dn: &str) -> SearchEntry {
    SearchEntry {
        dn: dn.to_owned(),
        attributes: vec![Attribute { name: "objectClass".to_owned(), values: vec![b"top".to_vec()] }],
    }
}

fn entry_msg(id: u32, dn: &str) -> Message {
    Message::new(id, ProtocolOp::SearchResEntry(entry(dn)))
}

fn done_msg(id: u32, code: ResultCode) -> Message {
    Message::new(id, ProtocolOp::SearchResDone(result(code)))
}

fn reference_msg(id: u32) -> Message {
    Message::new(id, ProtocolOp::SearchResRef(vec!["ldap://other/dc=x".to_owned()]))
}

#[test]
fn builder_defaults_to_port_389_and_plain() {
    let b = LdapClient::builder("ldap.local");
    assert_eq!(b.address, "ldap.local");
    assert_eq!(b.port, 389);
    assert_eq!(b.tls_options, TlsOptions::plain());
    let b = b.port(636).tls_options(TlsOptions::tls());
    assert_eq!(b.port, 636);
    let (channel, transport) = b.connect();
    assert_eq!(channel, LdapChannel::for_client("ldap.local", 636));
    assert_eq!(transport, Transport::Tls { domain: "ldap.local".to_owned() });
}

#[test]
fn ids_start_at_2_and_rise_by_one() {
    let mut client = LdapClient::new();
    assert_eq!(client.new_id(), 2);
    assert_eq!(client.new_id(), 3);
    assert_eq!(client.unbind().message_id, 4);
    assert_eq!(client.whoami().message_id, 5);
    assert_eq!(client.simple_bind("", "").message_id, 6);
    assert_eq!(client.delete("cn=x").message_id, 7);
    let (msg, _) = client.search(SearchRequest::root_dse());
    assert_eq!(msg.message_id, 8);
    // making the page sequence takes no id; each page does
    let mut pages = client.search_paged(SearchRequest::root_dse(), 4);
    assert_eq!(client.new_id(), 9);
    let (page, _) = pages.poll_next(&mut client).unwrap();
    assert_eq!(page.message_id, 10);
}

#[test]
fn check_result_classifies_codes() {
    assert_eq!(check_result(result(ResultCode::Success)), Ok(()));
    assert_eq!(check_result(result(ResultCode::SaslBindInProgress)), Ok(()));
    assert_eq!(check_result(result(ResultCode::InvalidCredentials)), Err(failed(ResultCode::InvalidCredentials)));
    assert_eq!(check_result(result(ResultCode::Other)), Err(failed(ResultCode::Other)));
    assert_eq!(check_result(result(ResultCode::CompareTrue)), Err(failed(ResultCode::CompareTrue)));
}

#[test]
fn simple_bind_request_is_version_3_with_name_and_password() {
    let mut client = LdapClient::new();
    let msg = client.simple_bind("cn=read-only-admin,dc=example,dc=com", "password");
    assert_eq!(
        msg,
        Message {
            message_id: 2,
            protocol_op: ProtocolOp::BindRequest(BindRequest {
                version: 3,
                name: "cn=read-only-admin,dc=example,dc=com".to_owned(),
                authentication: AuthenticationChoice::Simple(b"password".to_vec()),
            }),
            controls: None,
        }
    );
}

#[test]
fn sasl_bind_requests() {
    let mut client = LdapClient::new();
    let external = client.sasl_external_bind();
    assert_eq!(
        external,
        Message {
            message_id: 2,
            protocol_op: ProtocolOp::BindRequest(BindRequest {
                version: 3,
                name: String::new(),
                authentication: AuthenticationChoice::Sasl(SaslCredentials {
                    mechanism: "EXTERNAL".to_owned(),
                    credentials: None,
                }),
            }),
            controls: None,
        }
    );
    let custom = client.sasl_bind("PLAIN", Some(b"\0user\0pw"));
    assert_eq!(
        custom.protocol_op,
        ProtocolOp::BindRequest(LdapClient::new_sasl_bind_req("PLAIN", Some(b"\0user\0pw")))
    );
    assert_eq!(
        LdapClient::new_sasl_bind_req("PLAIN", Some(b"\0user\0pw")).authentication,
        AuthenticationChoice::Sasl(SaslCredentials {
            mechanism: "PLAIN".to_owned(),
            credentials: Some(b"\0user\0pw".to_vec()),
        })
    );
}

#[test]
fn bind_outcomes() {
    let ok = bind_response(ResultCode::Success, None);
    assert_eq!(LdapClient::do_bind(Message::new(2, ProtocolOp::BindResponse(ok.clone()))), Ok(ok));
    let going = bind_response(ResultCode::SaslBindInProgress, Some(b"token".to_vec()));
    assert_eq!(LdapClient::do_bind(Message::new(2, ProtocolOp::BindResponse(going.clone()))), Ok(going));
    let bad = bind_response(ResultCode::InvalidCredentials, None);
    assert_eq!(
        LdapClient::do_bind(Message::new(2, ProtocolOp::BindResponse(bad))),
        Err(failed(ResultCode::InvalidCredentials))
    );
    assert_eq!(LdapClient::do_bind(done_msg(2, ResultCode::Success)), Err(Error::InvalidResponse));
}

#[test]
fn unbind_request() {
    let mut client = LdapClient::new();
    assert_eq!(
        client.unbind(),
        Message { message_id: 2, protocol_op: ProtocolOp::UnbindRequest, controls: None }
    );
}

fn whoami_reply(code: ResultCode, value: Option<&[u8]>) -> Message {
    Message::new(
        3,
        ProtocolOp::ExtendedResp(ExtendedResponse {
            result_code: code,
            matched_dn: "dc=matched".to_owned(),
            diagnostic_message: "diagnostic".to_owned(),
            referral: None,
            response_name: None,
            response_value: value.map(|v| v.to_vec()),
        }),
    )
}

#[test]
fn whoami_request_and_answers() {
    let mut client = LdapClient::new();
    assert_eq!(
        client.whoami(),
        Message {
            message_id: 2,
            protocol_op: ProtocolOp::ExtendedReq(ExtendedRequest {
                request_name: b"1.3.6.1.4.1.4203.1.11.3".to_vec(),
                request_value: None,
            }),
            controls: None,
        }
    );
    assert_eq!(
        LdapClient::whoami_response(whoami_reply(
            ResultCode::Success,
            Some(b"dn:cn=read-only-admin,dc=example,dc=com")
        )),
        Ok(Some("dn:cn=read-only-admin,dc=example,dc=com".to_owned()))
    );
    assert_eq!(LdapClient::whoami_response(whoami_reply(ResultCode::Success, None)), Ok(None));
    // bytes that are no UTF-8 come out with the replacement character
    assert_eq!(
        LdapClient::whoami_response(whoami_reply(ResultCode::Success, Some(b"u:\xff!"))),
        Ok(Some("u:\u{fffd}!".to_owned()))
    );
    assert_eq!(
        LdapClient::whoami_response(whoami_reply(ResultCode::InsufficientAccessRights, Some(b"x"))),
        Err(failed(ResultCode::InsufficientAccessRights))
    );
    assert_eq!(LdapClient::whoami_response(done_msg(3, ResultCode::Success)), Err(Error::InvalidResponse));
}

#[test]
fn modify_add_delete_requests_and_answers() {
    let mut client = LdapClient::new();
    let request = ModifyRequest::builder("cn=x").build();
    assert_eq!(
        client.modify(request.clone()),
        Message { message_id: 2, protocol_op: ProtocolOp::ModifyRequest(request), controls: None }
    );
    let attrs = vec![Attribute { name: "cn".to_owned(), values: vec![b"x".to_vec()] }];
    assert_eq!(
        client.add("cn=x,dc=example", attrs.clone()),
        Message {
            message_id: 3,
            protocol_op: ProtocolOp::AddRequest(AddRequest {
                entry: "cn=x,dc=example".to_owned(),
                attributes: attrs
            }),
            controls: None,
        }
    );
    assert_eq!(
        client.delete("cn=x,dc=example"),
        Message {
            message_id: 4,
            protocol_op: ProtocolOp::DelRequest("cn=x,dc=example".to_owned()),
            controls: None
        }
    );

    let ok = result(ResultCode::Success);
    let bad = result(ResultCode::NoSuchObject);
    assert_eq!(LdapClient::modify_response(Message::new(2, ProtocolOp::ModifyResponse(ok.clone()))), Ok(()));
    assert_eq!(
        LdapClient::modify_response(Message::new(2, ProtocolOp::ModifyResponse(bad.clone()))),
        Err(failed(ResultCode::NoSuchObject))
    );
    assert_eq!(
        LdapClient::modify_response(Message::new(2, ProtocolOp::AddResponse(ok.clone()))),
        Err(Error::InvalidResponse)
    );
    assert_eq!(LdapClient::add_response(Message::new(3, ProtocolOp::AddResponse(ok.clone()))), Ok(()));
    assert_eq!(
        LdapClient::add_response(Message::new(3, ProtocolOp::AddResponse(bad.clone()))),
        Err(failed(ResultCode::NoSuchObject))
    );
    assert_eq!(
        LdapClient::add_response(Message::new(3, ProtocolOp::DelResponse(ok.clone()))),
        Err(Error::InvalidResponse)
    );
    assert_eq!(LdapClient::delete_response(Message::new(4, ProtocolOp::DelResponse(ok.clone()))), Ok(()));
    assert_eq!(
        LdapClient::delete_response(Message::new(4, ProtocolOp::DelResponse(bad))),
        Err(failed(ResultCode::NoSuchObject))
    );
    assert_eq!(
        LdapClient::delete_response(Message::new(4, ProtocolOp::ModifyResponse(ok))),
        Err(Error::InvalidResponse)
    );
}

#[test]
fn search_stream_steps() {
    let mut client = LdapClient::new();
    let request = SearchRequest::root_dse();
    let (msg, mut entries) = client.search(request.clone());
    assert_eq!(
        msg,
        Message { message_id: 2, protocol_op: ProtocolOp::SearchRequest(request), controls: None }
    );
    assert_eq!(entries.poll_next(Some(entry_msg(2, "cn=a"))), SearchStep::Item(Ok(entry("cn=a"))));
    assert_eq!(entries.poll_next(Some(reference_msg(2))), SearchStep::Skip);
    assert_eq!(entries.poll_next(Some(entry_msg(2, "cn=b"))), SearchStep::Item(Ok(entry("cn=b"))));
    assert_eq!(entries.poll_next(Some(done_msg(2, ResultCode::Success))), SearchStep::End);
    // over stays over
    assert_eq!(entries.poll_next(Some(entry_msg(2, "cn=c"))), SearchStep::End);
    assert_eq!(entries.poll_next(None), SearchStep::End);
}

#[test]
fn search_stream_errors_end_the_stream() {
    let mut client = LdapClient::new();
    let (_, mut entries) = client.search(SearchRequest::root_dse());
    assert_eq!(
        entries.poll_next(Some(done_msg(2, ResultCode::SizeLimitExceeded))),
        SearchStep::Item(Err(failed(ResultCode::SizeLimitExceeded)))
    );
    assert_eq!(entries.poll_next(Some(entry_msg(2, "cn=c"))), SearchStep::End);

    let (_, mut entries) = client.search(SearchRequest::root_dse());
    // in a search, "SASL bind in progress" is no success
    assert_eq!(
        entries.poll_next(Some(done_msg(3, ResultCode::SaslBindInProgress))),
        SearchStep::Item(Err(failed(ResultCode::SaslBindInProgress)))
    );

    let (_, mut entries) = client.search(SearchRequest::root_dse());
    assert_eq!(
        entries.poll_next(Some(Message::new(4, ProtocolOp::UnbindRequest))),
        SearchStep::Item(Err(Error::InvalidResponse))
    );
    assert_eq!(entries.poll_next(None), SearchStep::End);

    let (_, mut entries) = client.search(SearchRequest::root_dse());
    assert_eq!(entries.poll_next(None), SearchStep::Item(Err(Error::ConnectionClosed)));
    assert_eq!(entries.poll_next(None), SearchStep::End);
}

#[test]
fn try_collect_gathers_entries_until_done() {
    let mut client = LdapClient::new();
    let (_, mut entries) = client.search(SearchRequest::root_dse());
    let inbound = vec![
        entry_msg(2, "cn=a"),
        reference_msg(2),
        entry_msg(2, "cn=b"),
        done_msg(2, ResultCode::Success),
        entry_msg(2, "cn=late"),
    ];
    assert_eq!(entries.try_collect(inbound), Ok(vec![entry("cn=a"), entry("cn=b")]));

    let (_, mut entries) = client.search(SearchRequest::root_dse());
    assert_eq!(
        entries.try_collect(vec![entry_msg(3, "cn=a")]),
        Err(Error::ConnectionClosed)
    );
    let (_, mut entries) = client.search(SearchRequest::root_dse());
    assert_eq!(entries.try_collect(vec![]), Err(Error::ConnectionClosed));
    let (_, mut entries) = client.search(SearchRequest::root_dse());
    assert_eq!(
        entries.try_collect(vec![entry_msg(4, "cn=a"), done_msg(4, ResultCode::Busy)]),
        Err(failed(ResultCode::Busy))
    );
}

#[test]
fn search_one_gives_first_entry_or_none() {
    let mut client = LdapClient::new();
    let (_, mut entries) = client.search(SearchRequest::root_dse());
    let inbound = vec![entry_msg(2, "cn=a"), entry_msg(2, "cn=b"), done_msg(2, ResultCode::Success)];
    assert_eq!(LdapClient::search_one(&mut entries, inbound), Ok(Some(entry("cn=a"))));

    let (_, mut entries) = client.search(SearchRequest::root_dse());
    assert_eq!(LdapClient::search_one(&mut entries, vec![done_msg(3, ResultCode::Success)]), Ok(None));

    let (_, mut entries) = client.search(SearchRequest::root_dse());
    assert_eq!(
        LdapClient::search_one(&mut entries, vec![entry_msg(4, "cn=a"), done_msg(4, ResultCode::Other)]),
        Err(failed(ResultCode::Other))
    );
}

fn paged_done(id: u32, size: u32, cookie: &[u8]) -> Message {
    Message {
        message_id: id,
        protocol_op: ProtocolOp::SearchResDone(result(ResultCode::Success)),
        controls: Some(vec![
            Control::new(b"2.16.840.1.113730.3.4.2".to_vec(), false, None),
            Control::new(
                b"1.2.840.113556.1.4.319".to_vec(),
                false,
                Some(encode_paged_value(size, &cookie.to_vec())),
            ),
        ]),
    }
}

#[test]
fn paged_search_threads_the_cookie() {
    let mut client = LdapClient::new();
    let request = SearchRequest::builder().base_dn("dc=example").filter("(cn=*)").build().unwrap();
    let mut pages = client.search_paged(request.clone(), 2);
    assert!(pages.is_page_finished());

    let (first, mut entries) = pages.poll_next(&mut client).unwrap();
    assert_eq!(first.message_id, 2);
    assert_eq!(first.protocol_op, ProtocolOp::SearchRequest(request.clone()));
    assert_eq!(
        first.controls,
        Some(vec![Control::try_from(SimplePagedResultsControl::new(2)).unwrap()])
    );
    assert!(!pages.is_page_finished());
    // the page before is not drained: nothing more
    assert_eq!(pages.poll_next(&mut client), None);

    assert_eq!(entries.poll_next(Some(entry_msg(2, "cn=a"))), SearchStep::Item(Ok(entry("cn=a"))));
    assert_eq!(entries.poll_next(Some(paged_done(2, 0, b"more"))), SearchStep::End);
    pages.page_done(entries);
    assert!(pages.is_page_finished());

    let (second, mut entries) = pages.poll_next(&mut client).unwrap();
    assert_eq!(second.message_id, 3);
    assert_eq!(
        second.controls,
        Some(vec![Control::new(
            b"1.2.840.113556.1.4.319".to_vec(),
            false,
            Some(encode_paged_value(2, &b"more".to_vec()))
        )])
    );
    assert_eq!(entries.poll_next(Some(paged_done(3, 0, b""))), SearchStep::End);
    pages.page_done(entries);
    // the cookie came back empty: the sequence of pages is over
    assert_eq!(pages.poll_next(&mut client), None);
    assert_eq!(client.new_id(), 4);
}

#[test]
fn paged_search_needs_the_control_in_done() {
    let mut client = LdapClient::new();
    let mut pages = client.search_paged(SearchRequest::root_dse(), 2);
    let (_, mut entries) = pages.poll_next(&mut client).unwrap();
    assert_eq!(
        entries.poll_next(Some(done_msg(2, ResultCode::Success))),
        SearchStep::Item(Err(Error::InvalidResponse))
    );
    assert_eq!(entries.poll_next(None), SearchStep::End);
    // the operation is over: no further page is asked for, no id is taken
    pages.page_done(entries);
    assert!(pages.is_page_finished());
    assert_eq!(pages.poll_next(&mut client), None);
    assert_eq!(pages.poll_next(&mut client), None);
    assert_eq!(client.new_id(), 3);

    let mut pages = client.search_paged(SearchRequest::root_dse(), 2);
    let (_, mut entries) = pages.poll_next(&mut client).unwrap();
    let unreadable = Message {
        message_id: 4,
        protocol_op: ProtocolOp::SearchResDone(result(ResultCode::Success)),
        controls: Some(vec![Control::new(b"1.2.840.113556.1.4.319".to_vec(), false, Some(vec![1, 2, 3]))]),
    };
    assert_eq!(entries.poll_next(Some(unreadable)), SearchStep::Item(Err(Error::InvalidResponse)));
    pages.page_done(entries);
    assert_eq!(pages.poll_next(&mut client), None);
    assert_eq!(client.new_id(), 5);
}

#[test]
fn paged_search_error_ends_page_and_pages() {
    let mut client = LdapClient::new();
    let mut pages = client.search_paged(SearchRequest::root_dse(), 2);
    let (_, mut entries) = pages.poll_next(&mut client).unwrap();
    assert_eq!(
        entries.poll_next(Some(done_msg(2, ResultCode::UnwillingToPerform))),
        SearchStep::Item(Err(failed(ResultCode::UnwillingToPerform)))
    );
    assert_eq!(entries.poll_next(None), SearchStep::End);
    // the page is over, and so is the sequence of pages
    pages.page_done(entries);
    assert!(pages.is_page_finished());
    assert_eq!(pages.poll_next(&mut client), None);
    assert_eq!(pages.poll_next(&mut client), None);
    assert_eq!(client.new_id(), 3);
}

#[test]
fn paged_search_error_on_a_later_page_ends_the_pages() {
    let mut client = LdapClient::new();
    let mut pages = client.search_paged(SearchRequest::root_dse(), 1);
    let (_, mut entries) = pages.poll_next(&mut client).unwrap();
    assert_eq!(entries.poll_next(Some(entry_msg(2, "cn=a"))), SearchStep::Item(Ok(entry("cn=a"))));
    assert_eq!(entries.poll_next(Some(paged_done(2, 0, b"more"))), SearchStep::End);
    pages.page_done(entries);
    let (second, mut entries) = pages.poll_next(&mut client).unwrap();
    assert_eq!(second.message_id, 3);
    assert_eq!(
        entries.poll_next(Some(done_msg(3, ResultCode::TimeLimitExceeded))),
        SearchStep::Item(Err(failed(ResultCode::TimeLimitExceeded)))
    );
    pages.page_done(entries);
    assert_eq!(pages.poll_next(&mut client), None);
    assert_eq!(client.new_id(), 4);
}

fn serve_page(dataset: &[SearchEntry], request: &Message) -> Vec<Message> {
    let control = request.controls.as_ref().unwrap()[0].clone();
    let state = SimplePagedResultsControl::try_from(control).unwrap();
    let offset = if state.cookie().is_empty() {
        0
    } else {
        String::from_utf8(state.cookie().clone()).unwrap().parse::<usize>().unwrap()
    };
    let end = (offset + state.size() as usize).min(dataset.len());
    let mut out: Vec<Message> = dataset[offset..end]
        .iter()
        .map(|e| Message::new(request.message_id, ProtocolOp::SearchResEntry(e.clone())))
        .collect();
    let cookie = if end < dataset.len() { end.to_string().into_bytes() } else { vec![] };
    out.push(paged_done(request.message_id, dataset.len() as u32, &cookie));
    out
}

fn run_paged(dataset: &[SearchEntry], page_size: u32) -> (Vec<Vec<SearchEntry>>, Vec<u8>) {
    let mut client = LdapClient::new();
    let mut pages = client.search_paged(SearchRequest::root_dse(), page_size);
    let mut got = vec![];
    let mut last_cookie = vec![0xff];
    while let Some((request, mut entries)) = pages.poll_next(&mut client) {
        let inbound = serve_page(dataset, &request);
        let last = inbound.last().unwrap().controls.as_ref().unwrap()[1].clone();
        last_cookie = SimplePagedResultsControl::try_from(last).unwrap().cookie().clone();
        got.push(entries.try_collect(inbound).unwrap());
        pages.page_done(entries);
    }
    (got, last_cookie)
}

#[test]
fn paged_search_with_page_size_1_gives_n_pages_of_one_entry() {
    let dataset: Vec<SearchEntry> = (0..5).map(|i| entry(&format!("cn={},dc=example", i))).collect();
    let (pages, last_cookie) = run_paged(&dataset, 1);
    assert_eq!(pages.len(), 5);
    for (i, page) in pages.iter().enumerate() {
        assert_eq!(page, &vec![dataset[i].clone()]);
    }
    assert!(last_cookie.is_empty());
}

#[test]
fn paged_search_gives_what_one_search_gives() {
    let dataset: Vec<SearchEntry> = (0..7).map(|i| entry(&format!("cn={},dc=example", i))).collect();
    let mut client = LdapClient::new();
    let (request, mut entries) = client.search(SearchRequest::root_dse());
    let mut inbound: Vec<Message> = dataset
        .iter()
        .map(|e| Message::new(request.message_id, ProtocolOp::SearchResEntry(e.clone())))
        .collect();
    inbound.push(done_msg(request.message_id, ResultCode::Success));
    let unpaged = entries.try_collect(inbound).unwrap();
    assert_eq!(unpaged, dataset);
    for page_size in [1u32, 2, 3, 7, 8, 100] {
        let (pages, last_cookie) = run_paged(&dataset, page_size);
        let all: Vec<SearchEntry> = pages.into_iter().flatten().collect();
        assert_eq!(all, unpaged, "page size {}", page_size);
        assert!(last_cookie.is_empty());
    }
}

#[test]
fn anonymous_bind_and_root_dse() {
    let mut client = LdapClient::new();
    let bind = client.simple_bind("", "");
    assert_eq!(
        bind.protocol_op,
        ProtocolOp::BindRequest(BindRequest {
            version: 3,
            name: String::new(),
            authentication: AuthenticationChoice::Simple(vec![]),
        })
    );
    let reply = Message::new(
        bind.message_id,
        ProtocolOp::BindResponse(bind_response(ResultCode::Success, None)),
    );
    assert!(LdapClient::do_bind(reply).is_ok());

    let (search, mut entries) = client.search(SearchRequest::root_dse());
    let root = SearchEntry {
        dn: String::new(),
        attributes: vec![Attribute {
            name: "objectClass".to_owned(),
            values: vec![b"top".to_vec(), b"OpenLDAProotDSE".to_vec()],
        }],
    };
    let inbound = vec![
        Message::new(search.message_id, ProtocolOp::SearchResEntry(root)),
        done_msg(search.message_id, ResultCode::Success),
    ];
    let found = entries.try_collect(inbound).unwrap();
    assert!(found.len() >= 1);
    assert_eq!(found[0].dn, "");
    assert!(found[0].attributes.iter().any(|a| a.name == "objectClass"));
}

#[test]
fn simple_bind_then_whoami() {
    let mut client = LdapClient::new();
    let bind = client.simple_bind("cn=read-only-admin,dc=example,dc=com", "password");
    let reply = Message::new(
        bind.message_id,
        ProtocolOp::BindResponse(bind_response(ResultCode::Success, None)),
    );
    assert!(LdapClient::do_bind(reply).is_ok());
    let who = client.whoami();
    assert_eq!(who.message_id, 3);
    assert_eq!(
        LdapClient::whoami_response(whoami_reply(
            ResultCode::Success,
            Some(b"dn:cn=read-only-admin,dc=example,dc=com")
        )),
        Ok(Some("dn:cn=read-only-admin,dc=example,dc=com".to_owned()))
    );
}
