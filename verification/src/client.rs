//! LDAP client module: the operation layer.
//!
//! Each operation takes a fresh message id and gives the request to send;
//! a second function reads the server's response. Search results come as a
//! sequence of entries that ends with the server's "done".

use vstd::prelude::*;
use vstd::slice::slice_to_vec;
use vstd::string::StringSliceAdditionalSpecFns;
use vstd::utf8::{decode_utf8, valid_utf8};
use crate::channel::{LdapChannel, Transport};
use crate::controls::{control_of, paged_of, PagedResultsView, SimplePagedResultsControl};
use crate::error::{Error, OperationError};
use crate::model::{
    AddRequest, Attribute, AuthenticationChoice, BindRequest, BindResponse, Control, ControlView,
    ExtendedRequest, LdapResult, Message, ProtocolOp, ResultCode, SaslCredentials, SearchEntry,
};
use crate::oid::{SIMPLE_PAGED_RESULTS_CONTROL_OID, WHOAMI_OID};
use crate::options::{TlsKind, TlsOptions};
use crate::request::{ModifyRequest, SearchRequest, SearchRequestView};

verus! {

/// The port of LDAP without TLS and with StartTLS.
pub const DEFAULT_PORT: u16 = 389;

/// The first message id that an operation takes. Id 1 is that of the
/// StartTLS request, id 0 that of the server's own notifications.
pub const FIRST_MESSAGE_ID: u32 = 2;

/// The LDAP protocol version of every bind.
pub const PROTOCOL_VERSION: u8 = 3;

/// The SASL mechanism name of the EXTERNAL bind.
pub const SASL_EXTERNAL: &'static str = "EXTERNAL";

/// The SASL mechanism name of the Kerberos bind.
pub const SASL_GSSAPI: &'static str = "GSSAPI";

/// Whether a result code is no failure: success, or a SASL bind that goes on.
pub open spec fn is_success(code: ResultCode) -> bool {
    code == ResultCode::Success || code == ResultCode::SaslBindInProgress
}

/// The failure that a result stands for.
pub open spec fn operation_failed(result: LdapResult) -> Error {
    Error::OperationFailed(
        OperationError {
            result_code: result.result_code,
            matched_dn: result.matched_dn,
            diagnostic_message: result.diagnostic_message,
        },
    )
}

/// What a result means for the operation.
pub open spec fn checked(result: LdapResult) -> Result<(), Error> {
    if is_success(result.result_code) {
        Ok(())
    } else {
        Err(operation_failed(result))
    }
}

/// Classifies the outcome that the server reports.
pub fn check_result(result: LdapResult) -> (r: Result<(), Error>)
    ensures
        r == checked(result),
{
    if result.result_code == ResultCode::Success || result.result_code
        == ResultCode::SaslBindInProgress {
        Ok(())
    } else {
        Err(Error::OperationFailed(OperationError::from(result)))
    }
}

/// The text that `String::from_utf8_lossy` makes of bytes.
pub uninterp spec fn utf8_lossy(bytes: Seq<u8>) -> Seq<char>;

/// `String::from_utf8_lossy`, with the result owned: the bytes read as
/// UTF-8, each invalid sequence replaced by U+FFFD. Bytes that are valid
/// UTF-8 give the text that they encode.
#[verifier::external_body]
fn string_from_utf8_lossy(bytes: &[u8]) -> (text: String)
    ensures
        text@ == utf8_lossy(bytes@),
        valid_utf8(bytes@) ==> text@ == decode_utf8(bytes@),
{
    String::from_utf8_lossy(bytes).into_owned()
}

/// LDAP client builder
#[derive(Debug, Clone, PartialEq, Eq)]
pub struct LdapClientBuilder {
    pub address: String,
    pub port: u16,
    pub tls_options: TlsOptions,
}

impl LdapClientBuilder {
    /// Set port number, default is 389
    pub fn port(self, port: u16) -> (r: Self)
        ensures
            r == (LdapClientBuilder { port, ..self }),
    {
        LdapClientBuilder { port, ..self }
    }

    /// Set TLS options, default is plain connection
    pub fn tls_options(self, options: TlsOptions) -> (r: Self)
        ensures
            r == (LdapClientBuilder { tls_options: options, ..self }),
    {
        LdapClientBuilder { tls_options: options, ..self }
    }

    /// Where to connect, and what to do on the fresh connection before
    /// messages flow.
    pub fn connect(self) -> (r: (LdapChannel, Transport))
        ensures
            r.0 == (LdapChannel { address: self.address, port: self.port }),
            r.0.transport(&self.tls_options, r.1),
    {
        let channel = LdapChannel { address: self.address, port: self.port };
        let transport = channel.connect(&self.tls_options);
        (channel, transport)
    }
}

/// Whether `msg` is the bind request with id `id` that names `name` and
/// authenticates with `auth`.
pub open spec fn is_bind(msg: Message, id: u32, name: Seq<char>) -> bool {
    &&& msg.message_id == id
    &&& msg.controls is None
    &&& msg.protocol_op matches ProtocolOp::BindRequest(req)
    &&& req.version == PROTOCOL_VERSION
    &&& req.name@ == name
}

/// Whether `msg` is the simple bind of `username` with `password`.
pub open spec fn is_simple_bind(msg: Message, id: u32, username: Seq<char>, password: Seq<u8>) -> bool {
    &&& is_bind(msg, id, username)
    &&& msg.protocol_op matches ProtocolOp::BindRequest(req)
    &&& req.authentication matches AuthenticationChoice::Simple(p)
    &&& p@ == password
}

/// Whether `msg` is the SASL bind with the mechanism and the credentials
/// given, and with an empty name.
pub open spec fn is_sasl_bind(
    msg: Message,
    id: u32,
    mechanism: Seq<char>,
    credentials: Option<Seq<u8>>,
) -> bool {
    &&& is_bind(msg, id, Seq::empty())
    &&& msg.protocol_op matches ProtocolOp::BindRequest(req)
    &&& req.authentication matches AuthenticationChoice::Sasl(sasl)
    &&& sasl.mechanism@ == mechanism
    &&& crate::filter::tree::opt_bytes_view(sasl.credentials) == credentials
}

/// Whether `msg` is the "who am I" request with id `id`.
pub open spec fn is_whoami(msg: Message, id: u32) -> bool {
    &&& msg.message_id == id
    &&& msg.controls is None
    &&& msg.protocol_op matches ProtocolOp::ExtendedReq(req)
    &&& req.request_name@ == WHOAMI_OID.spec_bytes()
    &&& req.request_value is None
}

/// Whether `msg` is the request to add the entry `dn` with `attributes`.
pub open spec fn is_add(msg: Message, id: u32, dn: Seq<char>, attributes: Vec<Attribute>) -> bool {
    &&& msg.message_id == id
    &&& msg.controls is None
    &&& msg.protocol_op matches ProtocolOp::AddRequest(req)
    &&& req.entry@ == dn
    &&& req.attributes == attributes
}

/// Whether `msg` is the request to delete the entry `dn`.
pub open spec fn is_delete(msg: Message, id: u32, dn: Seq<char>) -> bool {
    &&& msg.message_id == id
    &&& msg.controls is None
    &&& msg.protocol_op matches ProtocolOp::DelRequest(entry)
    &&& entry@ == dn
}

/// The id after `id`; after the last one, ids start again at 0.
pub open spec fn next_after(id: u32) -> u32 {
    if id == u32::MAX {
        0
    } else {
        (id + 1) as u32
    }
}

/// The outcome of a bind that the server answered with `item`.
pub open spec fn bind_outcome(item: Message) -> Result<BindResponse, Error> {
    match item.protocol_op {
        ProtocolOp::BindResponse(resp) => if is_success(resp.result_code) {
            Ok(resp)
        } else {
            Err(
                Error::OperationFailed(
                    OperationError {
                        result_code: resp.result_code,
                        matched_dn: resp.matched_dn,
                        diagnostic_message: resp.diagnostic_message,
                    },
                ),
            )
        },
        _ => Err(Error::InvalidResponse),
    }
}

/// LDAP client: the source of message ids and of the requests that carry
/// them. It has no copy: two clients of one connection would hand out the
/// same ids.
#[derive(Debug, PartialEq, Eq)]
pub struct LdapClient {
    id_counter: u32,
}

impl LdapClient {
    /// Create client builder
    pub fn builder(address: &str) -> (r: LdapClientBuilder)
        ensures
            r.address@ == address@,
            r.port == DEFAULT_PORT,
            r.tls_options == (TlsOptions { kind: TlsKind::Plain, domain_name: None }),
    {
        LdapClientBuilder {
            address: address.to_owned(),
            port: DEFAULT_PORT,
            tls_options: TlsOptions::plain(),
        }
    }

    /// The id that the next operation takes.
    pub closed spec fn next_id(&self) -> u32 {
        self.id_counter
    }

    /// The client of a fresh connection: its first operation takes id 2.
    pub fn new() -> (r: Self)
        ensures
            r.next_id() == FIRST_MESSAGE_ID,
    {
        LdapClient { id_counter: FIRST_MESSAGE_ID }
    }

    /// Takes the next message id.
    pub fn new_id(&mut self) -> (id: u32)
        ensures
            id == old(self).next_id(),
            final(self).next_id() == next_after(id),
    {
        let id = self.id_counter;
        self.id_counter = id.wrapping_add(1);
        id
    }

    /// The outcome of a bind that the server answered with `item`: the
    /// response where its result code is no failure, `OperationFailed`
    /// where it is one, `InvalidResponse` where `item` is no bind response.
    pub fn do_bind(item: Message) -> (r: Result<BindResponse, Error>)
        ensures
            r == bind_outcome(item),
    {
        match item.protocol_op {
            ProtocolOp::BindResponse(resp) => {
                if resp.result_code == ResultCode::Success || resp.result_code
                    == ResultCode::SaslBindInProgress {
                    Ok(resp)
                } else {
                    Err(Error::OperationFailed(OperationError::from(resp)))
                }
            },
            _ => Err(Error::InvalidResponse),
        }
    }

    /// The body of a SASL bind request: version 3, no name.
    pub fn new_sasl_bind_req(mech: &str, creds: Option<&[u8]>) -> (req: BindRequest)
        ensures
            req.version == PROTOCOL_VERSION,
            req.name@ == Seq::<char>::empty(),
            req.authentication matches AuthenticationChoice::Sasl(sasl) && sasl.mechanism@ == mech@
                && crate::filter::tree::opt_bytes_view(sasl.credentials) == (match creds {
                Some(c) => Some(c@),
                None => None,
            }),
    {
        let credentials = match creds {
            Some(c) => Some(slice_to_vec(c)),
            None => None,
        };
        BindRequest {
            version: PROTOCOL_VERSION,
            name: String::new(),
            authentication: AuthenticationChoice::Sasl(
                SaslCredentials { mechanism: mech.to_owned(), credentials },
            ),
        }
    }

    /// The request of a simple bind with username and password. Its
    /// response is read by [`LdapClient::do_bind`].
    pub fn simple_bind(&mut self, username: &str, password: &str) -> (msg: Message)
        ensures
            is_simple_bind(msg, old(self).next_id(), username@, password.spec_bytes()),
            final(self).next_id() == next_after(old(self).next_id()),
    {
        let id = self.new_id();
        let req = BindRequest {
            version: PROTOCOL_VERSION,
            name: username.to_owned(),
            authentication: AuthenticationChoice::Simple(slice_to_vec(password.as_bytes())),
        };
        Message::new(id, ProtocolOp::BindRequest(req))
    }

    /// The request of a SASL bind with the mechanism and the credentials
    /// given. Its response is read by [`LdapClient::do_bind`], for which the
    /// result code `SaslBindInProgress` is no failure: the response then
    /// carries the server's token for the next step.
    pub fn sasl_bind(&mut self, mech: &str, creds: Option<&[u8]>) -> (msg: Message)
        ensures
            is_sasl_bind(
                msg,
                old(self).next_id(),
                mech@,
                match creds {
                    Some(c) => Some(c@),
                    None => None,
                },
            ),
            final(self).next_id() == next_after(old(self).next_id()),
    {
        let id = self.new_id();
        let req = Self::new_sasl_bind_req(mech, creds);
        Message::new(id, ProtocolOp::BindRequest(req))
    }

    /// The request of a SASL EXTERNAL bind
    pub fn sasl_external_bind(&mut self) -> (msg: Message)
        ensures
            is_sasl_bind(msg, old(self).next_id(), SASL_EXTERNAL@, None),
            final(self).next_id() == next_after(old(self).next_id()),
    {
        self.sasl_bind(SASL_EXTERNAL, None)
    }

    /// The unbind request. This will instruct LDAP server to terminate the
    /// connection; there is no response.
    pub fn unbind(&mut self) -> (msg: Message)
        ensures
            msg == (Message {
                message_id: old(self).next_id(),
                protocol_op: ProtocolOp::UnbindRequest,
                controls: None,
            }),
            final(self).next_id() == next_after(old(self).next_id()),
    {
        let id = self.new_id();
        Message::new(id, ProtocolOp::UnbindRequest)
    }

    /// The 'whoami' extended request (RFC4532). Its response is read by
    /// [`LdapClient::whoami_response`].
    pub fn whoami(&mut self) -> (msg: Message)
        ensures
            is_whoami(msg, old(self).next_id()),
            final(self).next_id() == next_after(old(self).next_id()),
    {
        let id = self.new_id();
        Message::new(
            id,
            ProtocolOp::ExtendedReq(
                ExtendedRequest {
                    request_name: slice_to_vec(WHOAMI_OID.as_bytes()),
                    request_value: None,
                },
            ),
        )
    }

    /// The answer to 'whoami': the response value as text, where the server
    /// sent one: the text that the bytes encode where they are UTF-8, else
    /// with what is no UTF-8 replaced; `OperationFailed` where the result
    /// code is a failure; `InvalidResponse` where `resp` is no extended
    /// response.
    pub fn whoami_response(resp: Message) -> (r: Result<Option<String>, Error>)
        ensures
            match resp.protocol_op {
                ProtocolOp::ExtendedResp(x) => if is_success(x.result_code) {
                    r matches Ok(o) && match x.response_value {
                        Some(v) => o matches Some(s) && s@ == utf8_lossy(v@) && (valid_utf8(v@)
                            ==> s@ == decode_utf8(v@)),
                        None => o is None,
                    }
                } else {
                    r == Err::<Option<String>, Error>(
                        Error::OperationFailed(
                            OperationError {
                                result_code: x.result_code,
                                matched_dn: x.matched_dn,
                                diagnostic_message: x.diagnostic_message,
                            },
                        ),
                    )
                },
                _ => r == Err::<Option<String>, Error>(Error::InvalidResponse),
            },
    {
        match resp.protocol_op {
            ProtocolOp::ExtendedResp(x) => {
                match check_result(LdapResult::new(x.result_code, x.matched_dn, x.diagnostic_message)) {
                    Ok(_) => {},
                    Err(e) => {
                        return Err(e);
                    },
                }
                Ok(
                    match x.response_value {
                        Some(v) => Some(string_from_utf8_lossy(v.as_slice())),
                        None => None,
                    },
                )
            },
            _ => Err(Error::InvalidResponse),
        }
    }

    /// The request of a search without paging, and the sequence of its
    /// results.
    pub fn search(&mut self, request: SearchRequest) -> (r: (Message, SearchEntries))
        ensures
            r.0 == (Message {
                message_id: old(self).next_id(),
                protocol_op: ProtocolOp::SearchRequest(request),
                controls: None,
            }),
            r.1@ == search_start(),
            final(self).next_id() == next_after(old(self).next_id()),
    {
        let id = self.new_id();
        let msg = Message::new(id, ProtocolOp::SearchRequest(request));
        (msg, SearchEntries { page_control: None, page_finished: false, ended: false })
    }

    /// The one result of a search: drives the sequence of results over the
    /// messages that the server sent, in order, and then over the end of
    /// the connection, and gives the first entry, or none where there was
    /// none. An error anywhere in the sequence is the result.
    pub fn search_one(entries: &mut SearchEntries, inbound: Vec<Message>) -> (r: Result<
        Option<SearchEntry>,
        Error,
    >)
        ensures
            r == match collected(old(entries)@, inbound@).0 {
                Ok(found) => Ok::<Option<SearchEntry>, Error>(
                    if found.len() > 0 {
                        Some(found[0])
                    } else {
                        None
                    },
                ),
                Err(e) => Err::<Option<SearchEntry>, Error>(e),
            },
            final(entries)@ == collected(old(entries)@, inbound@).1,
    {
        let mut found = match entries.try_collect(inbound) {
            Ok(found) => found,
            Err(e) => {
                return Err(e);
            },
        };
        if found.len() > 0 {
            Ok(Some(found.swap_remove(0)))
        } else {
            Ok(None)
        }
    }

    /// A search with paging: the sequence of its pages, none asked for yet.
    pub fn search_paged(&mut self, request: SearchRequest, page_size: u32) -> (pages: Pages)
        ensures
            pages@ == (PagesView {
                page_control: PagedResultsView {
                    size: page_size,
                    cookie: Seq::empty(),
                    has_entries: true,
                },
                page_finished: true,
                request: request@,
                page_size,
            }),
            *final(self) == *old(self),
    {
        Pages {
            page_control: SimplePagedResultsControl::new(page_size),
            page_finished: true,
            request,
            page_size,
        }
    }

    /// The request of a modify operation. Its response is read by
    /// [`LdapClient::modify_response`].
    pub fn modify(&mut self, request: ModifyRequest) -> (msg: Message)
        ensures
            msg == (Message {
                message_id: old(self).next_id(),
                protocol_op: ProtocolOp::ModifyRequest(request),
                controls: None,
            }),
            final(self).next_id() == next_after(old(self).next_id()),
    {
        let id = self.new_id();
        Message::new(id, ProtocolOp::ModifyRequest(request))
    }

    /// The outcome of a modify operation that the server answered with
    /// `resp`.
    pub fn modify_response(resp: Message) -> (r: Result<(), Error>)
        ensures
            r == match resp.protocol_op {
                ProtocolOp::ModifyResponse(result) => checked(result),
                _ => Err::<(), Error>(Error::InvalidResponse),
            },
    {
        match resp.protocol_op {
            ProtocolOp::ModifyResponse(result) => check_result(result),
            _ => Err(Error::InvalidResponse),
        }
    }

    /// The request of an add operation. Its response is read by
    /// [`LdapClient::add_response`].
    pub fn add(&mut self, dn: &str, attributes: Vec<Attribute>) -> (msg: Message)
        ensures
            is_add(msg, old(self).next_id(), dn@, attributes),
            final(self).next_id() == next_after(old(self).next_id()),
    {
        let id = self.new_id();
        Message::new(id, ProtocolOp::AddRequest(AddRequest { entry: dn.to_owned(), attributes }))
    }

    /// The outcome of an add operation that the server answered with `resp`.
    pub fn add_response(resp: Message) -> (r: Result<(), Error>)
        ensures
            r == match resp.protocol_op {
                ProtocolOp::AddResponse(result) => checked(result),
                _ => Err::<(), Error>(Error::InvalidResponse),
            },
    {
        match resp.protocol_op {
            ProtocolOp::AddResponse(result) => check_result(result),
            _ => Err(Error::InvalidResponse),
        }
    }

    /// The request of a delete operation. Its response is read by
    /// [`LdapClient::delete_response`].
    pub fn delete(&mut self, dn: &str) -> (msg: Message)
        ensures
            is_delete(msg, old(self).next_id(), dn@),
            final(self).next_id() == next_after(old(self).next_id()),
    {
        let id = self.new_id();
        Message::new(id, ProtocolOp::DelRequest(dn.to_owned()))
    }

    /// The outcome of a delete operation that the server answered with
    /// `resp`.
    pub fn delete_response(resp: Message) -> (r: Result<(), Error>)
        ensures
            r == match resp.protocol_op {
                ProtocolOp::DelResponse(result) => checked(result),
                _ => Err::<(), Error>(Error::InvalidResponse),
            },
    {
        match resp.protocol_op {
            ProtocolOp::DelResponse(result) => check_result(result),
            _ => Err(Error::InvalidResponse),
        }
    }
}

/// At the end of the connection, a sequence of search results that is not
/// over yields `ConnectionClosed` and is over; so does, in one go, the
/// collecting of a sequence that has no message left to read.
pub proof fn lemma_end_of_connection_closes(s: SearchEntriesView)
    requires
        !s.ended,
    ensures
        search_step(s, None).1 == SearchStep::Item(Err(Error::ConnectionClosed)),
        search_step(s, None).0.ended,
        collected(s, Seq::empty()).0 == Err::<Seq<SearchEntry>, Error>(Error::ConnectionClosed),
{
}

/// Ids are handed out in rising order: until the last id is reached, the
/// request made later carries the larger id.
pub proof fn lemma_ids_rise(id: u32)
    requires
        id < u32::MAX,
    ensures
        id < next_after(id),
        next_after(id) == id + 1,
{
}

/// Mathematical values of a list of controls, in order.
pub open spec fn controls_view(cs: Seq<Control>) -> Seq<ControlView> {
    Seq::new(cs.len(), |i: int| cs[i]@)
}

/// The first control of the paged-results type among `cs`.
pub open spec fn first_paged(cs: Seq<ControlView>) -> Option<ControlView>
    decreases cs.len(),
{
    if cs.len() == 0 {
        None
    } else if cs[0].control_type == SIMPLE_PAGED_RESULTS_CONTROL_OID.spec_bytes() {
        Some(cs[0])
    } else {
        first_paged(cs.skip(1))
    }
}

/// The paging state that the server returned with a "done": that of the
/// first paged-results control, if there is one and its value can be read.
pub open spec fn returned_page(controls: Option<Seq<ControlView>>) -> Option<PagedResultsView> {
    match controls {
        None => None,
        Some(cs) => match first_paged(cs) {
            None => None,
            Some(c) => paged_of(c),
        },
    }
}

/// Mathematical value of optional controls.
pub open spec fn opt_controls_view(controls: Option<Vec<Control>>) -> Option<Seq<ControlView>> {
    match controls {
        None => None,
        Some(cs) => Some(controls_view(cs@)),
    }
}

/// Mathematical value of a [`SearchEntries`].
pub struct SearchEntriesView {
    /// The paging state, where the search is one page of a paged search
    pub page_control: Option<PagedResultsView>,
    /// Whether the server's "done" was seen
    pub page_finished: bool,
    /// Whether the sequence is over
    pub ended: bool,
}

/// One step of a sequence of search results.
#[derive(Debug, PartialEq, Eq)]
pub enum SearchStep {
    /// Nothing for this message: take the next one
    Skip,
    /// The next item of the sequence: an entry, or the error that ends it
    Item(Result<SearchEntry, Error>),
    /// The sequence is over
    End,
}

/// Search entries represents a sequence of search results
#[derive(Debug, Clone, PartialEq, Eq)]
pub struct SearchEntries {
    page_control: Option<SimplePagedResultsControl>,
    page_finished: bool,
    ended: bool,
}

impl View for SearchEntries {
    type V = SearchEntriesView;

    closed spec fn view(&self) -> SearchEntriesView {
        SearchEntriesView {
            page_control: match self.page_control {
                Some(c) => Some(c@),
                None => None,
            },
            page_finished: self.page_finished,
            ended: self.ended,
        }
    }
}

/// The paging state of a page whose search failed: what was held, with no
/// more entries to come, so that the paged search is over.
pub open spec fn ended_page(held: Option<PagedResultsView>) -> Option<PagedResultsView> {
    match held {
        Some(c) => Some(PagedResultsView { has_entries: false, ..c }),
        None => None,
    }
}

/// What the server's "done" means for a sequence in the state `s`: the state
/// after it, and the item to yield, or `None` for the end of the sequence.
///
/// Success ends the sequence; for a page of a paged search the paging state
/// that came with the "done" replaces the one held, and where none came
/// the response is invalid. Any other result code is a failure. After an
/// invalid response or a failure the page's paging state has no more
/// entries to come: the paged search is over with its page.
pub open spec fn done_step(
    s: SearchEntriesView,
    controls: Option<Seq<ControlView>>,
    done: LdapResult,
) -> (SearchEntriesView, Option<Result<SearchEntry, Error>>) {
    if done.result_code == ResultCode::Success {
        if s.page_control is Some {
            match returned_page(controls) {
                Some(p) => (
                    SearchEntriesView { page_control: Some(p), page_finished: true, ended: true },
                    None,
                ),
                None => (
                    SearchEntriesView {
                        page_control: ended_page(s.page_control),
                        page_finished: true,
                        ended: true,
                    },
                    Some(Err(Error::InvalidResponse)),
                ),
            }
        } else {
            (SearchEntriesView { page_finished: true, ended: true, ..s }, None)
        }
    } else {
        (
            SearchEntriesView {
                page_control: ended_page(s.page_control),
                page_finished: true,
                ended: true,
            },
            Some(Err(operation_failed(done))),
        )
    }
}

/// What an inbound event, a message or the end of the connection, means
/// for a sequence in the state `s`: the state after it and the step taken.
pub open spec fn search_step(s: SearchEntriesView, inbound: Option<Message>) -> (
    SearchEntriesView,
    SearchStep,
) {
    if s.ended {
        (s, SearchStep::End)
    } else {
        match inbound {
            None => (
                SearchEntriesView { ended: true, ..s },
                SearchStep::Item(Err(Error::ConnectionClosed)),
            ),
            Some(msg) => match msg.protocol_op {
                ProtocolOp::SearchResEntry(entry) => (s, SearchStep::Item(Ok(entry))),
                ProtocolOp::SearchResRef(_) => (s, SearchStep::Skip),
                ProtocolOp::SearchResDone(done) => {
                    let (after, item) = done_step(s, opt_controls_view(msg.controls), done);
                    (
                        after,
                        match item {
                            Some(i) => SearchStep::Item(i),
                            None => SearchStep::End,
                        },
                    )
                },
                _ => (
                    SearchEntriesView { ended: true, ..s },
                    SearchStep::Item(Err(Error::InvalidResponse)),
                ),
            },
        }
    }
}

/// What a sequence in the state `s` yields over the messages `inbound`, in
/// order, and then the end of the connection: the entries up to the end of
/// the sequence, or the first error; and the state after it.
pub open spec fn collected(s: SearchEntriesView, inbound: Seq<Message>) -> (
    Result<Seq<SearchEntry>, Error>,
    SearchEntriesView,
)
    decreases inbound.len(),
{
    let (after, step) = search_step(
        s,
        if inbound.len() == 0 {
            None
        } else {
            Some(inbound[0])
        },
    );
    match step {
        SearchStep::End => (Ok(Seq::empty()), after),
        SearchStep::Item(Err(e)) => (Err(e), after),
        SearchStep::Item(Ok(entry)) => if inbound.len() == 0 {
            (Ok(seq![entry]), after)
        } else {
            let (rest, last) = collected(after, inbound.skip(1));
            (
                match rest {
                    Ok(entries) => Ok(seq![entry] + entries),
                    Err(e) => Err(e),
                },
                last,
            )
        },
        SearchStep::Skip => if inbound.len() == 0 {
            (Ok(Seq::empty()), after)
        } else {
            collected(after, inbound.skip(1))
        },
    }
}

/// Takes the first control of the paged-results type out of `controls` and
/// reads the paging state off it.
#[verifier::loop_isolation(false)]
fn take_paged_control(controls: Option<Vec<Control>>) -> (r: Option<SimplePagedResultsControl>)
    ensures
        match returned_page(opt_controls_view(controls)) {
            Some(p) => r matches Some(c) && c@ == p,
            None => r is None,
        },
{
    let mut list = match controls {
        None => {
            return None;
        },
        Some(cs) => cs,
    };
    let ghost all = controls_view(list@);
    let mut i: usize = 0;
    assert(all.skip(0) =~= all);
    while i < list.len()
        invariant
            i <= list.len(),
            controls_view(list@) == all,
            first_paged(all) == first_paged(all.skip(i as int)),
        decreases list.len() - i,
    {
        assert(all.skip(i as int)[0] == all[i as int]);
        assert(all.skip(i as int).skip(1) =~= all.skip(i + 1));
        assert(all[i as int] == list@[i as int]@);
        if crate::conn::same_bytes(
            list[i].control_type.as_slice(),
            SIMPLE_PAGED_RESULTS_CONTROL_OID.as_bytes(),
        ) {
            let c = list.swap_remove(i);
            assert(first_paged(all) == Some(c@));
            return match SimplePagedResultsControl::try_from(c) {
                Ok(p) => Some(p),
                Err(_) => None,
            };
        }
        i += 1;
    }
    assert(all.skip(i as int) =~= Seq::<ControlView>::empty());
    None
}

impl SearchEntries {
    /// Whether the sequence is over: nothing more is to be read for it.
    pub fn is_ended(&self) -> (r: bool)
        ensures
            r == self@.ended,
    {
        self.ended
    }

    /// Whether the server's "done" was seen.
    pub fn is_page_finished(&self) -> (r: bool)
        ensures
            r == self@.page_finished,
    {
        self.page_finished
    }

    /// Handles the server's "done", which came with `controls`: marks the
    /// page as finished and the sequence as over, takes over the paging
    /// state for a page of a paged search, and gives the item to yield:
    /// `None` for the end, else the error.
    pub fn search_done(&mut self, controls: Option<Vec<Control>>, done: LdapResult) -> (r: Option<
        Result<SearchEntry, Error>,
    >)
        ensures
            (final(self)@, r) == done_step(old(self)@, opt_controls_view(controls), done),
    {
        self.page_finished = true;
        self.ended = true;
        if done.result_code == ResultCode::Success {
            if self.page_control.is_some() {
                match take_paged_control(controls) {
                    Some(page_control) => {
                        self.page_control = Some(page_control);
                        None
                    },
                    None => {
                        self.end_pages();
                        Some(Err(Error::InvalidResponse))
                    },
                }
            } else {
                None
            }
        } else {
            self.end_pages();
            Some(Err(Error::OperationFailed(OperationError::from(done))))
        }
    }

    /// Marks the paged search, if this is a page of one, as over.
    fn end_pages(&mut self)
        ensures
            final(self)@ == (SearchEntriesView {
                page_control: ended_page(old(self)@.page_control),
                ..old(self)@
            }),
    {
        let ended = match &self.page_control {
            Some(c) => Some(c.clone().without_entries()),
            None => None,
        };
        self.page_control = ended;
    }

    /// Takes one inbound event, a message for this search or `None` for the
    /// end of the connection, and gives the step of the sequence.
    ///
    /// An entry is yielded; a reference is skipped; "done" ends the
    /// sequence, with an error where the search failed; any other message
    /// is an invalid response, and the end of the connection before "done"
    /// is `ConnectionClosed`. Once the sequence is over, it stays over.
    pub fn poll_next(&mut self, inbound: Option<Message>) -> (step: SearchStep)
        ensures
            (final(self)@, step) == search_step(old(self)@, inbound),
    {
        if self.ended {
            return SearchStep::End;
        }
        match inbound {
            None => {
                self.ended = true;
                SearchStep::Item(Err(Error::ConnectionClosed))
            },
            Some(msg) => match msg.protocol_op {
                ProtocolOp::SearchResEntry(item) => SearchStep::Item(Ok(item)),
                ProtocolOp::SearchResRef(_) => SearchStep::Skip,
                ProtocolOp::SearchResDone(done) => match self.search_done(msg.controls, done) {
                    Some(item) => SearchStep::Item(item),
                    None => SearchStep::End,
                },
                _ => {
                    self.ended = true;
                    SearchStep::Item(Err(Error::InvalidResponse))
                },
            },
        }
    }

    /// Drives the sequence over the messages of `inbound`, in order, and
    /// then over the end of the connection: the entries up to the end of the
    /// sequence, or the first error.
    #[verifier::loop_isolation(false)]
    pub fn try_collect(&mut self, inbound: Vec<Message>) -> (r: Result<Vec<SearchEntry>, Error>)
        ensures
            match collected(old(self)@, inbound@).0 {
                Ok(entries) => r matches Ok(found) && found@ == entries,
                Err(e) => r == Err::<Vec<SearchEntry>, Error>(e),
            },
            final(self)@ == collected(old(self)@, inbound@).1,
    {
        let mut found: Vec<SearchEntry> = Vec::new();
        let ghost start = self@;
        let ghost all = inbound@;
        assert(all.skip(0) =~= all);
        assert(prepend(found@, collected(self@, all.skip(0))) == collected(start, all)) by {
            prepend_nothing(collected(self@, all));
        }
        for msg in it: inbound
            invariant
                it.seq() == all,
                prepend(found@, collected(self@, all.skip(it.index() as int))) == collected(
                    start,
                    all,
                ),
        {
            let ghost k = it.index() as int;
            let ghost had = found@;
            assert(all.skip(k)[0] == msg);
            assert(all.skip(k).skip(1) =~= all.skip(k + 1));
            match self.poll_next(Some(msg)) {
                SearchStep::End => {
                    assert(had + Seq::<SearchEntry>::empty() =~= had);
                    return Ok(found);
                },
                SearchStep::Item(Err(e)) => {
                    return Err(e);
                },
                SearchStep::Item(Ok(entry)) => {
                    found.push(entry);
                    proof {
                        prepend_one(had, entry, collected(self@, all.skip(k + 1)));
                    }
                },
                SearchStep::Skip => {},
            }
        }
        assert(all.skip(all.len() as int) =~= Seq::<Message>::empty());
        match self.poll_next(None) {
            SearchStep::End => Ok(found),
            SearchStep::Item(Err(e)) => Err(e),
            SearchStep::Item(Ok(entry)) => {
                found.push(entry);
                Ok(found)
            },
            SearchStep::Skip => Ok(found),
        }
    }
}

/// `had` put before the entries of an outcome.
pub open spec fn prepend(
    had: Seq<SearchEntry>,
    r: (Result<Seq<SearchEntry>, Error>, SearchEntriesView),
) -> (Result<Seq<SearchEntry>, Error>, SearchEntriesView) {
    (
        match r.0 {
            Ok(entries) => Ok(had + entries),
            Err(e) => Err(e),
        },
        r.1,
    )
}

proof fn prepend_nothing(r: (Result<Seq<SearchEntry>, Error>, SearchEntriesView))
    ensures
        prepend(Seq::empty(), r) == r,
{
    match r.0 {
        Ok(entries) => {
            assert(Seq::<SearchEntry>::empty() + entries =~= entries);
        },
        Err(e) => {},
    }
}

proof fn prepend_one(
    had: Seq<SearchEntry>,
    entry: SearchEntry,
    r: (Result<Seq<SearchEntry>, Error>, SearchEntriesView),
)
    ensures
        prepend(had, prepend(seq![entry], r)) == prepend(had.push(entry), r),
{
    match r.0 {
        Ok(entries) => {
            assert(had + (seq![entry] + entries) =~= had.push(entry) + entries);
        },
        Err(e) => {},
    }
}

/// Mathematical value of a [`Pages`].
pub struct PagesView {
    pub page_control: PagedResultsView,
    pub page_finished: bool,
    pub request: SearchRequestView,
    pub page_size: u32,
}

/// Pages represents a sequence of paged search results
#[derive(Debug, PartialEq, Eq)]
pub struct Pages {
    page_control: SimplePagedResultsControl,
    page_finished: bool,
    request: SearchRequest,
    page_size: u32,
}

impl View for Pages {
    type V = PagesView;

    closed spec fn view(&self) -> PagesView {
        PagesView {
            page_control: self.page_control@,
            page_finished: self.page_finished,
            request: self.request@,
            page_size: self.page_size,
        }
    }
}

/// The state of the sequence of entries of a search without paging, before
/// its first message.
pub open spec fn search_start() -> SearchEntriesView {
    SearchEntriesView { page_control: None, page_finished: false, ended: false }
}

/// The state of the sequence of entries of a page, asked for while the
/// paging state was `held`, before its first message.
pub open spec fn page_start(held: PagedResultsView) -> SearchEntriesView {
    SearchEntriesView { page_control: Some(held), page_finished: false, ended: false }
}

/// The paging state that the request for the next page carries: the cookie
/// held, and the page size.
pub open spec fn request_control(p: PagesView) -> PagedResultsView {
    PagedResultsView {
        size: p.page_size,
        cookie: p.page_control.cookie,
        has_entries: p.page_control.has_entries,
    }
}

/// The state of a paged search after the sequence of entries of a page,
/// which came to the state `page`, was handed back.
pub open spec fn after_page(p: PagesView, page: SearchEntriesView) -> PagesView {
    PagesView {
        page_control: match page.page_control {
            Some(c) => c,
            None => p.page_control,
        },
        page_finished: page.page_finished,
        ..p
    }
}

/// Whether `msg` asks for the next page of the paged search `p` under the
/// id `id`: the search request of `p`, with one control that carries the
/// cookie held and the page size.
pub open spec fn is_page_request(msg: Message, id: u32, p: PagesView) -> bool {
    &&& msg.message_id == id
    &&& msg.protocol_op matches ProtocolOp::SearchRequest(req)
    &&& req@ == p.request
    &&& msg.controls matches Some(cs)
    &&& controls_view(cs@) == seq![control_of(request_control(p))]
}

impl Pages {
    /// Whether the entries of the page asked for last have been read to
    /// their end.
    pub fn is_page_finished(&self) -> (r: bool)
        ensures
            r == self@.page_finished,
    {
        self.page_finished
    }

    /// Whether the next poll gives a page: the server has more entries, and
    /// the page asked for last has been read to its end.
    pub open spec fn has_next(p: PagesView) -> bool {
        p.page_control.has_entries && p.page_finished
    }

    /// The next page: the request to send for it and the sequence of its
    /// entries; `None` where the server has no more entries, or where the
    /// entries of the page before have not been read to their end.
    pub fn poll_next(&mut self, client: &mut LdapClient) -> (r: Option<(Message, SearchEntries)>)
        ensures
            !Self::has_next(old(self)@) ==> r is None && final(self)@ == old(self)@
                && *final(client) == *old(client),
            Self::has_next(old(self)@) ==> {
                &&& r matches Some((msg, entries))
                &&& is_page_request(msg, old(client).next_id(), old(self)@)
                &&& entries@ == page_start(old(self)@.page_control)
                &&& final(self)@ == (PagesView { page_finished: false, ..old(self)@ })
                &&& final(client).next_id() == next_after(old(client).next_id())
            },
    {
        if !self.page_control.has_entries() {
            return None;
        }
        if !self.is_page_finished() {
            return None;
        }
        self.page_finished = false;
        let id = client.new_id();
        let control = match Control::try_from(self.page_control.clone().with_size(self.page_size)) {
            Ok(c) => c,
            Err(_) => {
                return None;
            },
        };
        let mut controls: Vec<Control> = Vec::new();
        controls.push(control);
        assert(controls_view(controls@) =~= seq![control@]);
        let msg = Message {
            message_id: id,
            protocol_op: ProtocolOp::SearchRequest(self.request.clone()),
            controls: Some(controls),
        };
        let entries = SearchEntries {
            page_control: Some(self.page_control.clone()),
            page_finished: false,
            ended: false,
        };
        Some((msg, entries))
    }

    /// Takes over what the sequence of a page's entries came to: the paging
    /// state that the server returned, and whether the page was read to
    /// its end.
    pub fn page_done(&mut self, page: SearchEntries)
        ensures
            final(self)@ == after_page(old(self)@, page@),
    {
        self.page_finished = page.page_finished;
        match page.page_control {
            Some(c) => {
                self.page_control = c;
            },
            None => {},
        }
    }
}

} // verus!
