//! The connection demultiplexer: which request waits for the responses
//! with which message id, and where an inbound message goes.
//!
//! The subscriber of an id is whatever the caller delivers messages with,
//! most often the sending half of a queue. It is carried, never used, here.

use std::collections::HashMap;
use vstd::prelude::*;
use vstd::string::StringSliceAdditionalSpecFns;
use crate::error::Error;
use crate::model::{Message, ProtocolOp};
use crate::oid::NOTICE_OF_DISCONNECTION_OID;

verus! {

/// Whether `msg` is the server's notice of disconnection: an extended
/// response whose name is the notice's OID. Its message id does not count.
pub open spec fn is_notice_of_disconnection(msg: Message) -> bool {
    &&& msg.protocol_op matches ProtocolOp::ExtendedResp(resp)
    &&& resp.response_name matches Some(name)
    &&& name@ == NOTICE_OF_DISCONNECTION_OID.spec_bytes()
}

/// Where an inbound message goes.
pub enum Routing<'a, S> {
    /// The server is about to close the connection: the pump ends, and
    /// every subscriber is dropped.
    Disconnect,
    /// To this subscriber, the one registered under the message's id
    Deliver(&'a S),
    /// Nowhere: nobody waits for the message's id.
    Discard,
}

/// Where `msg` goes while `subscribers` wait.
pub open spec fn routed<S>(subscribers: Map<u32, S>, msg: Message) -> Routing<'static, S> {
    if is_notice_of_disconnection(msg) {
        Routing::Disconnect
    } else if subscribers.contains_key(msg.message_id) {
        Routing::Deliver(&subscribers[msg.message_id])
    } else {
        Routing::Discard
    }
}

/// The right to the responses to one request. Giving it back with
/// [`LdapConnection::close_stream`] ends the subscription.
#[derive(Debug, PartialEq, Eq)]
pub struct MessageStream {
    pub id: u32,
}

/// The subscribers of one connection, by message id.
pub struct LdapConnection<S> {
    requests: HashMap<u32, S>,
}

/// Whether two byte strings are the same.
pub fn same_bytes(a: &[u8], b: &[u8]) -> (r: bool)
    ensures
        r == (a@ == b@),
{
    if a.len() != b.len() {
        return false;
    }
    let mut i: usize = 0;
    while i < a.len()
        invariant
            i <= a.len(),
            a.len() == b.len(),
            forall|k: int| 0 <= k < i ==> a@[k] == b@[k],
        decreases a.len() - i,
    {
        if a[i] != b[i] {
            return false;
        }
        i += 1;
    }
    assert(a@ =~= b@);
    true
}

/// Whether `msg` is the server's notice of disconnection.
pub fn is_disconnection_notice(msg: &Message) -> (r: bool)
    ensures
        r == is_notice_of_disconnection(*msg),
{
    match &msg.protocol_op {
        ProtocolOp::ExtendedResp(resp) => match &resp.response_name {
            Some(name) => same_bytes(name.as_slice(), NOTICE_OF_DISCONNECTION_OID.as_bytes()),
            None => false,
        },
        _ => false,
    }
}

impl<S> LdapConnection<S> {
    /// The subscribers, by message id. Under one id there is at most one.
    pub closed spec fn subscribers(&self) -> Map<u32, S> {
        self.requests@
    }

    /// A connection on which nobody waits yet.
    pub fn new() -> (r: Self)
        ensures
            r.subscribers() == Map::<u32, S>::empty(),
    {
        LdapConnection { requests: HashMap::new() }
    }

    /// Registers `sink` for the responses to `msg`, in place of whoever
    /// waited under the same id, and gives the stream handle for them. The
    /// message itself is then to be put on the outbound queue.
    pub fn send_recv_stream(&mut self, msg: &Message, sink: S) -> (stream: MessageStream)
        ensures
            stream.id == msg.message_id,
            final(self).subscribers() == old(self).subscribers().insert(msg.message_id, sink),
    {
        let id = msg.message_id;
        self.requests.insert(id, sink);
        MessageStream { id }
    }

    /// Where an inbound message goes: the notice of disconnection ends the
    /// pump; any other message goes to the subscriber of its id, or nowhere
    /// where there is none.
    pub fn route(&self, msg: &Message) -> (r: Routing<'_, S>)
        ensures
            r == routed(self.subscribers(), *msg),
    {
        if is_disconnection_notice(msg) {
            return Routing::Disconnect;
        }
        match self.requests.get(&msg.message_id) {
            Some(sink) => Routing::Deliver(sink),
            None => Routing::Discard,
        }
    }

    /// Ends the subscription of a stream: later messages with its id are
    /// discarded. Other subscriptions stay.
    pub fn close_stream(&mut self, stream: MessageStream)
        ensures
            final(self).subscribers() == old(self).subscribers().remove(stream.id),
    {
        self.requests.remove(&stream.id);
    }

    /// Drops every subscriber, as the pump does when it ends: each stream
    /// then sees its end.
    pub fn shutdown(&mut self)
        ensures
            final(self).subscribers() == Map::<u32, S>::empty(),
    {
        self.requests.clear();
    }

    /// The single response to a request: the first message that its stream
    /// delivered, or `ConnectionClosed` where the stream ended without one.
    pub fn send_recv(first: Option<Message>) -> (r: Result<Message, Error>)
        ensures
            r == match first {
                Some(msg) => Ok::<Message, Error>(msg),
                None => Err::<Message, Error>(Error::ConnectionClosed),
            },
    {
        match first {
            Some(msg) => Ok(msg),
            None => Err(Error::ConnectionClosed),
        }
    }
}

/// After a stream is closed, nobody waits under its id, and every message
/// with that id is discarded unless it ends the pump.
pub proof fn lemma_closed_stream_gets_nothing<S>(subscribers: Map<u32, S>, id: u32, msg: Message)
    requires
        msg.message_id == id,
    ensures
        !subscribers.remove(id).contains_key(id),
        routed(subscribers.remove(id), msg) == Routing::<S>::Discard || routed(
            subscribers.remove(id),
            msg,
        ) == Routing::<S>::Disconnect,
{
}

/// The notice of disconnection ends the pump whoever waits, and after the
/// pump has dropped the subscribers no message is delivered any more.
pub proof fn lemma_notice_ends_delivery<S>(subscribers: Map<u32, S>, notice: Message, later: Message)
    requires
        is_notice_of_disconnection(notice),
    ensures
        routed(subscribers, notice) == Routing::<S>::Disconnect,
        !(routed(Map::<u32, S>::empty(), later) is Deliver),
{
}

} // verus!
