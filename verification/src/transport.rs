//! The transports a client sends and receives through: Matrix first, SMS as
//! the fallback.

use vstd::prelude::*;
use crate::error::TransportError;
use crate::id::MessageId;
use crate::message::MatrixDelivery;
use crate::peer::{ConversationId, MatrixUserId, PhoneNumber, SmsRowId};
use crate::schema::MessageContent;

verus! {

/// A message handed to the Matrix transport.
#[derive(Debug, PartialEq, Eq)]
pub struct MatrixSendRequest {
    pub conversation: ConversationId,
    pub to: MatrixUserId,
    pub body: String,
    pub message_id: MessageId,
    pub origin_ts: u64,
    /// Whether SMS already carried the message, so this send is a backfill.
    pub via_sms_fallback: bool,
    /// The same for every attempt at one message.
    pub txn_id: String,
}

impl Clone for MatrixSendRequest {
    fn clone(&self) -> (r: Self)
        ensures
            r == *self,
    {
        MatrixSendRequest {
            conversation: self.conversation.clone(),
            to: self.to.clone(),
            body: self.body.clone(),
            message_id: self.message_id,
            origin_ts: self.origin_ts,
            via_sms_fallback: self.via_sms_fallback,
            txn_id: self.txn_id.clone(),
        }
    }
}

/// A message event the homeserver delivered to this client.
#[derive(Debug, PartialEq, Eq)]
pub struct InboundMatrixEvent {
    pub conversation: ConversationId,
    pub sender: MatrixUserId,
    /// The event's content, `None` when it does not read as a message.
    pub content: Option<MessageContent>,
    pub event_id: String,
    pub server_ts: u64,
}

impl Clone for InboundMatrixEvent {
    fn clone(&self) -> (r: Self)
        ensures
            r == *self,
    {
        InboundMatrixEvent {
            conversation: self.conversation.clone(),
            sender: self.sender.clone(),
            content: match &self.content {
                Some(c) => Some(c.clone()),
                None => None,
            },
            event_id: self.event_id.clone(),
            server_ts: self.server_ts,
        }
    }
}

/// An SMS that arrived on the device, as the device stored it.
#[derive(Debug, PartialEq, Eq)]
pub struct InboundSms {
    pub from: PhoneNumber,
    pub text: String,
    pub received_ts: u64,
    pub row: SmsRowId,
}

impl Clone for InboundSms {
    fn clone(&self) -> (r: Self)
        ensures
            r == *self,
    {
        InboundSms {
            from: self.from.clone(),
            text: self.text.clone(),
            received_ts: self.received_ts,
            row: self.row.clone(),
        }
    }
}

/// A connection to a Matrix homeserver, as one user.
pub trait MatrixTransport {
    /// The events waiting to be taken.
    spec fn waiting(&self) -> Seq<InboundMatrixEvent>;

    /// Every request sent through this connection so far, with the answer
    /// it got.
    spec fn sent(&self) -> Seq<(MatrixSendRequest, Result<MatrixDelivery, TransportError>)>;

    /// The account this connection is for.
    spec fn account(&self) -> Seq<char>;

    /// Whether the device's data link to the homeserver is on.
    spec fn link_on(&self) -> bool;

    /// Whether the data link of the device of `account` is on.
    spec fn link_of(&self, account: Seq<char>) -> bool;

    /// Whether the homeserver answers.
    spec fn service_up(&self) -> bool;

    /// Sends a message event; the transaction id makes a retry idempotent.
    /// Sending switches neither a link nor the homeserver, and with the
    /// link on and the homeserver answering, the homeserver is reached.
    fn send(&mut self, request: MatrixSendRequest) -> (r: Result<MatrixDelivery, TransportError>)
        ensures
            final(self).sent() == old(self).sent().push((request, r)),
            final(self).account() == old(self).account(),
            final(self).link_on() == old(self).link_on(),
            forall|a: Seq<char>| #[trigger] final(self).link_of(a) == old(self).link_of(a),
            final(self).service_up() == old(self).service_up(),
            old(self).link_on() && old(self).service_up() ==> !(r matches Err(TransportError::Unreachable(_))),
    ;

    /// Takes the events that arrived for this user since the last call.
    fn drain_inbound(&mut self) -> (r: Vec<InboundMatrixEvent>)
        ensures
            r@ == old(self).waiting(),
            final(self).waiting().len() == 0,
            final(self).sent() == old(self).sent(),
            final(self).account() == old(self).account(),
            final(self).link_on() == old(self).link_on(),
            forall|a: Seq<char>| #[trigger] final(self).link_of(a) == old(self).link_of(a),
            final(self).service_up() == old(self).service_up(),
    ;

    /// Whether the homeserver can be reached: the link is on and the
    /// homeserver answers.
    fn is_reachable(&self) -> (r: bool)
        ensures
            r == (self.link_on() && self.service_up()),
    ;
}

/// The device's SMS radio and SMS storage.
pub trait SmsTransport {
    /// The SMS waiting to be taken.
    spec fn waiting(&self) -> Seq<InboundSms>;

    /// Every SMS sent from this phone so far: to whom, the text, and the
    /// answer.
    spec fn sent(&self) -> Seq<(PhoneNumber, Seq<char>, Result<SmsRowId, TransportError>)>;

    /// Every row this phone was asked to remove so far, with the answer.
    spec fn removals(&self) -> Seq<(SmsRowId, Result<(), TransportError>)>;

    /// Sends an SMS; the row it is stored under on this device comes back.
    fn send(&mut self, to: &PhoneNumber, text: &str) -> (r: Result<SmsRowId, TransportError>)
        ensures
            final(self).sent() == old(self).sent().push((*to, text@, r)),
            final(self).removals() == old(self).removals(),
    ;

    /// Takes the SMS that arrived since the last call.
    fn drain_inbound(&mut self) -> (r: Vec<InboundSms>)
        ensures
            r@ == old(self).waiting(),
            final(self).waiting().len() == 0,
            final(self).sent() == old(self).sent(),
            final(self).removals() == old(self).removals(),
    ;

    /// Removes a row from the device's SMS storage; what waits to be taken
    /// is left alone.
    fn delete_local(&mut self, row: &SmsRowId) -> (r: Result<(), TransportError>)
        ensures
            final(self).waiting() == old(self).waiting(),
            final(self).sent() == old(self).sent(),
            final(self).removals() == old(self).removals().push((*row, r)),
    ;
}

} // verus!
