//! Stored messages and the record of which transports carried them.

use vstd::prelude::*;
use crate::id::{MessageId, ShortTag};
use crate::peer::{ConversationId, PeerId, SmsRowId};

verus! {

/// A transport that can carry a message.
#[derive(Debug, Clone, Copy, PartialEq, Eq, Hash, Structural)]
pub enum Transport {
    Matrix,
    Sms,
}

/// Whether a message was written here or received.
#[derive(Debug, Clone, Copy, PartialEq, Eq, Hash, Structural)]
pub enum Direction {
    Outgoing,
    Incoming,
}

/// The Matrix event that carried a message.
#[derive(Debug, PartialEq, Eq)]
pub struct MatrixDelivery {
    pub event_id: String,
    pub server_ts: u64,
}

impl Clone for MatrixDelivery {
    fn clone(&self) -> (r: Self)
        ensures
            r == *self,
    {
        MatrixDelivery { event_id: self.event_id.clone(), server_ts: self.server_ts }
    }
}

/// Whether the SMS row of a message is still in the device's SMS storage.
#[derive(Debug, Clone, Copy, PartialEq, Eq, Structural)]
pub enum SmsLocalCopy {
    Present,
    Removed,
}

/// The SMS that carried a message.
#[derive(Debug, PartialEq, Eq)]
pub struct SmsDelivery {
    pub row: SmsRowId,
    pub ts: u64,
    pub local_copy: SmsLocalCopy,
}

impl Clone for SmsDelivery {
    fn clone(&self) -> (r: Self)
        ensures
            r == *self,
    {
        SmsDelivery { row: self.row.clone(), ts: self.ts, local_copy: self.local_copy }
    }
}

/// The transports that have carried a message so far.
#[derive(Debug, PartialEq, Eq)]
pub struct DeliverySet {
    pub matrix: Option<MatrixDelivery>,
    pub sms: Option<SmsDelivery>,
}

impl Clone for DeliverySet {
    fn clone(&self) -> (r: Self)
        ensures
            r == *self,
    {
        let matrix = match &self.matrix {
            Some(m) => Some(m.clone()),
            None => None,
        };
        let sms = match &self.sms {
            Some(s) => Some(s.clone()),
            None => None,
        };
        DeliverySet { matrix, sms }
    }
}

impl Default for DeliverySet {
    fn default() -> (d: Self)
        ensures
            d.matrix is None,
            d.sms is None,
    {
        DeliverySet { matrix: None, sms: None }
    }
}

impl DeliverySet {
    pub fn matrix_only(delivery: MatrixDelivery) -> (d: DeliverySet)
        ensures
            d.matrix == Some(delivery),
            d.sms is None,
    {
        DeliverySet { matrix: Some(delivery), sms: None }
    }

    pub fn sms_only(delivery: SmsDelivery) -> (d: DeliverySet)
        ensures
            d.matrix is None,
            d.sms == Some(delivery),
    {
        DeliverySet { matrix: None, sms: Some(delivery) }
    }

    /// No transport has carried the message yet.
    pub fn is_empty(&self) -> (b: bool)
        ensures
            b == (self.matrix is None && self.sms is None),
    {
        self.matrix.is_none() && self.sms.is_none()
    }
}

/// Where a message stands.
#[derive(Debug, PartialEq, Eq)]
pub enum MessageState {
    Pending,
    Sent,
    Delivered,
    Failed(String),
}

impl Clone for MessageState {
    fn clone(&self) -> (r: Self)
        ensures
            r == *self,
    {
        match self {
            MessageState::Pending => MessageState::Pending,
            MessageState::Sent => MessageState::Sent,
            MessageState::Delivered => MessageState::Delivered,
            MessageState::Failed(reason) => MessageState::Failed(reason.clone()),
        }
    }
}

/// One logical message, however many transports carried it.
#[derive(Debug, PartialEq, Eq)]
pub struct Message {
    pub id: MessageId,
    pub tag: ShortTag,
    pub conversation: ConversationId,
    pub author: PeerId,
    pub direction: Direction,
    pub body: String,
    pub origin_ts: u64,
    pub delivery: DeliverySet,
    pub state: MessageState,
}

impl Clone for Message {
    fn clone(&self) -> (r: Self)
        ensures
            r == *self,
    {
        Message {
            id: self.id,
            tag: self.tag,
            conversation: self.conversation.clone(),
            author: self.author.clone(),
            direction: self.direction,
            body: self.body.clone(),
            origin_ts: self.origin_ts,
            delivery: self.delivery.clone(),
            state: self.state.clone(),
        }
    }
}

/// The transport a message is shown as coming from: Matrix whenever a Matrix
/// event exists, else SMS, else none.
pub open spec fn spec_canonical_transport(d: DeliverySet) -> Option<Transport> {
    if d.matrix is Some {
        Some(Transport::Matrix)
    } else if d.sms is Some {
        Some(Transport::Sms)
    } else {
        None
    }
}

impl Message {
    pub fn canonical_transport(&self) -> (t: Option<Transport>)
        ensures
            t == spec_canonical_transport(self.delivery),
    {
        match (&self.delivery.matrix, &self.delivery.sms) {
            (Some(_), _) => Some(Transport::Matrix),
            (None, Some(_)) => Some(Transport::Sms),
            (None, None) => None,
        }
    }

    /// Both transports carried this message: it arrived twice and is kept once.
    pub fn was_reconciled(&self) -> (b: bool)
        ensures
            b == (self.delivery.matrix is Some && self.delivery.sms is Some),
    {
        self.delivery.matrix.is_some() && self.delivery.sms.is_some()
    }

    /// The SMS row of this message is still in the device's SMS storage.
    pub fn has_local_sms_copy(&self) -> (b: bool)
        ensures
            b == (self.delivery.sms matches Some(s) && s.local_copy == SmsLocalCopy::Present),
    {
        match &self.delivery.sms {
            Some(s) => match s.local_copy {
                SmsLocalCopy::Present => true,
                SmsLocalCopy::Removed => false,
            },
            None => false,
        }
    }
}

} // verus!
