//! Reconciliation: deciding what an arriving copy of a message does to the
//! store, so that one logical message is kept once however many transports
//! carry it and in whatever order they arrive.

use vstd::prelude::*;
use crate::id::{MessageId, ShortTag};
use crate::message::{
    DeliverySet, Direction, MatrixDelivery, Message, MessageState, SmsDelivery, SmsLocalCopy,
};
use crate::peer::{ConversationId, PeerId, SmsRowId};

verus! {

/// A message as it arrives over Matrix.
#[derive(Debug, PartialEq, Eq)]
pub struct IncomingMatrix {
    pub conversation: ConversationId,
    pub author: PeerId,
    pub body: String,
    pub origin_ts: u64,
    pub tag: ShortTag,
    pub delivery: MatrixDelivery,
}

impl Clone for IncomingMatrix {
    fn clone(&self) -> (r: Self)
        ensures
            r == *self,
    {
        IncomingMatrix {
            conversation: self.conversation.clone(),
            author: self.author.clone(),
            body: self.body.clone(),
            origin_ts: self.origin_ts,
            tag: self.tag,
            delivery: self.delivery.clone(),
        }
    }
}

/// A message as it arrives over SMS, trailer already taken off.
#[derive(Debug, PartialEq, Eq)]
pub struct IncomingSms {
    pub conversation: ConversationId,
    pub author: PeerId,
    pub body: String,
    pub origin_ts: u64,
    pub tag: ShortTag,
    pub delivery: SmsDelivery,
}

impl Clone for IncomingSms {
    fn clone(&self) -> (r: Self)
        ensures
            r == *self,
    {
        IncomingSms {
            conversation: self.conversation.clone(),
            author: self.author.clone(),
            body: self.body.clone(),
            origin_ts: self.origin_ts,
            tag: self.tag,
            delivery: self.delivery.clone(),
        }
    }
}

/// An arriving copy of a message.
#[derive(Debug, PartialEq, Eq)]
pub enum Incoming {
    Matrix(IncomingMatrix),
    Sms(IncomingSms),
}

impl Clone for Incoming {
    fn clone(&self) -> (r: Self)
        ensures
            r == *self,
    {
        match self {
            Incoming::Matrix(m) => Incoming::Matrix(m.clone()),
            Incoming::Sms(s) => Incoming::Sms(s.clone()),
        }
    }
}

/// The conversation an arriving copy belongs to.
pub open spec fn incoming_conversation(incoming: Incoming) -> ConversationId {
    match incoming {
        Incoming::Matrix(m) => m.conversation,
        Incoming::Sms(s) => s.conversation,
    }
}

/// The tag an arriving copy carries.
pub open spec fn incoming_tag(incoming: Incoming) -> ShortTag {
    match incoming {
        Incoming::Matrix(m) => m.tag,
        Incoming::Sms(s) => s.tag,
    }
}

impl Incoming {
    pub fn conversation(&self) -> (c: &ConversationId)
        ensures
            *c == incoming_conversation(*self),
    {
        match self {
            Incoming::Matrix(m) => &m.conversation,
            Incoming::Sms(s) => &s.conversation,
        }
    }

    pub fn tag(&self) -> (t: ShortTag)
        ensures
            t == incoming_tag(*self),
    {
        match self {
            Incoming::Matrix(m) => m.tag,
            Incoming::Sms(s) => s.tag,
        }
    }
}

/// What an arriving copy does to the store.
#[derive(Debug, PartialEq, Eq)]
pub enum Reconciliation {
    /// The message is new: store it.
    Insert(Message),
    /// The Matrix event of a message known by SMS: keep the record, add the
    /// event, and drop the SMS row from the device.
    Supersede { keep: MessageId, matrix: MatrixDelivery, drop_sms: SmsRowId },
    /// The Matrix event of a message known with no delivery yet.
    AttachMatrix { keep: MessageId, matrix: MatrixDelivery },
    /// The SMS of a known message; its row is to be removed when the Matrix
    /// event is already there.
    AttachSms { keep: MessageId, sms: SmsDelivery },
    /// A copy already accounted for.
    Ignore,
}

/// The record a message gets when it is first stored.
pub open spec fn spec_new_record(incoming: Incoming, local_id: MessageId, direction: Direction) -> Message {
    match incoming {
        Incoming::Matrix(m) => Message {
            id: local_id,
            tag: m.tag,
            conversation: m.conversation,
            author: m.author,
            direction,
            body: m.body,
            origin_ts: m.origin_ts,
            delivery: DeliverySet { matrix: Some(m.delivery), sms: None },
            state: MessageState::Delivered,
        },
        Incoming::Sms(s) => Message {
            id: local_id,
            tag: s.tag,
            conversation: s.conversation,
            author: s.author,
            direction,
            body: s.body,
            origin_ts: s.origin_ts,
            delivery: DeliverySet { matrix: None, sms: Some(s.delivery) },
            state: MessageState::Delivered,
        },
    }
}

/// The decision for an arriving copy, given the record found under its tag.
/// A record from another conversation does not count. A new message is
/// inserted under `local_id`; a Matrix event is attached to a record that has
/// none, superseding its SMS if it has one; an SMS is attached to a record
/// that has none, marked for removal from the device if Matrix already
/// carried the message; anything else is a duplicate.
pub open spec fn spec_reconcile(
    incoming: Incoming,
    existing: Option<Message>,
    local_id: MessageId,
    direction: Direction,
) -> Reconciliation {
    match existing {
        Some(known) if known.conversation@ == incoming_conversation(incoming)@ => match incoming {
            Incoming::Matrix(m) => match (known.delivery.matrix, known.delivery.sms) {
                (Some(_), _) => Reconciliation::Ignore,
                (None, Some(sms)) => Reconciliation::Supersede {
                    keep: known.id,
                    matrix: m.delivery,
                    drop_sms: sms.row,
                },
                (None, None) => Reconciliation::AttachMatrix { keep: known.id, matrix: m.delivery },
            },
            Incoming::Sms(s) => if known.delivery.sms is Some {
                Reconciliation::Ignore
            } else {
                Reconciliation::AttachSms {
                    keep: known.id,
                    sms: SmsDelivery {
                        local_copy: if known.delivery.matrix is Some {
                            SmsLocalCopy::Removed
                        } else {
                            SmsLocalCopy::Present
                        },
                        ..s.delivery
                    },
                }
            },
        },
        _ => Reconciliation::Insert(spec_new_record(incoming, local_id, direction)),
    }
}

pub fn reconcile(
    incoming: &Incoming,
    existing: Option<&Message>,
    local_id: MessageId,
    direction: Direction,
) -> (r: Reconciliation)
    ensures
        r == spec_reconcile(
            *incoming,
            match existing {
                Some(m) => Some(*m),
                None => None,
            },
            local_id,
            direction,
        ),
{
    let existing = match existing {
        Some(m) => if m.conversation.same_as(incoming.conversation()) {
            Some(m)
        } else {
            None
        },
        None => None,
    };
    match existing {
        None => Reconciliation::Insert(new_record(incoming, local_id, direction)),
        Some(known) => match incoming {
            Incoming::Matrix(m) => match (&known.delivery.matrix, &known.delivery.sms) {
                (Some(_), _) => Reconciliation::Ignore,
                (None, Some(sms)) => Reconciliation::Supersede {
                    keep: known.id,
                    matrix: m.delivery.clone(),
                    drop_sms: sms.row.clone(),
                },
                (None, None) => Reconciliation::AttachMatrix {
                    keep: known.id,
                    matrix: m.delivery.clone(),
                },
            },
            Incoming::Sms(s) => {
                if known.delivery.sms.is_some() {
                    return Reconciliation::Ignore;
                }
                let local_copy = if known.delivery.matrix.is_some() {
                    SmsLocalCopy::Removed
                } else {
                    SmsLocalCopy::Present
                };
                let delivery = s.delivery.clone();
                Reconciliation::AttachSms {
                    keep: known.id,
                    sms: SmsDelivery { row: delivery.row, ts: delivery.ts, local_copy },
                }
            },
        },
    }
}

fn new_record(incoming: &Incoming, local_id: MessageId, direction: Direction) -> (m: Message)
    ensures
        m == spec_new_record(*incoming, local_id, direction),
{
    match incoming {
        Incoming::Matrix(m) => Message {
            id: local_id,
            tag: m.tag,
            conversation: m.conversation.clone(),
            author: m.author.clone(),
            direction,
            body: m.body.clone(),
            origin_ts: m.origin_ts,
            delivery: DeliverySet::matrix_only(m.delivery.clone()),
            state: MessageState::Delivered,
        },
        Incoming::Sms(s) => Message {
            id: local_id,
            tag: s.tag,
            conversation: s.conversation.clone(),
            author: s.author.clone(),
            direction,
            body: s.body.clone(),
            origin_ts: s.origin_ts,
            delivery: DeliverySet::sms_only(s.delivery.clone()),
            state: MessageState::Delivered,
        },
    }
}

/// The record kept once a reconciliation has been carried out on the record
/// `known` stored under its `keep` id, `row_deleted` telling whether the SMS
/// row it asked to remove from the device is gone. A row that could not be
/// removed stays marked present.
pub open spec fn spec_settle(known: Message, r: Reconciliation, row_deleted: bool) -> Message {
    match r {
        Reconciliation::Insert(m) => m,
        Reconciliation::Supersede { matrix, .. } => Message {
            delivery: DeliverySet {
                matrix: Some(matrix),
                sms: match known.delivery.sms {
                    Some(s) => Some(
                        if row_deleted {
                            SmsDelivery { local_copy: SmsLocalCopy::Removed, ..s }
                        } else {
                            s
                        },
                    ),
                    None => None,
                },
            },
            ..known
        },
        Reconciliation::AttachMatrix { matrix, .. } => Message {
            delivery: DeliverySet { matrix: Some(matrix), ..known.delivery },
            ..known
        },
        Reconciliation::AttachSms { sms, .. } => Message {
            delivery: DeliverySet {
                sms: Some(
                    if sms.local_copy == SmsLocalCopy::Removed && !row_deleted {
                        SmsDelivery { local_copy: SmsLocalCopy::Present, ..sms }
                    } else {
                        sms
                    },
                ),
                ..known.delivery
            },
            ..known
        },
        Reconciliation::Ignore => known,
    }
}

/// Arrival is idempotent: once a copy has been reconciled and the result
/// carried out, the same copy arriving again is ignored, whether or not the
/// SMS row could be removed. No message is ever stored twice.
pub proof fn law_second_arrival_is_ignored(
    incoming: Incoming,
    existing: Option<Message>,
    local_id: MessageId,
    other_id: MessageId,
    direction: Direction,
    row_deleted: bool,
)
    requires
        existing matches Some(known) ==> known.tag == incoming_tag(incoming),
    ensures
        ({
            let r = spec_reconcile(incoming, existing, local_id, direction);
            let known = match existing {
                Some(k) => k,
                None => spec_new_record(incoming, local_id, direction),
            };
            let kept = spec_settle(known, r, row_deleted);
            &&& kept.tag == incoming_tag(incoming)
            &&& kept.conversation@ == incoming_conversation(incoming)@
            &&& spec_reconcile(incoming, Some(kept), other_id, direction) == Reconciliation::Ignore
        }),
{
}

/// A message arriving over both transports ends up as one record carrying
/// both deliveries, whichever transport arrived first: the copy that arrives
/// second is attached to the record the first one created.
pub proof fn law_both_orders_reconcile(
    via_matrix: IncomingMatrix,
    via_sms: IncomingSms,
    id1: MessageId,
    id2: MessageId,
    direction: Direction,
    row_deleted: bool,
)
    requires
        via_matrix.conversation@ == via_sms.conversation@,
        via_matrix.tag == via_sms.tag,
    ensures
        ({
            let m = Incoming::Matrix(via_matrix);
            let s = Incoming::Sms(via_sms);
            let first_sms = spec_new_record(s, id1, direction);
            let r1 = spec_reconcile(m, Some(first_sms), id2, direction);
            let after1 = spec_settle(first_sms, r1, row_deleted);
            let first_matrix = spec_new_record(m, id1, direction);
            let r2 = spec_reconcile(s, Some(first_matrix), id2, direction);
            let after2 = spec_settle(first_matrix, r2, row_deleted);
            &&& r1 is Supersede
            &&& r2 is AttachSms
            &&& after1.id == id1 && after2.id == id1
            &&& after1.delivery.matrix == Some(via_matrix.delivery)
            &&& after2.delivery.matrix == Some(via_matrix.delivery)
            &&& after1.delivery.sms is Some && after2.delivery.sms is Some
            &&& (row_deleted ==> after1.delivery.sms->0.local_copy == SmsLocalCopy::Removed)
            &&& (row_deleted ==> after2.delivery.sms->0.local_copy == SmsLocalCopy::Removed)
        }),
{
}

} // verus!
