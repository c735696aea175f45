//! Sending: composing a message, then pumping the outbox, where each entry
//! is taken through Matrix, the SMS fallback and the Matrix backfill as the
//! outbox decides.

use vstd::prelude::*;
use crate::activity::{lemma_keep_newest_last, logged_next, Activity};
use crate::client::{client_state_ok, entry_ok, Client};
use crate::directory::{by_peer, Contact};
use crate::error::TransportError;
use crate::id::{base32_digits, MessageId, ShortTag, MESSAGE_ID_LEN};
use crate::ids::IdGen;
use crate::message::{
    DeliverySet, Direction, MatrixDelivery, Message, MessageState, SmsDelivery, SmsLocalCopy,
};
use crate::outbox::{
    law_well_formed_entries_are_decidable, next_action, spec_next_action, NetStatus, OutboxEntry,
    SendDecision, TransportState, MAX_SMS_ATTEMPTS,
};
use crate::peer::{ConversationId, MatrixUserId, PeerId, PhoneNumber, SmsRowId};
use crate::schema::{txn_id_for, TXN_PREFIX};
use crate::seqs::{
    first_index, first_of, lemma_first_index_facts, replace_first, replace_or_push,
};
use crate::sms_frame::{encode, spec_encode};
use crate::store::{
    entry_other_than, entry_with_id, law_enqueue_deduplicates, law_upsert_keeps_store_wf,
    outbox_ids_unique, spec_upsert, with_id, StoreView, tags_resolve, law_upsert_keeps_tags_resolving,
    spec_find_by_tag,
};
use crate::ports::{ConnectivityMonitor, Directory, MessageStore};
use crate::transport::{MatrixSendRequest, MatrixTransport, SmsTransport};

verus! {

/// How many decisions one pump takes for one entry at most.
pub const MAX_STEPS_PER_ENTRY: usize = 4;

/// What one pump of the outbox did.
#[derive(Debug, Clone, Copy, PartialEq, Eq, Structural)]
pub struct PumpReport {
    pub sent_via_matrix: usize,
    pub fell_back_to_sms: usize,
    pub backfilled: usize,
    pub failed: usize,
    /// Entries left in the outbox afterwards.
    pub still_queued: usize,
}

impl Default for PumpReport {
    fn default() -> (r: Self)
        ensures
            r.sent_via_matrix == 0 && r.fell_back_to_sms == 0 && r.backfilled == 0 && r.failed
                == 0 && r.still_queued == 0,
    {
        PumpReport {
            sent_via_matrix: 0,
            fell_back_to_sms: 0,
            backfilled: 0,
            failed: 0,
            still_queued: 0,
        }
    }
}

/// Why a message is given up.
pub const ABANDON_REASON: &'static str = "no transport could deliver this message";

/// Why a message went out over SMS.
pub const FALLBACK_REASON: &'static str = "matrix unavailable";

/// The record of a message just written by `me` to `peer`.
pub open spec fn composed_message(
    id: MessageId,
    me: PeerId,
    peer: Seq<char>,
    body: Seq<char>,
    now_ms: u64,
    m: Message,
) -> bool {
    &&& m.id == id
    &&& m.tag.0 as int == id.0 as int % crate::id::tag_span()
    &&& m.conversation@ == peer
    &&& m.author == me
    &&& m.direction == Direction::Outgoing
    &&& m.body@ == body
    &&& m.origin_ts == now_ms
    &&& m.delivery == DeliverySet { matrix: None, sms: None }
    &&& m.state == MessageState::Pending
}

/// The outbox entry of a message just written to `peer`.
pub open spec fn composed_entry(id: MessageId, peer: Seq<char>, body: Seq<char>, now_ms: u64, e: OutboxEntry) -> bool {
    &&& e.id == id
    &&& e.conversation@ == peer
    &&& e.peer@ == peer
    &&& e.body@ == body
    &&& e.origin_ts == now_ms
    &&& e.matrix == TransportState::Pending
    &&& e.sms == TransportState::Pending
    &&& e.matrix_attempts == 0
    &&& e.sms_attempts == 0
    &&& e.next_matrix_attempt_ms == 0
}

/// A message sent while the device has data goes over Matrix first, and
/// once Matrix has carried it nothing more is sent, whatever the connection
/// then: a normal send costs no SMS.
pub proof fn law_online_send_needs_no_sms(
    e: OutboxEntry,
    net: NetStatus,
    later: NetStatus,
    now_ms: u64,
    later_ms: u64,
)
    requires
        e.matrix == TransportState::Pending,
        e.sms == TransportState::Pending,
        net != NetStatus::Offline,
    ensures
        spec_next_action(e, net, now_ms) == SendDecision::TryMatrix,
        spec_next_action(
            OutboxEntry {
                matrix: TransportState::Done,
                matrix_attempts: (e.matrix_attempts + 1) as u32,
                ..e
            },
            later,
            later_ms,
        ) == SendDecision::Done,
{
}

/// The store with every entry for message `id` taken off the outbox.
pub open spec fn retired(v: StoreView, id: MessageId) -> StoreView {
    StoreView { outbox: v.outbox.filter(entry_other_than(id)), ..v }
}

/// The store with the queued entry for `e`'s message replaced by `e`.
pub open spec fn with_entry(v: StoreView, e: OutboxEntry) -> StoreView {
    StoreView { outbox: replace_first(v.outbox, entry_with_id(e.id), e), ..v }
}

/// The store with message `id` carried over Matrix by `d`.
pub open spec fn with_matrix_delivery(v: StoreView, id: MessageId, d: MatrixDelivery) -> StoreView {
    match first_of(v.messages, with_id(id)) {
        Some(m) => spec_upsert(
            v,
            Message {
                delivery: DeliverySet { matrix: Some(d), sms: m.delivery.sms },
                state: MessageState::Sent,
                ..m
            },
        ),
        None => v,
    }
}

/// The store with message `id` carried over SMS by `d`.
pub open spec fn with_sms_delivery(v: StoreView, id: MessageId, d: SmsDelivery) -> StoreView {
    match first_of(v.messages, with_id(id)) {
        Some(m) => spec_upsert(
            v,
            Message {
                delivery: DeliverySet { matrix: m.delivery.matrix, sms: Some(d) },
                state: MessageState::Sent,
                ..m
            },
        ),
        None => v,
    }
}

/// The store with message `id` marked failed for `reason`.
pub open spec fn with_failure(v: StoreView, id: MessageId, reason: String) -> StoreView {
    match first_of(v.messages, with_id(id)) {
        Some(m) => spec_upsert(v, Message { state: MessageState::Failed(reason), ..m }),
        None => v,
    }
}

/// Two records are of one message: only its deliveries and state differ.
pub open spec fn same_message(a: Message, b: Message) -> bool {
    &&& a.id == b.id
    &&& a.tag == b.tag
    &&& a.conversation == b.conversation
    &&& a.author == b.author
    &&& a.direction == b.direction
    &&& a.body == b.body
    &&& a.origin_ts == b.origin_ts
}

/// `after` holds the messages of `before`, each at its place, changed at
/// most in its deliveries and state.
pub open spec fn same_messages(before: Seq<Message>, after: Seq<Message>) -> bool {
    &&& after.len() == before.len()
    &&& forall|i: int| 0 <= i < before.len() ==> same_message(#[trigger] before[i], after[i])
}

/// No entry of `before` that Matrix had carried is left in `after`.
pub open spec fn carried_retired(before: Seq<OutboxEntry>, after: Seq<OutboxEntry>) -> bool {
    forall|a: int, b: int|
        0 <= a < before.len() && before[a].matrix == TransportState::Done && 0 <= b < after.len()
            ==> #[trigger] after[b].id != #[trigger] before[a].id
}

/// `after` is `before` with more at its end.
pub open spec fn extends<A>(before: Seq<A>, after: Seq<A>) -> bool {
    before.len() <= after.len() && after.take(before.len() as int) == before
}

/// `r` is the Matrix request for `entry`, addressed to `to`: its
/// conversation, body, id and time, under the message's transaction id,
/// marked as a backfill when `is_backfill`.
pub open spec fn request_for(r: MatrixSendRequest, entry: OutboxEntry, to: MatrixUserId, is_backfill: bool) -> bool {
    &&& r.conversation == entry.conversation
    &&& r.to == to
    &&& r.body == entry.body
    &&& r.message_id == entry.id
    &&& r.origin_ts == entry.origin_ts
    &&& r.via_sms_fallback == is_backfill
    &&& r.txn_id@ == TXN_PREFIX@ + base32_digits(entry.id.0 as nat, MESSAGE_ID_LEN as nat)
}

/// The SMS text for `entry`: its body, then the trailer with its tag.
pub open spec fn sms_text_for(entry: OutboxEntry) -> Seq<char> {
    spec_encode(entry.body@, ShortTag((entry.id.0 as int % crate::id::tag_span()) as u64))
}

/// Message `id` of `messages` was carried over Matrix by `d`, and is sent.
pub open spec fn carried_by_matrix(messages: Seq<Message>, id: MessageId, d: MatrixDelivery) -> bool {
    first_of(messages, with_id(id)) matches Some(m) && m.delivery.matrix == Some(d) && m.state
        == MessageState::Sent
}

/// Message `id` of `messages` was carried over SMS by `d`, and is sent.
pub open spec fn carried_by_sms(messages: Seq<Message>, id: MessageId, d: SmsDelivery) -> bool {
    first_of(messages, with_id(id)) matches Some(m) && m.delivery.sms == Some(d) && m.state
        == MessageState::Sent
}

/// The first request a pump makes for `entry`, on a Matrix log that went
/// from `before` to `after`, is the request for it to `to`; when Matrix took
/// it, the message (if stored) is carried by Matrix and the connection is
/// known to be up.
pub open spec fn matrix_asked_first(
    before: Seq<(MatrixSendRequest, Result<MatrixDelivery, TransportError>)>,
    after: Seq<(MatrixSendRequest, Result<MatrixDelivery, TransportError>)>,
    entry: OutboxEntry,
    to: MatrixUserId,
    is_backfill: bool,
    messages: Seq<Message>,
    stored: bool,
    status: NetStatus,
) -> bool {
    &&& before.len() < after.len()
    &&& request_for(after[before.len() as int].0, entry, to, is_backfill)
    &&& after[before.len() as int].1 matches Ok(d) ==> (stored ==> carried_by_matrix(messages, entry.id, d))
        && status == NetStatus::Online
}

/// The first SMS a pump sends for `entry`, on an SMS log that went from
/// `before` to `after`, is its text with the trailer, to `phone`; when the
/// carrier took it, the message (if stored) is carried by SMS under the row
/// the phone gave it.
pub open spec fn sms_asked_first(
    before: Seq<(PhoneNumber, Seq<char>, Result<SmsRowId, TransportError>)>,
    after: Seq<(PhoneNumber, Seq<char>, Result<SmsRowId, TransportError>)>,
    entry: OutboxEntry,
    phone: PhoneNumber,
    now_ms: u64,
    messages: Seq<Message>,
    stored: bool,
) -> bool {
    &&& before.len() < after.len()
    &&& after[before.len() as int].0 == phone
    &&& after[before.len() as int].1 == sms_text_for(entry)
    &&& after[before.len() as int].2 matches Ok(row) ==> (stored ==> carried_by_sms(
        messages,
        entry.id,
        SmsDelivery { row, ts: now_ms, local_copy: SmsLocalCopy::Present },
    ))
}

/// Message `id` went out between two states of the transports' logs: a
/// Matrix request for it, or an SMS with the text `text`.
pub open spec fn handed_over(
    id: MessageId,
    text: Seq<char>,
    matrix_before: Seq<(MatrixSendRequest, Result<MatrixDelivery, TransportError>)>,
    matrix_after: Seq<(MatrixSendRequest, Result<MatrixDelivery, TransportError>)>,
    sms_before: Seq<(PhoneNumber, Seq<char>, Result<SmsRowId, TransportError>)>,
    sms_after: Seq<(PhoneNumber, Seq<char>, Result<SmsRowId, TransportError>)>,
) -> bool {
    ||| exists|j: int|
        matrix_before.len() <= j < matrix_after.len() && #[trigger] matrix_after[j].0.message_id == id
    ||| exists|j: int| sms_before.len() <= j < sms_after.len() && #[trigger] sms_after[j].1 == text
}

/// A Matrix request between two states of the log got through: a backfill
/// when `backfill`, a first send otherwise.
pub open spec fn matrix_took(
    before: Seq<(MatrixSendRequest, Result<MatrixDelivery, TransportError>)>,
    after: Seq<(MatrixSendRequest, Result<MatrixDelivery, TransportError>)>,
    backfill: bool,
) -> bool {
    exists|j: int| before.len() <= j < after.len() && (#[trigger] after[j]).1 is Ok && after[j].0.via_sms_fallback == backfill
}

/// An SMS between two states of the log got through.
pub open spec fn sms_took(
    before: Seq<(PhoneNumber, Seq<char>, Result<SmsRowId, TransportError>)>,
    after: Seq<(PhoneNumber, Seq<char>, Result<SmsRowId, TransportError>)>,
) -> bool {
    exists|j: int| before.len() <= j < after.len() && (#[trigger] after[j]).2 is Ok
}

/// One when `b` holds, none otherwise.
pub open spec fn one_if(b: bool) -> int {
    if b {
        1
    } else {
        0
    }
}

/// `entry` left the outbox `outbox` uncarried: no longer queued, though
/// Matrix had not carried it before and carried it neither as a send nor as
/// a backfill between the two states of the Matrix log.
pub open spec fn left_uncarried(
    entry: OutboxEntry,
    matrix_before: Seq<(MatrixSendRequest, Result<MatrixDelivery, TransportError>)>,
    matrix_after: Seq<(MatrixSendRequest, Result<MatrixDelivery, TransportError>)>,
    outbox: Seq<OutboxEntry>,
) -> bool {
    &&& !queued(outbox, entry.id)
    &&& entry.matrix != TransportState::Done
    &&& !matrix_took(matrix_before, matrix_after, false)
    &&& !matrix_took(matrix_before, matrix_after, true)
}

/// A Matrix log that grew by one got through as before, or through its new
/// request.
proof fn lemma_matrix_took_push(
    o: Seq<(MatrixSendRequest, Result<MatrixDelivery, TransportError>)>,
    m: Seq<(MatrixSendRequest, Result<MatrixDelivery, TransportError>)>,
    m2: Seq<(MatrixSendRequest, Result<MatrixDelivery, TransportError>)>,
)
    requires
        o.len() <= m.len(),
        m2.len() == m.len() + 1,
        m2.take(m.len() as int) == m,
    ensures
        forall|b: bool| #[trigger] matrix_took(o, m2, b) == (matrix_took(o, m, b) || (m2.last().1 is Ok
            && m2.last().0.via_sms_fallback == b)),
{
    assert forall|i: int| 0 <= i < m.len() implies #[trigger] m2[i] == m[i] by {
        assert(m2.take(m.len() as int)[i] == m2[i]);
    }
    assert forall|b: bool| #[trigger] matrix_took(o, m2, b) == (matrix_took(o, m, b) || (m2.last().1 is Ok
        && m2.last().0.via_sms_fallback == b)) by {
        if matrix_took(o, m, b) {
            let j = choose|j: int| o.len() <= j < m.len() && (#[trigger] m[j]).1 is Ok && m[j].0.via_sms_fallback == b;
            assert(m2[j] == m[j]);
        }
        if m2.last().1 is Ok && m2.last().0.via_sms_fallback == b {
            assert(m2[m.len() as int] == m2.last());
        }
        if matrix_took(o, m2, b) {
            let j = choose|j: int| o.len() <= j < m2.len() && (#[trigger] m2[j]).1 is Ok && m2[j].0.via_sms_fallback == b;
            if j < m.len() {
                assert(m[j] == m2[j]);
            }
        }
    }
}

/// An SMS log that grew by one got through as before, or through its new
/// SMS.
proof fn lemma_sms_took_push(
    o: Seq<(PhoneNumber, Seq<char>, Result<SmsRowId, TransportError>)>,
    m: Seq<(PhoneNumber, Seq<char>, Result<SmsRowId, TransportError>)>,
    m2: Seq<(PhoneNumber, Seq<char>, Result<SmsRowId, TransportError>)>,
)
    requires
        o.len() <= m.len(),
        m2.len() == m.len() + 1,
        m2.take(m.len() as int) == m,
    ensures
        sms_took(o, m2) == (sms_took(o, m) || m2.last().2 is Ok),
{
    assert forall|i: int| 0 <= i < m.len() implies #[trigger] m2[i] == m[i] by {
        assert(m2.take(m.len() as int)[i] == m2[i]);
    }
    if sms_took(o, m) {
        let j = choose|j: int| o.len() <= j < m.len() && (#[trigger] m[j]).2 is Ok;
        assert(m2[j] == m[j]);
    }
    if m2.last().2 is Ok {
        assert(m2[m.len() as int] == m2.last());
    }
    if sms_took(o, m2) {
        let j = choose|j: int| o.len() <= j < m2.len() && (#[trigger] m2[j]).2 is Ok;
        if j < m.len() {
            assert(m[j] == m2[j]);
        }
    }
}

/// An entry no transport has tried yet.
pub open spec fn untried(e: OutboxEntry) -> bool {
    e.matrix == TransportState::Pending && e.sms == TransportState::Pending
}

/// A log that grew twice grew once, keeping what it held.
proof fn lemma_extends_trans<A>(a: Seq<A>, b: Seq<A>, c: Seq<A>)
    requires
        extends(a, b),
        extends(b, c),
    ensures
        extends(a, c),
        forall|i: int| 0 <= i < b.len() ==> #[trigger] c[i] == b[i],
{
    assert forall|i: int| 0 <= i < b.len() implies #[trigger] c[i] == b[i] by {
        assert(c.take(b.len() as int)[i] == c[i]);
    }
    assert(c.take(a.len() as int) =~= a) by {
        assert forall|i: int| 0 <= i < a.len() implies c.take(a.len() as int)[i] == a[i] by {
            assert(b.take(a.len() as int)[i] == b[i]);
        }
    }
}

/// Every entry of `outbox` leaves room for the Matrix attempts of one pump.
pub open spec fn pump_room(outbox: Seq<OutboxEntry>) -> bool {
    forall|i: int|
        0 <= i < outbox.len() ==> #[trigger] outbox[i].matrix_attempts <= u32::MAX - MAX_STEPS_PER_ENTRY
}

/// `messages` hold message `id`, written by `me` to `peer` with `body`.
pub open spec fn has_written(
    messages: Seq<Message>,
    id: MessageId,
    me: PeerId,
    peer: Seq<char>,
    body: Seq<char>,
) -> bool {
    exists|k: int|
        0 <= k < messages.len() && #[trigger] messages[k].id == id && messages[k].author == me
            && messages[k].conversation@ == peer && messages[k].body@ == body
            && messages[k].direction == Direction::Outgoing
}

/// Every entry of `after` is for a message queued in `before`.
pub open spec fn queued_before(before: Seq<OutboxEntry>, after: Seq<OutboxEntry>) -> bool {
    forall|j: int|
        0 <= j < after.len() ==> exists|i: int| 0 <= i < before.len() && before[i].id == #[trigger] after[j].id
}

/// Replacing a message by a record of the same message keeps the messages.
proof fn lemma_upsert_same_message(v: StoreView, m: Message)
    requires
        first_of(v.messages, with_id(m.id)) matches Some(prev) && same_message(prev, m),
    ensures
        same_messages(v.messages, spec_upsert(v, m).messages),
{
    lemma_first_index_facts(v.messages, with_id(m.id));
}

/// Updating a queued entry keeps one entry per id, keeps every entry
/// workable, and queues nothing new.
proof fn lemma_update_entry(v: StoreView, e: OutboxEntry)
    requires
        client_state_ok(v),
        entry_ok(e),
    ensures
        client_state_ok(with_entry(v, e)),
        queued_before(v.outbox, with_entry(v, e).outbox),
        with_entry(v, e).messages == v.messages,
{
    lemma_first_index_facts(v.outbox, entry_with_id(e.id));
    let r = with_entry(v, e).outbox;
    match first_index(v.outbox, entry_with_id(e.id)) {
        Some(i) => {
            assert forall|a: int, b: int|
                0 <= a < r.len() && 0 <= b < r.len() && #[trigger] r[a].id == #[trigger] r[b].id implies a == b by {
                if a != i && b != i {
                    assert(r[a] == v.outbox[a] && r[b] == v.outbox[b]);
                } else if a == i && b != i {
                    assert(r[b] == v.outbox[b]);
                } else if b == i && a != i {
                    assert(r[a] == v.outbox[a]);
                }
            }
            assert forall|k: int| 0 <= k < r.len() implies entry_ok(#[trigger] r[k]) by {
                if k != i {
                    assert(r[k] == v.outbox[k]);
                }
            }
            assert forall|j: int| 0 <= j < r.len() implies exists|i2: int|
                0 <= i2 < v.outbox.len() && v.outbox[i2].id == #[trigger] r[j].id by {
                assert(v.outbox[j].id == r[j].id);
            }
        },
        None => {
            assert forall|j: int| 0 <= j < r.len() implies exists|i2: int|
                0 <= i2 < v.outbox.len() && v.outbox[i2].id == #[trigger] r[j].id by {
                assert(v.outbox[j].id == r[j].id);
            }
        },
    }
}

/// After SMS carried message `id`, its entry stays queued waiting for the
/// backfill, unless Matrix then carried it too, on the Matrix log going
/// from `m0` to `m1`, and the entry left the outbox.
pub open spec fn sms_then_waits(
    outbox: Seq<OutboxEntry>,
    id: MessageId,
    m0: Seq<(MatrixSendRequest, Result<MatrixDelivery, TransportError>)>,
    m1: Seq<(MatrixSendRequest, Result<MatrixDelivery, TransportError>)>,
) -> bool {
    ||| awaiting_backfill(outbox, id)
    ||| !queued(outbox, id) && exists|j: int|
        m0.len() <= j < m1.len() && #[trigger] m1[j].0.message_id == id && m1[j].1 is Ok
}

/// What taking `entry` through its decisions did, starting from the
/// connection status `status0` with the contacts `contacts`, the transports'
/// logs going from `m0`, `s0` to `m1`, `s1`, ending with the store `v` and
/// the status `status1`; `stored` is whether its message was stored.
///
/// An offline device asks nothing of Matrix and stays offline. A peer with
/// no contact is asked nothing. Otherwise the first decision says which
/// transport is asked first, and with what. A message Matrix took leaves
/// the outbox; one SMS took stays queued for the backfill; a Matrix
/// failure falls back to SMS, and an unreachable homeserver leaves the
/// device offline.
pub open spec fn entry_outcome(
    entry: OutboxEntry,
    status0: NetStatus,
    now_ms: u64,
    contacts: Seq<Contact>,
    m0: Seq<(MatrixSendRequest, Result<MatrixDelivery, TransportError>)>,
    m1: Seq<(MatrixSendRequest, Result<MatrixDelivery, TransportError>)>,
    s0: Seq<(PhoneNumber, Seq<char>, Result<SmsRowId, TransportError>)>,
    s1: Seq<(PhoneNumber, Seq<char>, Result<SmsRowId, TransportError>)>,
    v: StoreView,
    status1: NetStatus,
    stored: bool,
) -> bool {
    &&& status0 == NetStatus::Offline ==> status1 == NetStatus::Offline && m1 == m0
    &&& match first_of(contacts, by_peer(entry.peer@)) {
        None => m1 == m0 && s1 == s0,
        Some(c) => match spec_next_action(entry, status0, now_ms) {
            SendDecision::TryMatrix => {
                &&& matrix_asked_first(m0, m1, entry, c.matrix_id, false, v.messages, stored, status1)
                &&& m1[m0.len() as int].1 is Ok ==> !queued(v.outbox, entry.id)
                &&& (m1[m0.len() as int].1 matches Err(err) ==> (entry.sms_attempts < MAX_SMS_ATTEMPTS
                    ==> sms_asked_first(s0, s1, entry, c.phone, now_ms, v.messages, stored) && (
                s1[s0.len() as int].2 is Ok ==> sms_then_waits(v.outbox, entry.id, m0, m1))) && (err is Unreachable
                    ==> status1 == NetStatus::Offline))
            },
            SendDecision::BackfillMatrix => {
                &&& matrix_asked_first(m0, m1, entry, c.matrix_id, true, v.messages, stored, status1)
                &&& m1[m0.len() as int].1 is Ok ==> !queued(v.outbox, entry.id)
            },
            SendDecision::FallbackToSms => {
                &&& sms_asked_first(s0, s1, entry, c.phone, now_ms, v.messages, stored)
                &&& s1[s0.len() as int].2 is Ok ==> sms_then_waits(v.outbox, entry.id, m0, m1)
            },
            _ => true,
        },
    }
}

/// Where a pump stands between two entries: the store, the connection
/// status, and what each transport was asked so far.
#[verifier::ext_equal]
pub struct PumpPoint {
    pub store: StoreView,
    pub status: NetStatus,
    pub matrix_log: Seq<(MatrixSendRequest, Result<MatrixDelivery, TransportError>)>,
    pub sms_log: Seq<(PhoneNumber, Seq<char>, Result<SmsRowId, TransportError>)>,
}

/// The pump went through `entries` in turn, standing at `points[k]` before
/// entry `k` and at `points[k + 1]` after it: each entry's decisions went
/// as `entry_outcome` says, leaving every other entry alone.
pub open spec fn pumped_through(
    entries: Seq<OutboxEntry>,
    points: Seq<PumpPoint>,
    now_ms: u64,
    contacts: Seq<Contact>,
) -> bool {
    &&& points.len() == entries.len() + 1
    &&& forall|k: int|
        #![trigger entries[k]]
        0 <= k < entries.len() ==> entry_outcome(
            entries[k],
            points[k].status,
            now_ms,
            contacts,
            points[k].matrix_log,
            points[k + 1].matrix_log,
            points[k].sms_log,
            points[k + 1].sms_log,
            points[k + 1].store,
            points[k + 1].status,
            first_of(points[k].store.messages, with_id(entries[k].id)) is Some,
        ) && others_kept(points[k].store.outbox, points[k + 1].store.outbox, entries[k].id)
}

/// An entry for message `id` is queued in `outbox`.
pub open spec fn queued(outbox: Seq<OutboxEntry>, id: MessageId) -> bool {
    exists|j: int| 0 <= j < outbox.len() && #[trigger] outbox[j].id == id
}

/// Message `id` is queued with SMS done: carried by SMS, waiting for the
/// backfill to Matrix.
pub open spec fn awaiting_backfill(outbox: Seq<OutboxEntry>, id: MessageId) -> bool {
    exists|j: int|
        0 <= j < outbox.len() && #[trigger] outbox[j].id == id && outbox[j].sms == TransportState::Done
}

/// Every entry for a message other than `id` is in `after` exactly when it
/// is in `before`.
pub open spec fn others_kept(before: Seq<OutboxEntry>, after: Seq<OutboxEntry>, id: MessageId) -> bool {
    forall|e: OutboxEntry|
        #![trigger before.contains(e)]
        #![trigger after.contains(e)]
        e.id != id ==> (before.contains(e) <==> after.contains(e))
}

proof fn lemma_others_kept_trans(a: Seq<OutboxEntry>, b: Seq<OutboxEntry>, c: Seq<OutboxEntry>, id: MessageId)
    requires
        others_kept(a, b, id),
        others_kept(b, c, id),
    ensures
        others_kept(a, c, id),
{
}

/// Updating the queued entry of a message puts the new entry in its place
/// and touches no other entry.
proof fn lemma_replace_entry(outbox: Seq<OutboxEntry>, e: OutboxEntry)
    requires
        queued(outbox, e.id),
    ensures
        replace_first(outbox, entry_with_id(e.id), e).contains(e),
        queued(replace_first(outbox, entry_with_id(e.id), e), e.id),
        others_kept(outbox, replace_first(outbox, entry_with_id(e.id), e), e.id),
{
    lemma_first_index_facts(outbox, entry_with_id(e.id));
    let i = first_index(outbox, entry_with_id(e.id)).unwrap();
    let r = replace_first(outbox, entry_with_id(e.id), e);
    assert(r[i] == e);
    assert forall|x: OutboxEntry|
        #![trigger outbox.contains(x)]
        #![trigger r.contains(x)]
        x.id != e.id implies (outbox.contains(x) <==> r.contains(x)) by {
        if outbox.contains(x) {
            let j = choose|j: int| 0 <= j < outbox.len() && outbox[j] == x;
            assert(j != i);
            assert(r[j] == x);
        }
        if r.contains(x) {
            let j = choose|j: int| 0 <= j < r.len() && r[j] == x;
            assert(j != i);
            assert(outbox[j] == x);
        }
    }
}

/// Taking the entries of message `id` off the outbox leaves none for it
/// and touches no other entry.
proof fn lemma_retire_entry(outbox: Seq<OutboxEntry>, id: MessageId)
    ensures
        !queued(outbox.filter(entry_other_than(id)), id),
        others_kept(outbox, outbox.filter(entry_other_than(id)), id),
{
    let r = outbox.filter(entry_other_than(id));
    crate::store::law_retire_removes_only_the_named_entry(outbox, id);
    assert forall|x: OutboxEntry|
        #![trigger outbox.contains(x)]
        #![trigger r.contains(x)]
        x.id != id implies (outbox.contains(x) <==> r.contains(x)) by {
        if outbox.contains(x) {
            let j = choose|j: int| 0 <= j < outbox.len() && outbox[j] == x;
            assert(r.contains(outbox[j]));
        }
        if r.contains(x) {
            outbox.lemma_filter_contains_rev(entry_other_than(id), x);
        }
    }
}

/// Taking an entry off the outbox keeps the client consistent and queues
/// nothing new.
proof fn lemma_retire(v: StoreView, id: MessageId)
    requires
        client_state_ok(v),
    ensures
        client_state_ok(StoreView { outbox: v.outbox.filter(entry_other_than(id)), ..v }),
        queued_before(v.outbox, v.outbox.filter(entry_other_than(id))),
{
    let pred = entry_other_than(id);
    let r = v.outbox.filter(pred);
    assert forall|k: int| 0 <= k < r.len() implies v.outbox.contains(#[trigger] r[k]) by {
        v.outbox.lemma_filter_contains_rev(pred, r[k]);
    }
    assert forall|a: int, b: int|
        0 <= a < r.len() && 0 <= b < r.len() && #[trigger] r[a].id == #[trigger] r[b].id implies a == b by {
        lemma_filter_keeps_distinct_ids(v.outbox, pred, a, b);
    }
    assert forall|k: int| 0 <= k < r.len() implies entry_ok(#[trigger] r[k]) by {
        assert(v.outbox.contains(r[k]));
    }
    assert forall|j: int| 0 <= j < r.len() implies exists|i: int|
        0 <= i < v.outbox.len() && v.outbox[i].id == #[trigger] r[j].id by {
        assert(v.outbox.contains(r[j]));
    }
}

/// Filtering a sequence with one entry per id keeps one entry per id.
proof fn lemma_filter_keeps_distinct_ids(s: Seq<OutboxEntry>, pred: spec_fn(OutboxEntry) -> bool, a: int, b: int)
    requires
        outbox_ids_unique(s),
        0 <= a < s.filter(pred).len(),
        0 <= b < s.filter(pred).len(),
        s.filter(pred)[a].id == s.filter(pred)[b].id,
    ensures
        a == b,
    decreases s.len(),
{
    reveal_with_fuel(Seq::filter, 1);
    if s.len() > 0 {
        let init = s.drop_last();
        assert forall|i: int, j: int|
            0 <= i < init.len() && 0 <= j < init.len() && #[trigger] init[i].id == #[trigger] init[j].id implies i == j by {
            assert(init[i] == s[i] && init[j] == s[j]);
        }
        let fi = init.filter(pred);
        if pred(s.last()) {
            let n = fi.len() as int;
            if a < n && b < n {
                lemma_filter_keeps_distinct_ids(init, pred, a, b);
            } else if a < n {
                assert(init.contains(fi[a])) by {
                    init.lemma_filter_contains_rev(pred, fi[a]);
                }
                let k = choose|k: int| 0 <= k < init.len() && init[k] == fi[a];
                assert(s[k].id == s[s.len() - 1].id);
            } else if b < n {
                assert(init.contains(fi[b])) by {
                    init.lemma_filter_contains_rev(pred, fi[b]);
                }
                let k = choose|k: int| 0 <= k < init.len() && init[k] == fi[b];
                assert(s[k].id == s[s.len() - 1].id);
            }
        } else {
            lemma_filter_keeps_distinct_ids(init, pred, a, b);
        }
    }
}

impl<S: MessageStore, N: ConnectivityMonitor, I: IdGen, D: Directory> Client<S, N, I, D> {
    /// Writes a message to `peer` and queues it, without sending yet; the
    /// new message's id comes back.
    pub fn compose(&mut self, now_ms: u64, peer: &PeerId, body: &str) -> (id: MessageId)
        requires
            old(self).wf(),
        ensures
            tags_resolve(old(self).stored()) && spec_find_by_tag(
                old(self).stored(),
                peer@,
                ShortTag((id.0 as int % crate::id::tag_span()) as u64),
            ) is None ==> tags_resolve(final(self).stored()),
            final(self).wf(),
            exists|m: Message, e: OutboxEntry|
                #![trigger composed_message(id, old(self).user(), peer@, body@, now_ms, m), composed_entry(id, peer@, body@, now_ms, e)]
                composed_message(id, old(self).user(), peer@, body@, now_ms, m)
                    && composed_entry(id, peer@, body@, now_ms, e) && final(self).stored()
                    == (StoreView {
                    outbox: replace_or_push(
                        old(self).stored().outbox,
                        entry_with_id(id),
                        e,
                    ),
                    ..spec_upsert(old(self).stored(), m)
                }),
            final(self).status() == old(self).status(),
            final(self).user() == old(self).user(),
            final(self).known_contacts() == old(self).known_contacts(),
            logged_next(old(self).logged(), final(self).logged(), now_ms),
            final(self).logged().last().activity matches Activity::Composed { id: i, body: b } && i == id
                && b@ == body@,
    {
        proof {
            lemma_keep_newest_last();
        }
        let id = self.ids.mint(now_ms);
        let conversation = ConversationId::with_peer(peer);
        let message = Message {
            id,
            tag: id.short_tag(),
            conversation: conversation.clone(),
            author: self.me.clone(),
            direction: Direction::Outgoing,
            body: body.to_owned(),
            origin_ts: now_ms,
            delivery: DeliverySet::default(),
            state: MessageState::Pending,
        };
        let entry = OutboxEntry::new(id, conversation, peer.clone(), body.to_owned(), now_ms);
        let ghost v = self.store.stored();
        let ghost m = message;
        let ghost e = entry;
        proof {
            law_upsert_keeps_store_wf(v, message);
            if tags_resolve(v) && spec_find_by_tag(v, peer@, message.tag) is None {
                law_upsert_keeps_tags_resolving(v, message);
            }
        }
        self.store.upsert(message);
        proof {
            law_enqueue_deduplicates(self.store.stored().outbox, e);
            lemma_first_index_facts(self.store.stored().outbox, entry_with_id(e.id));
            let r = replace_or_push(self.store.stored().outbox, entry_with_id(e.id), e);
            assert forall|k: int| 0 <= k < r.len() implies entry_ok(#[trigger] r[k]) by {
                if k < self.store.stored().outbox.len() && r[k] != e {
                    assert(r[k] == self.store.stored().outbox[k]);
                }
            }
        }
        self.store.enqueue(entry);
        self.log.record(now_ms, Activity::Composed { id, body: body.to_owned() });
        proof {
            assert(composed_message(id, old(self).user(), peer@, body@, now_ms, m));
            assert(composed_entry(id, peer@, body@, now_ms, e));
        }
        id
    }

    /// Writes a message to `peer`, queues it and pumps the outbox; the new
    /// message's id comes back.
    pub fn send<M: MatrixTransport, T: SmsTransport>(
        &mut self,
        matrix: &mut M,
        sms: &mut T,
        now_ms: u64,
        peer: &PeerId,
        body: &str,
    ) -> (id: MessageId)
        requires
            old(self).wf(),
            forall|i: int|
                0 <= i < old(self).stored().outbox.len() ==> #[trigger] old(self).stored().outbox[i].matrix_attempts <= u32::MAX - MAX_STEPS_PER_ENTRY,
        ensures
            exists|m: Message, e: OutboxEntry, points: Seq<PumpPoint>|
                #![trigger composed_message(id, old(self).user(), peer@, body@, now_ms, m), pumped_through(replace_or_push(old(self).stored().outbox, entry_with_id(id), e), points, now_ms, old(self).known_contacts())]
                composed_message(id, old(self).user(), peer@, body@, now_ms, m) && composed_entry(
                    id,
                    peer@,
                    body@,
                    now_ms,
                    e,
                ) && pumped_through(
                    replace_or_push(old(self).stored().outbox, entry_with_id(id), e),
                    points,
                    now_ms,
                    old(self).known_contacts(),
                ) && points[0] == (PumpPoint {
                    store: StoreView {
                        outbox: replace_or_push(old(self).stored().outbox, entry_with_id(id), e),
                        ..spec_upsert(old(self).stored(), m)
                    },
                    status: old(self).status(),
                    matrix_log: old(matrix).sent(),
                    sms_log: old(sms).sent(),
                }) && points.last() == (PumpPoint {
                    store: final(self).stored(),
                    status: final(self).status(),
                    matrix_log: final(matrix).sent(),
                    sms_log: final(sms).sent(),
                }),
            tags_resolve(old(self).stored()) && spec_find_by_tag(
                old(self).stored(),
                peer@,
                ShortTag((id.0 as int % crate::id::tag_span()) as u64),
            ) is None ==> tags_resolve(final(self).stored()),
            final(matrix).account() == old(matrix).account(),
            final(matrix).link_on() == old(matrix).link_on(),
            forall|a: Seq<char>| #[trigger] final(matrix).link_of(a) == old(matrix).link_of(a),
            final(matrix).service_up() == old(matrix).service_up(),
            final(self).wf(),
            final(self).user() == old(self).user(),
            final(self).known_contacts() == old(self).known_contacts(),
            crate::ingest::ids_kept(old(self).stored().messages, final(self).stored().messages),
            exists|k: int|
                0 <= k < final(self).stored().messages.len() && #[trigger] final(self).stored().messages[k].id == id && final(self).stored().messages[k].body@
                    == body@ && final(self).stored().messages[k].origin_ts == now_ms && final(self).stored().messages[k].conversation@ == peer@ && final(self).stored().messages[k].direction == Direction::Outgoing && final(self).stored().messages[k].author == old(self).user(),
            old(self).status() == NetStatus::Offline ==> final(self).status() == NetStatus::Offline
                && final(matrix).sent() == old(matrix).sent(),
            old(self).status() == NetStatus::Online && old(matrix).link_on() && old(matrix).service_up()
                ==> final(self).status() == NetStatus::Online,
            old(self).stored().outbox.len() == 0 ==> exists|e: OutboxEntry|
                composed_entry(id, peer@, body@, now_ms, e) && #[trigger] entry_outcome(
                    e,
                    old(self).status(),
                    now_ms,
                    old(self).known_contacts(),
                    old(matrix).sent(),
                    final(matrix).sent(),
                    old(sms).sent(),
                    final(sms).sent(),
                    final(self).stored(),
                    final(self).status(),
                    true,
                ),
            old(self).stored().outbox.len() == 0 ==> forall|j: int|
                0 <= j < final(self).stored().outbox.len() ==> #[trigger] final(self).stored().outbox[j].id == id,
            first_of(old(self).known_contacts(), by_peer(peer@)) is Some ==> handed_over(
                id,
                spec_encode(body@, ShortTag((id.0 as int % crate::id::tag_span()) as u64)),
                old(matrix).sent(),
                final(matrix).sent(),
                old(sms).sent(),
                final(sms).sent(),
            ),
    {
        let id = self.compose(now_ms, peer, body);
        let ghost composed = self.store.stored();
        proof {
            let v = self.store.stored();
            assert forall|i: int| 0 <= i < v.outbox.len() implies #[trigger] v.outbox[i].matrix_attempts
                <= u32::MAX - MAX_STEPS_PER_ENTRY by {
                let e = choose|m: Message, e: OutboxEntry|
                    composed_message(id, old(self).user(), peer@, body@, now_ms, m) && composed_entry(
                        id,
                        peer@,
                        body@,
                        now_ms,
                        e,
                    ) && v == (StoreView {
                        outbox: replace_or_push(old(self).stored().outbox, entry_with_id(id), e),
                        ..spec_upsert(old(self).stored(), m)
                    });
                lemma_first_index_facts(old(self).stored().outbox, entry_with_id(id));
                if i < old(self).stored().outbox.len() && v.outbox[i] != e.1 {
                    assert(v.outbox[i] == old(self).stored().outbox[i]);
                }
            }
        }
        self.pump(matrix, sms, now_ms);
        proof {
            let (m, e) = choose|m: Message, e: OutboxEntry|
                composed_message(id, old(self).user(), peer@, body@, now_ms, m) && composed_entry(
                    id,
                    peer@,
                    body@,
                    now_ms,
                    e,
                ) && composed == (StoreView {
                    outbox: replace_or_push(old(self).stored().outbox, entry_with_id(id), e),
                    ..spec_upsert(old(self).stored(), m)
                });
            crate::store::law_upsert_then_get(old(self).stored(), m);
            crate::ingest::law_upsert_keeps_every_id(old(self).stored(), m);
            assert(crate::ingest::ids_kept(old(self).stored().messages, self.stored().messages)) by {
                assert forall|i: int| 0 <= i < old(self).stored().messages.len() implies #[trigger] self.stored().messages[i].id
                    == old(self).stored().messages[i].id by {
                    assert(same_message(composed.messages[i], self.stored().messages[i]));
                }
            }
            lemma_first_index_facts(composed.messages, with_id(id));
            let k = first_index(composed.messages, with_id(id)).unwrap();
            assert(same_message(composed.messages[k], self.store.stored().messages[k]));
            lemma_first_index_facts(old(self).stored().outbox, entry_with_id(id));
            let q = match first_index(old(self).stored().outbox, entry_with_id(id)) {
                Some(q) => q,
                None => old(self).stored().outbox.len() as int,
            };
            assert(composed.outbox[q] == e);
            assert(untried(composed.outbox[q]));
            assert(sms_text_for(e) == spec_encode(body@, ShortTag((id.0 as int % crate::id::tag_span()) as u64)));
            if old(self).stored().outbox.len() == 0 {
                assert(composed.outbox =~= seq![e]);
                assert(first_of(composed.messages, with_id(id)) is Some);
                assert(entry_outcome(
                    e,
                    old(self).status(),
                    now_ms,
                    old(self).known_contacts(),
                    old(matrix).sent(),
                    matrix.sent(),
                    old(sms).sent(),
                    sms.sent(),
                    self.stored(),
                    self.status(),
                    true,
                ));
                assert forall|j: int| 0 <= j < self.stored().outbox.len() implies #[trigger] self.stored().outbox[j].id
                    == id by {
                    let i2 = choose|i2: int| 0 <= i2 < composed.outbox.len() && composed.outbox[i2].id
                        == self.stored().outbox[j].id;
                }
            }
        }
        id
    }

    /// Takes every queued entry as far as its decisions go now: delivered
    /// entries leave the outbox, the others are updated in place.
    pub fn pump<M: MatrixTransport, T: SmsTransport>(
        &mut self,
        matrix: &mut M,
        sms: &mut T,
        now_ms: u64,
    ) -> (report: PumpReport)
        requires
            old(self).wf(),
            forall|i: int|
                0 <= i < old(self).stored().outbox.len() ==> #[trigger] old(self).stored().outbox[i].matrix_attempts <= u32::MAX - MAX_STEPS_PER_ENTRY,
        ensures
            exists|points: Seq<PumpPoint>|
                pumped_through(old(self).stored().outbox, points, now_ms, old(self).known_contacts())
                    && points[0] == (PumpPoint {
                    store: old(self).stored(),
                    status: old(self).status(),
                    matrix_log: old(matrix).sent(),
                    sms_log: old(sms).sent(),
                }) && #[trigger] points.last() == (PumpPoint {
                    store: final(self).stored(),
                    status: final(self).status(),
                    matrix_log: final(matrix).sent(),
                    sms_log: final(sms).sent(),
                }),
            tags_resolve(old(self).stored()) ==> tags_resolve(final(self).stored()),
            final(matrix).account() == old(matrix).account(),
            final(matrix).link_on() == old(matrix).link_on(),
            forall|a: Seq<char>| #[trigger] final(matrix).link_of(a) == old(matrix).link_of(a),
            final(matrix).service_up() == old(matrix).service_up(),
            final(self).wf(),
            same_messages(old(self).stored().messages, final(self).stored().messages),
            queued_before(old(self).stored().outbox, final(self).stored().outbox),
            report.still_queued == final(self).stored().outbox.len(),
            carried_retired(old(self).stored().outbox, final(self).stored().outbox),
            final(self).user() == old(self).user(),
            final(self).known_contacts() == old(self).known_contacts(),
            old(self).status() == NetStatus::Offline ==> final(self).status() == NetStatus::Offline
                && final(matrix).sent() == old(matrix).sent(),
            old(self).stored().outbox.len() == 1 ==> entry_outcome(
                old(self).stored().outbox[0],
                old(self).status(),
                now_ms,
                old(self).known_contacts(),
                old(matrix).sent(),
                final(matrix).sent(),
                old(sms).sent(),
                final(sms).sent(),
                final(self).stored(),
                final(self).status(),
                first_of(old(self).stored().messages, with_id(old(self).stored().outbox[0].id)) is Some,
            ),
            extends(old(matrix).sent(), final(matrix).sent()),
            extends(old(sms).sent(), final(sms).sent()),
            final(sms).removals() == old(sms).removals(),
            old(self).status() == NetStatus::Online && old(matrix).link_on() && old(matrix).service_up()
                ==> final(self).status() == NetStatus::Online,
            forall|k: int|
                0 <= k < old(self).stored().outbox.len() && untried(#[trigger] old(self).stored().outbox[k])
                    && first_of(old(self).known_contacts(), by_peer(old(self).stored().outbox[k].peer@)) is Some
                    ==> handed_over(
                    old(self).stored().outbox[k].id,
                    sms_text_for(old(self).stored().outbox[k]),
                    old(matrix).sent(),
                    final(matrix).sent(),
                    old(sms).sent(),
                    final(sms).sent(),
                ),
    {
        let mut report = PumpReport::default();
        proof {
            assert(matrix.sent().take(matrix.sent().len() as int) =~= matrix.sent());
            assert(sms.sent().take(sms.sent().len() as int) =~= sms.sent());
        }
        let entries = self.store.outbox();
        let n = entries.len();
        let ghost mut points: Seq<PumpPoint> = seq![
            PumpPoint {
                store: self.stored(),
                status: self.status(),
                matrix_log: matrix.sent(),
                sms_log: sms.sent(),
            },
        ];
        let mut i: usize = 0;
        while i < n
            invariant
                points.len() == i + 1,
                points[0] == (PumpPoint {
                    store: old(self).stored(),
                    status: old(self).status(),
                    matrix_log: old(matrix).sent(),
                    sms_log: old(sms).sent(),
                }),
                points.last() == (PumpPoint {
                    store: self.stored(),
                    status: self.status(),
                    matrix_log: matrix.sent(),
                    sms_log: sms.sent(),
                }),
                forall|k: int|
                    #![trigger entries@[k]]
                    0 <= k < i ==> entry_outcome(
                        entries@[k],
                        points[k].status,
                        now_ms,
                        old(self).known_contacts(),
                        points[k].matrix_log,
                        points[k + 1].matrix_log,
                        points[k].sms_log,
                        points[k + 1].sms_log,
                        points[k + 1].store,
                        points[k + 1].status,
                        first_of(points[k].store.messages, with_id(entries@[k].id)) is Some,
                    ) && others_kept(points[k].store.outbox, points[k + 1].store.outbox, entries@[k].id),
                tags_resolve(old(self).stored()) ==> tags_resolve(self.stored()),
                matrix.account() == old(matrix).account(),
                matrix.link_on() == old(matrix).link_on(),
                forall|a: Seq<char>| #[trigger] matrix.link_of(a) == old(matrix).link_of(a),
                matrix.service_up() == old(matrix).service_up(),
                n == entries@.len(),
                entries@ == old(self).stored().outbox,
                i <= n,
                self.wf(),
                same_messages(old(self).stored().messages, self.stored().messages),
                queued_before(old(self).stored().outbox, self.stored().outbox),
                self.user() == old(self).user(),
                self.known_contacts() == old(self).known_contacts(),
                report.sent_via_matrix <= i,
                report.fell_back_to_sms <= i,
                report.backfilled <= i,
                report.failed <= i,
                forall|k: int|
                    0 <= k < n ==> #[trigger] entries@[k].matrix_attempts <= u32::MAX
                        - MAX_STEPS_PER_ENTRY,
                forall|k: int| 0 <= k < n ==> entry_ok(#[trigger] entries@[k]),
                carried_retired(entries@.take(i as int), self.stored().outbox),
                crate::store::outbox_ids_unique(entries@),
                forall|k: int| i <= k < n ==> self.stored().outbox.contains(#[trigger] entries@[k]),
                i == 0 ==> self.stored() == old(self).stored() && self.status() == old(self).status()
                    && matrix.sent() == old(matrix).sent() && sms.sent() == old(sms).sent(),
                old(self).status() == NetStatus::Offline ==> self.status() == NetStatus::Offline
                    && matrix.sent() == old(matrix).sent(),
                old(self).status() == NetStatus::Online && old(matrix).link_on() && old(matrix).service_up()
                    ==> self.status() == NetStatus::Online,
                n == 1 && i == 1 ==> entry_outcome(
                    entries@[0],
                    old(self).status(),
                    now_ms,
                    old(self).known_contacts(),
                    old(matrix).sent(),
                    matrix.sent(),
                    old(sms).sent(),
                    sms.sent(),
                    self.stored(),
                    self.status(),
                    first_of(old(self).stored().messages, with_id(entries@[0].id)) is Some,
                ),
                extends(old(matrix).sent(), matrix.sent()),
                extends(old(sms).sent(), sms.sent()),
                sms.removals() == old(sms).removals(),
                forall|k: int|
                    0 <= k < i && untried(#[trigger] entries@[k]) && first_of(
                        old(self).known_contacts(),
                        by_peer(entries@[k].peer@),
                    ) is Some ==> handed_over(
                        entries@[k].id,
                        sms_text_for(entries@[k]),
                        old(matrix).sent(),
                        matrix.sent(),
                        old(sms).sent(),
                        sms.sent(),
                    ),
            decreases n - i,
        {
            let ghost mid = self.stored();
            let ghost mb = matrix.sent();
            let ghost sb = sms.sent();
            let ghost mid_status = self.status();
            proof {
                law_well_formed_entries_are_decidable(entries@[i as int], self.status());
            }
            self.pump_entry(matrix, sms, now_ms, entries[i].clone(), &mut report);
            proof {
                let prev = points;
                points = points.push(
                    PumpPoint {
                        store: self.stored(),
                        status: self.status(),
                        matrix_log: matrix.sent(),
                        sms_log: sms.sent(),
                    },
                );
                assert forall|k: int|
                    #![trigger entries@[k]]
                    0 <= k < i + 1 implies entry_outcome(
                        entries@[k],
                        points[k].status,
                        now_ms,
                        old(self).known_contacts(),
                        points[k].matrix_log,
                        points[k + 1].matrix_log,
                        points[k].sms_log,
                        points[k + 1].sms_log,
                        points[k + 1].store,
                        points[k + 1].status,
                        first_of(points[k].store.messages, with_id(entries@[k].id)) is Some,
                    ) && others_kept(points[k].store.outbox, points[k + 1].store.outbox, entries@[k].id) by {
                    if k < i {
                        assert(points[k] == prev[k] && points[k + 1] == prev[k + 1]);
                    } else {
                        assert(points[k] == prev.last());
                    }
                }
            }
            proof {
                assert forall|k: int| i + 1 <= k < n implies self.stored().outbox.contains(#[trigger] entries@[k]) by {
                    assert(mid.outbox.contains(entries@[k]));
                    assert(entries@[k].id != entries@[i as int].id);
                }
                lemma_extends_trans(old(matrix).sent(), mb, matrix.sent());
                lemma_extends_trans(old(sms).sent(), sb, sms.sent());
                assert forall|k: int|
                    0 <= k < i + 1 && untried(#[trigger] entries@[k]) && first_of(
                        old(self).known_contacts(),
                        by_peer(entries@[k].peer@),
                    ) is Some implies handed_over(
                        entries@[k].id,
                        sms_text_for(entries@[k]),
                        old(matrix).sent(),
                        matrix.sent(),
                        old(sms).sent(),
                        sms.sent(),
                    ) by {
                    if k < i {
                        if exists|j: int|
                            old(matrix).sent().len() <= j < mb.len() && #[trigger] mb[j].0.message_id
                                == entries@[k].id {
                            let j = choose|j: int|
                                old(matrix).sent().len() <= j < mb.len() && #[trigger] mb[j].0.message_id
                                    == entries@[k].id;
                            assert(matrix.sent()[j] == mb[j]);
                        } else {
                            let j = choose|j: int|
                                old(sms).sent().len() <= j < sb.len() && #[trigger] sb[j].1
                                    == sms_text_for(entries@[k]);
                            assert(sms.sent()[j] == sb[j]);
                        }
                    } else {
                        let e = entries@[k];
                        if spec_next_action(e, mid_status, now_ms) == SendDecision::TryMatrix {
                            let j = mb.len() as int;
                            assert(matrix.sent()[j].0.message_id == e.id);
                        } else {
                            let j = sb.len() as int;
                            assert(sms.sent()[j].1 == sms_text_for(e));
                        }
                    }
                }
            }
            proof {
                let t = entries@.take(i + 1);
                assert forall|a: int, b: int|
                    0 <= a < t.len() && t[a].matrix == TransportState::Done && 0 <= b
                        < self.stored().outbox.len() implies #[trigger] self.stored().outbox[b].id
                        != #[trigger] t[a].id by {
                    if a < i {
                        assert(entries@.take(i as int)[a] == t[a]);
                        let c = choose|c: int|
                            0 <= c < mid.outbox.len() && mid.outbox[c].id == self.stored().outbox[b].id;
                    } else {
                        assert(t[a] == entries@[i as int]);
                        let r = mid.outbox.filter(entry_other_than(t[a].id));
                        assert(self.stored().outbox == r);
                        mid.outbox.lemma_filter_pred(entry_other_than(t[a].id), b);
                    }
                }
            }
            i += 1;
        }
        proof {
            assert(entries@.take(n as int) =~= entries@);
        }
        report.still_queued = self.store.outbox().len();
        report
    }

    /// Whether every queued entry leaves room for `MAX_STEPS_PER_ENTRY` more
    /// Matrix attempts, as a pump needs.
    pub fn pumpable(&self) -> (b: bool)
        ensures
            b == forall|i: int|
                0 <= i < self.stored().outbox.len() ==> #[trigger] self.stored().outbox[i].matrix_attempts
                    <= u32::MAX - MAX_STEPS_PER_ENTRY,
    {
        let entries = self.store.outbox();
        let mut i: usize = 0;
        while i < entries.len()
            invariant
                i <= entries@.len(),
                entries@ == self.stored().outbox,
                forall|k: int| 0 <= k < i ==> #[trigger] entries@[k].matrix_attempts <= u32::MAX
                    - MAX_STEPS_PER_ENTRY,
            decreases entries@.len() - i,
        {
            if entries[i].matrix_attempts > u32::MAX - 4 {
                return false;
            }
            i += 1;
        }
        true
    }

    /// Receives everything waiting, then pumps the outbox.
    pub fn sync<M: MatrixTransport, T: SmsTransport>(
        &mut self,
        matrix: &mut M,
        sms: &mut T,
        now_ms: u64,
    ) -> (r: (crate::ingest::IngestReport, PumpReport))
        requires
            old(self).wf(),
            forall|i: int|
                0 <= i < old(self).stored().outbox.len() ==> #[trigger] old(self).stored().outbox[i].matrix_attempts <= u32::MAX - MAX_STEPS_PER_ENTRY,
        ensures
            crate::ingest::kept_or_received(old(self).stored().messages, final(self).stored().messages),
            tags_resolve(old(self).stored()) ==> tags_resolve(final(self).stored()),
            final(matrix).account() == old(matrix).account(),
            final(matrix).link_on() == old(matrix).link_on(),
            forall|a: Seq<char>| #[trigger] final(matrix).link_of(a) == old(matrix).link_of(a),
            final(matrix).service_up() == old(matrix).service_up(),
            final(self).wf(),
            crate::ingest::ids_kept(old(self).stored().messages, final(self).stored().messages),
            queued_before(old(self).stored().outbox, final(self).stored().outbox),
            carried_retired(old(self).stored().outbox, final(self).stored().outbox),
            r.0.inserted + r.0.superseded + r.0.ignored <= old(matrix).waiting().len() + old(
                sms,
            ).waiting().len(),
            old(self).status() == NetStatus::Offline ==> final(self).status() == NetStatus::Offline
                && final(matrix).sent() == old(matrix).sent(),
            old(self).status() == NetStatus::Online && old(matrix).link_on() && old(matrix).service_up()
                ==> final(self).status() == NetStatus::Online,
            r.1.still_queued == final(self).stored().outbox.len(),
            final(self).user() == old(self).user(),
            final(self).known_contacts() == old(self).known_contacts(),
            exists|stores: Seq<StoreView>|
                crate::ingest::received_in_turn(
                    stores,
                    old(matrix).waiting(),
                    old(sms).waiting(),
                    old(self).known_contacts(),
                    old(self).user()@,
                ) && stores[0] == old(self).stored() && same_messages(
                    #[trigger] stores.last().messages,
                    final(self).stored().messages,
                ),
            forall|k: int|
                0 <= k < old(self).stored().outbox.len() && untried(#[trigger] old(self).stored().outbox[k])
                    && first_of(old(self).known_contacts(), by_peer(old(self).stored().outbox[k].peer@)) is Some
                    ==> handed_over(
                    old(self).stored().outbox[k].id,
                    sms_text_for(old(self).stored().outbox[k]),
                    old(matrix).sent(),
                    final(matrix).sent(),
                    old(sms).sent(),
                    final(sms).sent(),
                ),
    {
        let ingested = self.ingest(matrix, sms, now_ms);
        let ghost received = self.stored().messages;
        let ghost after_ingest = self.stored();
        let ghost ms1 = matrix.sent();
        let ghost ss1 = sms.sent();
        let pumped = self.pump(matrix, sms, now_ms);
        proof {
            let stores = choose|stores: Seq<StoreView>|
                crate::ingest::received_in_turn(
                    stores,
                    old(matrix).waiting(),
                    old(sms).waiting(),
                    old(self).known_contacts(),
                    old(self).user()@,
                ) && stores[0] == old(self).stored() && #[trigger] stores.last() == after_ingest;
            assert(same_messages(stores.last().messages, self.stored().messages));
            assert(crate::ingest::kept_or_received(received, self.stored().messages)) by {
                assert forall|i: int| 0 <= i < received.len() implies same_message(received[i], #[trigger] self.stored().messages[i])
                    || self.stored().messages[i].author@ == self.stored().messages[i].conversation@ by {}
            }
            crate::ingest::lemma_kept_or_received_trans(old(self).stored().messages, received, self.stored().messages);
            assert forall|i: int| 0 <= i < old(self).stored().messages.len() implies #[trigger] self.stored().messages[i].id
                == old(self).stored().messages[i].id by {
                assert(same_message(received[i], self.stored().messages[i]));
            }
        }
        (ingested, pumped)
    }

    /// Takes one entry through at most `MAX_STEPS_PER_ENTRY` decisions.
    #[verifier::rlimit(50)]
    #[verifier::spinoff_prover]
    fn pump_entry<M: MatrixTransport, T: SmsTransport>(
        &mut self,
        matrix: &mut M,
        sms: &mut T,
        now_ms: u64,
        entry: OutboxEntry,
        report: &mut PumpReport,
    )
        requires
            old(self).wf(),
            entry_ok(entry),
            entry.matrix_attempts <= u32::MAX - MAX_STEPS_PER_ENTRY,
            old(report).sent_via_matrix < usize::MAX,
            old(report).backfilled < usize::MAX,
            old(report).fell_back_to_sms < usize::MAX,
            old(report).failed < usize::MAX,
            old(self).stored().outbox.contains(entry),
        ensures
            tags_resolve(old(self).stored()) ==> tags_resolve(final(self).stored()),
            final(matrix).account() == old(matrix).account(),
            final(matrix).link_on() == old(matrix).link_on(),
            forall|a: Seq<char>| #[trigger] final(matrix).link_of(a) == old(matrix).link_of(a),
            final(matrix).service_up() == old(matrix).service_up(),
            final(self).wf(),
            same_messages(old(self).stored().messages, final(self).stored().messages),
            queued_before(old(self).stored().outbox, final(self).stored().outbox),
            final(self).user() == old(self).user(),
            final(self).known_contacts() == old(self).known_contacts(),
            final(report).sent_via_matrix == old(report).sent_via_matrix + one_if(
                matrix_took(old(matrix).sent(), final(matrix).sent(), false),
            ),
            final(report).backfilled == old(report).backfilled + one_if(
                matrix_took(old(matrix).sent(), final(matrix).sent(), true),
            ),
            final(report).fell_back_to_sms == old(report).fell_back_to_sms + one_if(
                sms_took(old(sms).sent(), final(sms).sent()),
            ),
            final(report).failed == old(report).failed + one_if(
                left_uncarried(entry, old(matrix).sent(), final(matrix).sent(), final(self).stored().outbox),
            ),
            final(report).still_queued == old(report).still_queued,
            extends(old(matrix).sent(), final(matrix).sent()),
            extends(old(sms).sent(), final(sms).sent()),
            final(sms).removals() == old(sms).removals(),
            old(self).status() == NetStatus::Online && old(matrix).link_on() && old(matrix).service_up()
                ==> final(self).status() == NetStatus::Online,
            entry_outcome(
                entry,
                old(self).status(),
                now_ms,
                old(self).known_contacts(),
                old(matrix).sent(),
                final(matrix).sent(),
                old(sms).sent(),
                final(sms).sent(),
                final(self).stored(),
                final(self).status(),
                first_of(old(self).stored().messages, with_id(entry.id)) is Some,
            ),
            others_kept(old(self).stored().outbox, final(self).stored().outbox, entry.id),
            spec_next_action(entry, old(self).status(), now_ms) == SendDecision::Done ==> {
                &&& final(self).stored() == retired(old(self).stored(), entry.id)
                &&& final(self).status() == old(self).status()
                &&& *final(report) == *old(report)
            },
            spec_next_action(entry, old(self).status(), now_ms) is Wait ==> {
                &&& final(self).stored() == with_entry(old(self).stored(), entry)
                &&& final(self).status() == old(self).status()
                &&& *final(report) == *old(report)
            },
            spec_next_action(entry, old(self).status(), now_ms) == SendDecision::Abandon ==> {
                &&& final(self).stored().outbox == old(self).stored().outbox.filter(
                    entry_other_than(entry.id),
                )
                &&& first_of(old(self).stored().messages, with_id(entry.id)) is Some ==> (first_of(
                    final(self).stored().messages,
                    with_id(entry.id),
                ) matches Some(m) && m.state matches MessageState::Failed(why) && why@
                    == ABANDON_REASON@)
                &&& final(self).status() == old(self).status()
                &&& final(report).failed == old(report).failed + 1
                &&& final(report).sent_via_matrix == old(report).sent_via_matrix
                &&& final(report).backfilled == old(report).backfilled
                &&& final(report).fell_back_to_sms == old(report).fell_back_to_sms
            },
    {
        let ghost first = entry;
        let ghost contact = first_of(self.known_contacts(), by_peer(entry.peer@));
        let ghost d0 = spec_next_action(entry, self.status(), now_ms);
        let ghost stored0 = first_of(self.stored().messages, with_id(entry.id)) is Some;
        let ghost ml = matrix.sent().len() as int;
        let ghost sl = sms.sent().len() as int;
        let mut current = entry;
        let mut step: usize = 0;
        proof {
            assert(matrix.sent().take(ml) =~= matrix.sent());
            assert(sms.sent().take(sl) =~= sms.sent());
        }
        while step < MAX_STEPS_PER_ENTRY
            invariant
                tags_resolve(old(self).stored()) ==> tags_resolve(self.stored()),
                matrix.account() == old(matrix).account(),
                matrix.link_on() == old(matrix).link_on(),
                forall|a: Seq<char>| #[trigger] matrix.link_of(a) == old(matrix).link_of(a),
                matrix.service_up() == old(matrix).service_up(),
                step <= MAX_STEPS_PER_ENTRY,
                step == 0 ==> matrix.sent() == old(matrix).sent() && sms.sent() == old(sms).sent(),
                old(self).status() == NetStatus::Offline ==> self.status() == NetStatus::Offline
                    && matrix.sent() == old(matrix).sent(),
                old(self).status() == NetStatus::Online && old(matrix).link_on() && old(matrix).service_up()
                    ==> self.status() == NetStatus::Online,
                others_kept(old(self).stored().outbox, self.stored().outbox, first.id),
                queued(self.stored().outbox, first.id),
                step > 0 ==> self.stored().outbox.contains(current),
                current.id == first.id,
                current.peer == first.peer,
                current.body == first.body,
                current.conversation == first.conversation,
                current.origin_ts == first.origin_ts,
                contact == first_of(old(self).known_contacts(), by_peer(first.peer@)),
                d0 == spec_next_action(first, old(self).status(), now_ms),
                stored0 == (first_of(old(self).stored().messages, with_id(first.id)) is Some),
                ml == old(matrix).sent().len(),
                sl == old(sms).sent().len(),
                extends(old(matrix).sent(), matrix.sent()),
                extends(old(sms).sent(), sms.sent()),
                sms.removals() == old(sms).removals(),
                contact is None ==> matrix.sent() == old(matrix).sent() && sms.sent() == old(sms).sent(),
                step > 0 && d0 == SendDecision::TryMatrix ==> match contact {
                    Some(c) => matrix_asked_first(
                        old(matrix).sent(),
                        matrix.sent(),
                        first,
                        c.matrix_id,
                        false,
                        self.stored().messages,
                        stored0,
                        self.status(),
                    ) && (matrix.sent()[ml].1 is Ok ==> step == 1 && current.matrix
                        == TransportState::Done),
                    None => true,
                },
                step > 0 && d0 == SendDecision::BackfillMatrix ==> match contact {
                    Some(c) => matrix_asked_first(
                        old(matrix).sent(),
                        matrix.sent(),
                        first,
                        c.matrix_id,
                        true,
                        self.stored().messages,
                        stored0,
                        self.status(),
                    ) && (matrix.sent()[ml].1 is Ok ==> step == 1 && current.matrix
                        == TransportState::Done),
                    None => true,
                },
                (step > 0 && d0 == SendDecision::FallbackToSms) || (step > 1 && d0
                    == SendDecision::TryMatrix && contact is Some && matrix.sent()[ml].1 is Err
                    && first.sms_attempts < MAX_SMS_ATTEMPTS)
                    ==> match contact {
                    Some(c) => sms_asked_first(
                        old(sms).sent(),
                        sms.sent(),
                        first,
                        c.phone,
                        now_ms,
                        self.stored().messages,
                        stored0,
                    ) && (sms.sent()[sl].2 is Ok ==> current.sms == TransportState::Done && (current.matrix
                        == TransportState::Done ==> exists|j: int|
                        ml <= j < matrix.sent().len() && #[trigger] matrix.sent()[j].0.message_id == first.id
                            && matrix.sent()[j].1 is Ok)),
                    None => true,
                },
                step == 1 && d0 == SendDecision::TryMatrix && contact is Some && matrix.sent()[ml].1 is Err
                    ==> current.matrix == TransportState::Failed && current.sms == first.sms
                    && current.sms_attempts == first.sms_attempts && sms.sent() == old(sms).sent()
                    && self.stored().messages == old(self).stored().messages,
                step > 0 && d0 == SendDecision::TryMatrix && contact is Some ==> (matrix.sent()[ml].1 matches Err(
                    e,
                ) ==> (e is Unreachable ==> self.status() == NetStatus::Offline)),
                self.wf(),
                entry_ok(current),
                current.matrix_attempts <= u32::MAX - MAX_STEPS_PER_ENTRY + step,
                same_messages(old(self).stored().messages, self.stored().messages),
                queued_before(old(self).stored().outbox, self.stored().outbox),
                self.user() == old(self).user(),
                self.known_contacts() == old(self).known_contacts(),
                report.sent_via_matrix + report.backfilled <= old(report).sent_via_matrix + old(
                    report,
                ).backfilled + if current.matrix == TransportState::Done {
                    1int
                } else {
                    0int
                },
                report.sent_via_matrix >= old(report).sent_via_matrix,
                report.backfilled >= old(report).backfilled,
                report.fell_back_to_sms <= old(report).fell_back_to_sms + if current.sms
                    == TransportState::Done {
                    1int
                } else {
                    0int
                },
                report.failed == old(report).failed,
                report.still_queued == old(report).still_queued,
                report.sent_via_matrix == old(report).sent_via_matrix + one_if(
                    matrix_took(old(matrix).sent(), matrix.sent(), false),
                ),
                report.backfilled == old(report).backfilled + one_if(
                    matrix_took(old(matrix).sent(), matrix.sent(), true),
                ),
                report.fell_back_to_sms == old(report).fell_back_to_sms + one_if(
                    sms_took(old(sms).sent(), sms.sent()),
                ),
                matrix_took(old(matrix).sent(), matrix.sent(), false) || matrix_took(
                    old(matrix).sent(),
                    matrix.sent(),
                    true,
                ) ==> current.matrix == TransportState::Done,
                current.matrix == TransportState::Done ==> first.matrix == TransportState::Done
                    || matrix_took(old(matrix).sent(), matrix.sent(), false) || matrix_took(
                    old(matrix).sent(),
                    matrix.sent(),
                    true,
                ),
                sms_took(old(sms).sent(), sms.sent()) ==> current.sms == TransportState::Done,
                first.matrix == TransportState::Done ==> step == 0,
                old(report).sent_via_matrix < usize::MAX,
                old(report).backfilled < usize::MAX,
                old(report).fell_back_to_sms < usize::MAX,
                old(report).failed < usize::MAX,
                first == entry,
                step == 0 ==> current == first && self.stored() == old(self).stored() && self.status()
                    == old(self).status() && *report == *old(report),
                step > 0 ==> match spec_next_action(first, old(self).status(), now_ms) {
                    SendDecision::TryMatrix => true,
                    SendDecision::BackfillMatrix => true,
                    SendDecision::FallbackToSms => true,
                    _ => false,
                },
            decreases MAX_STEPS_PER_ENTRY - step,
        {
            let ghost before = self.store.stored();
            proof {
                law_well_formed_entries_are_decidable(current, self.net.current());
            }
            let decision = next_action(&current, self.net.status(), now_ms);
            match decision {
                SendDecision::Done => {
                    proof {
                        lemma_retire(before, current.id);
                        lemma_retire_entry(before.outbox, current.id);
                    }
                    self.store.retire(&current.id);
                    return ;
                },
                SendDecision::Wait { .. } => {
                    proof {
                        lemma_update_entry(before, current);
                        lemma_replace_entry(before.outbox, current);
                    }
                    self.store.update_outbox(current);
                    return ;
                },
                SendDecision::Abandon => {
                    let reason = String::from_str(ABANDON_REASON);
                    let why = reason.clone();
                    let ghost why_g = why;
                    self.mark_failed(&current.id, why);
                    proof {
                        if first_of(before.messages, with_id(current.id)) is Some {
                            let m = first_of(before.messages, with_id(current.id)).unwrap();
                            lemma_first_index_facts(before.messages, with_id(current.id));
                            crate::store::law_upsert_then_get(before, Message { state: MessageState::Failed(why_g), ..m });
                            assert(first_of(self.stored().messages, with_id(current.id)) == Some(Message { state: MessageState::Failed(why_g), ..m }));
                        }
                    }
                    proof {
                        lemma_retire(self.store.stored(), current.id);
                        lemma_retire_entry(self.store.stored().outbox, current.id);
                    }
                    let ghost kept = self.store.stored().outbox;
                    self.store.retire(&current.id);
                    proof {
                        assert forall|j: int| 0 <= j < self.stored().outbox.len() implies #[trigger] self.stored().outbox[j].id
                            != first.id by {
                            kept.lemma_filter_pred(entry_other_than(current.id), j);
                        }
                    }
                    self.log.record(now_ms, Activity::SendFailed { id: current.id, reason });
                    report.failed = report.failed + 1;
                    return ;
                },
                SendDecision::TryMatrix | SendDecision::BackfillMatrix => {
                    let is_backfill = match decision {
                        SendDecision::BackfillMatrix => true,
                        _ => false,
                    };
                    current.begin_matrix();
                    proof {
                        lemma_update_entry(before, current);
                        lemma_replace_entry(before.outbox, current);
                    }
                    self.store.update_outbox(current.clone());
                    let ghost ms_before = matrix.sent();
                    let ghost s1 = self.stored();
                    let ghost msgs_before = self.stored().messages;
                    let outcome = self.deliver_over_matrix(matrix, &current, is_backfill);
                    let ghost answer = outcome;
                    proof {
                        if contact is Some {
                            lemma_matrix_took_push(old(matrix).sent(), ms_before, matrix.sent());
                            assert(matrix_took(old(matrix).sent(), matrix.sent(), is_backfill) == (matrix_took(
                                old(matrix).sent(),
                                ms_before,
                                is_backfill,
                            ) || answer is Ok));
                            assert(matrix_took(old(matrix).sent(), matrix.sent(), !is_backfill) == matrix_took(
                                old(matrix).sent(),
                                ms_before,
                                !is_backfill,
                            ));
                        } else {
                            assert(matrix.sent() == ms_before);
                        }
                    }
                    self.record_matrix_outcome(&mut current, is_backfill, outcome, now_ms, report);
                    proof {
                        lemma_replace_entry(s1.outbox, current);
                        if contact is Some {
                            lemma_extends_trans(old(matrix).sent(), ms_before, matrix.sent());
                        }
                        lemma_first_index_facts(msgs_before, with_id(first.id));
                        if let Ok(dl) = answer {
                            if first_of(msgs_before, with_id(first.id)) is Some {
                                let m = first_of(msgs_before, with_id(first.id)).unwrap();
                                let updated = Message {
                                    delivery: DeliverySet { matrix: Some(dl), sms: m.delivery.sms },
                                    state: MessageState::Sent,
                                    ..m
                                };
                                crate::store::law_upsert_then_get(s1, updated);
                            }
                        }
                    }
                },
                SendDecision::FallbackToSms => {
                    current.begin_sms();
                    proof {
                        lemma_update_entry(before, current);
                        lemma_replace_entry(before.outbox, current);
                    }
                    self.store.update_outbox(current.clone());
                    let ghost ss_before = sms.sent();
                    let ghost s1 = self.stored();
                    let ghost msgs_before = self.stored().messages;
                    let outcome = self.deliver_over_sms(sms, &current, now_ms);
                    let ghost answer = outcome;
                    proof {
                        if contact is Some {
                            lemma_sms_took_push(old(sms).sent(), ss_before, sms.sent());
                        } else {
                            assert(sms.sent() == ss_before);
                        }
                    }
                    self.record_sms_outcome(&mut current, outcome, now_ms, report);
                    proof {
                        lemma_replace_entry(s1.outbox, current);
                        if contact is Some {
                            lemma_extends_trans(old(sms).sent(), ss_before, sms.sent());
                        }
                        lemma_first_index_facts(msgs_before, with_id(first.id));
                        if let Ok(dl) = answer {
                            if first_of(msgs_before, with_id(first.id)) is Some {
                                let m = first_of(msgs_before, with_id(first.id)).unwrap();
                                let updated = Message {
                                    delivery: DeliverySet { matrix: m.delivery.matrix, sms: Some(dl) },
                                    state: MessageState::Sent,
                                    ..m
                                };
                                crate::store::law_upsert_then_get(s1, updated);
                            }
                        }
                    }
                },
            }
            step += 1;
        }
        proof {
            lemma_update_entry(self.store.stored(), current);
            lemma_replace_entry(self.store.stored().outbox, current);
        }
        self.store.update_outbox(current);
    }

    /// Carries out what a Matrix send of `entry` came to. A success marks
    /// the entry and the message carried, counts as evidence the connection
    /// is up, and is logged and counted as a send or a backfill. A failure
    /// puts Matrix off for the backoff; an unreachable homeserver counts as
    /// evidence the device is offline. The queued entry is then updated.
    pub fn record_matrix_outcome(
        &mut self,
        entry: &mut OutboxEntry,
        is_backfill: bool,
        outcome: Result<MatrixDelivery, TransportError>,
        now_ms: u64,
        report: &mut PumpReport,
    )
        requires
            old(self).wf(),
            entry_ok(*old(entry)),
            old(entry).matrix == TransportState::InFlight,
            old(report).sent_via_matrix < usize::MAX,
            old(report).backfilled < usize::MAX,
        ensures
            tags_resolve(old(self).stored()) ==> tags_resolve(final(self).stored()),
            final(self).wf(),
            entry_ok(*final(entry)),
            match outcome {
                Ok(d) => {
                    &&& logged_next(old(self).logged(), final(self).logged(), now_ms)
                    &&& final(self).logged().last().activity == if is_backfill {
                        Activity::Backfilled { id: old(entry).id }
                    } else {
                        Activity::SentViaMatrix { id: old(entry).id }
                    }
                    &&& *final(entry) == (OutboxEntry { matrix: TransportState::Done, ..*old(entry) })
                    &&& final(self).stored() == with_entry(
                        with_matrix_delivery(old(self).stored(), old(entry).id, d),
                        *final(entry),
                    )
                    &&& final(self).status() == NetStatus::Online
                    &&& if is_backfill {
                        final(report).backfilled == old(report).backfilled + 1
                            && final(report).sent_via_matrix == old(report).sent_via_matrix
                    } else {
                        final(report).sent_via_matrix == old(report).sent_via_matrix + 1
                            && final(report).backfilled == old(report).backfilled
                    }
                },
                Err(err) => {
                    &&& final(self).logged() == old(self).logged()
                    &&& *final(entry) == (OutboxEntry {
                        matrix: TransportState::Failed,
                        next_matrix_attempt_ms: if now_ms + crate::outbox::spec_backoff_ms(
                            old(entry).matrix_attempts,
                        ) <= u64::MAX {
                            (now_ms + crate::outbox::spec_backoff_ms(
                                old(entry).matrix_attempts,
                            )) as u64
                        } else {
                            u64::MAX
                        },
                        ..*old(entry)
                    })
                    &&& final(self).stored() == with_entry(old(self).stored(), *final(entry))
                    &&& final(self).status() == if err is Unreachable {
                        NetStatus::Offline
                    } else {
                        old(self).status()
                    }
                    &&& final(report).sent_via_matrix == old(report).sent_via_matrix
                    &&& final(report).backfilled == old(report).backfilled
                },
            },
            same_messages(old(self).stored().messages, final(self).stored().messages),
            queued_before(old(self).stored().outbox, final(self).stored().outbox),
            final(report).fell_back_to_sms == old(report).fell_back_to_sms,
            final(report).failed == old(report).failed,
            final(report).still_queued == old(report).still_queued,
            final(self).user() == old(self).user(),
            final(self).known_contacts() == old(self).known_contacts(),
    {
        proof {
            lemma_keep_newest_last();
        }
        match outcome {
            Ok(delivery) => {
                entry.matrix_succeeded();
                self.attach_matrix_delivery(&entry.id, delivery);
                self.net.observe(NetStatus::Online);
                if is_backfill {
                    self.log.record(now_ms, Activity::Backfilled { id: entry.id });
                    report.backfilled = report.backfilled + 1;
                } else {
                    self.log.record(now_ms, Activity::SentViaMatrix { id: entry.id });
                    report.sent_via_matrix = report.sent_via_matrix + 1;
                }
            },
            Err(err) => {
                entry.matrix_failed(now_ms);
                if err.is_recoverable() {
                    self.net.observe(NetStatus::Offline);
                }
            },
        }
        proof {
            lemma_update_entry(self.store.stored(), *entry);
        }
        self.store.update_outbox(entry.clone());
    }

    /// Carries out what an SMS send of `entry` came to. A success marks the
    /// entry and the message carried, and is logged and counted as a
    /// fallback; a failure is logged with its reason. The queued entry is
    /// then updated.
    pub fn record_sms_outcome(
        &mut self,
        entry: &mut OutboxEntry,
        outcome: Result<SmsDelivery, TransportError>,
        now_ms: u64,
        report: &mut PumpReport,
    )
        requires
            old(self).wf(),
            entry_ok(*old(entry)),
            old(entry).sms == TransportState::InFlight,
            old(report).fell_back_to_sms < usize::MAX,
        ensures
            tags_resolve(old(self).stored()) ==> tags_resolve(final(self).stored()),
            final(self).wf(),
            entry_ok(*final(entry)),
            match outcome {
                Ok(d) => {
                    &&& logged_next(old(self).logged(), final(self).logged(), now_ms)
                    &&& final(self).logged().last().activity matches Activity::FellBackToSms { id, reason }
                        && id == old(entry).id && reason@ == FALLBACK_REASON@
                    &&& *final(entry) == (OutboxEntry { sms: TransportState::Done, ..*old(entry) })
                    &&& final(self).stored() == with_entry(
                        with_sms_delivery(old(self).stored(), old(entry).id, d),
                        *final(entry),
                    )
                    &&& final(report).fell_back_to_sms == old(report).fell_back_to_sms + 1
                },
                Err(_) => {
                    &&& logged_next(old(self).logged(), final(self).logged(), now_ms)
                    &&& final(self).logged().last().activity matches Activity::SendFailed { id, .. }
                        && id == old(entry).id
                    &&& *final(entry) == (OutboxEntry { sms: TransportState::Failed, ..*old(entry) })
                    &&& final(self).stored() == with_entry(old(self).stored(), *final(entry))
                    &&& final(report).fell_back_to_sms == old(report).fell_back_to_sms
                },
            },
            same_messages(old(self).stored().messages, final(self).stored().messages),
            queued_before(old(self).stored().outbox, final(self).stored().outbox),
            final(self).status() == old(self).status(),
            final(report).sent_via_matrix == old(report).sent_via_matrix,
            final(report).backfilled == old(report).backfilled,
            final(report).failed == old(report).failed,
            final(report).still_queued == old(report).still_queued,
            final(self).user() == old(self).user(),
            final(self).known_contacts() == old(self).known_contacts(),
    {
        proof {
            lemma_keep_newest_last();
        }
        match outcome {
            Ok(delivery) => {
                entry.sms_succeeded();
                self.attach_sms_delivery(&entry.id, delivery);
                self.log.record(
                    now_ms,
                    Activity::FellBackToSms { id: entry.id, reason: String::from_str(FALLBACK_REASON) },
                );
                report.fell_back_to_sms = report.fell_back_to_sms + 1;
            },
            Err(err) => {
                entry.sms_failed();
                self.log.record(now_ms, Activity::SendFailed { id: entry.id, reason: err.text() });
            },
        }
        proof {
            lemma_update_entry(self.store.stored(), *entry);
        }
        self.store.update_outbox(entry.clone());
    }

    /// Sends an entry over Matrix to the peer's Matrix id; a peer without
    /// one is refused before the transport is asked.
    fn deliver_over_matrix<M: MatrixTransport>(
        &self,
        matrix: &mut M,
        entry: &OutboxEntry,
        is_backfill: bool,
    ) -> (r: Result<MatrixDelivery, TransportError>)
        ensures
            final(matrix).account() == old(matrix).account(),
            final(matrix).link_on() == old(matrix).link_on(),
            forall|a: Seq<char>| #[trigger] final(matrix).link_of(a) == old(matrix).link_of(a),
            final(matrix).service_up() == old(matrix).service_up(),
            old(matrix).link_on() && old(matrix).service_up() ==> !(r matches Err(TransportError::Unreachable(_))),
            first_of(self.known_contacts(), by_peer(entry.peer@)) is None ==> (r matches Err(
                TransportError::Rejected(why),
            ) && why@ == "no matrix id for this contact"@) && final(matrix).sent() == old(
                matrix,
            ).sent(),
            first_of(self.known_contacts(), by_peer(entry.peer@)) matches Some(c) ==> {
                &&& final(matrix).sent().len() == old(matrix).sent().len() + 1
                &&& final(matrix).sent().take(old(matrix).sent().len() as int) == old(matrix).sent()
                &&& request_for(final(matrix).sent().last().0, *entry, c.matrix_id, is_backfill)
                &&& final(matrix).sent().last().1 == r
            },
    {
        match self.directory.matrix_id(&entry.peer) {
            None => Err(TransportError::rejected("no matrix id for this contact")),
            Some(to) => {
                let r = matrix.send(matrix_request(entry, to, is_backfill));
                proof {
                    assert(matrix.sent().take(old(matrix).sent().len() as int) =~= old(matrix).sent());
                }
                r
            },
        }
    }

    /// Sends an entry over SMS to the peer's phone number, the body followed
    /// by the trailer carrying the message's tag; a peer without a number
    /// is refused before the transport is asked.
    fn deliver_over_sms<T: SmsTransport>(&self, sms: &mut T, entry: &OutboxEntry, now_ms: u64) -> (r:
        Result<SmsDelivery, TransportError>)
        ensures
            first_of(self.known_contacts(), by_peer(entry.peer@)) is None ==> (r matches Err(
                TransportError::Rejected(why),
            ) && why@ == "no phone number for this contact"@),
            r matches Ok(d) ==> d.ts == now_ms && d.local_copy == SmsLocalCopy::Present,
            first_of(self.known_contacts(), by_peer(entry.peer@)) is None ==> final(sms).sent() == old(
                sms,
            ).sent(),
            first_of(self.known_contacts(), by_peer(entry.peer@)) matches Some(c) ==> {
                &&& final(sms).sent().len() == old(sms).sent().len() + 1
                &&& final(sms).sent().take(old(sms).sent().len() as int) == old(sms).sent()
                &&& final(sms).sent().last().0 == c.phone
                &&& final(sms).sent().last().1 == sms_text_for(*entry)
                &&& match final(sms).sent().last().2 {
                    Ok(row) => r == Ok::<SmsDelivery, TransportError>(
                        SmsDelivery { row, ts: now_ms, local_copy: SmsLocalCopy::Present },
                    ),
                    Err(e) => r == Err::<SmsDelivery, TransportError>(e),
                }
            },
            final(sms).removals() == old(sms).removals(),
    {
        let to = match self.directory.phone(&entry.peer) {
            None => {
                return Err(TransportError::rejected("no phone number for this contact"));
            },
            Some(p) => p,
        };
        let text = encode(entry.body.as_str(), entry.id.short_tag());
        let answer = sms.send(&to, text.as_str());
        proof {
            assert(sms.sent().take(old(sms).sent().len() as int) =~= old(sms).sent());
            assert(text@ == sms_text_for(*entry));
        }
        match answer {
            Ok(row) => Ok(SmsDelivery { row, ts: now_ms, local_copy: SmsLocalCopy::Present }),
            Err(err) => Err(err),
        }
    }

    /// Marks message `id` carried over Matrix by `delivery`, and sent.
    fn attach_matrix_delivery(&mut self, id: &MessageId, delivery: MatrixDelivery)
        requires
            old(self).wf(),
        ensures
            tags_resolve(old(self).stored()) ==> tags_resolve(final(self).stored()),
            final(self).wf(),
            final(self).stored() == with_matrix_delivery(old(self).stored(), *id, delivery),
            same_messages(old(self).stored().messages, final(self).stored().messages),
            final(self).status() == old(self).status(),
            final(self).user() == old(self).user(),
            final(self).known_contacts() == old(self).known_contacts(),
            final(self).logged() == old(self).logged(),
    {
        match self.store.get(id) {
            Some(message) => {
                let updated = Message {
                    delivery: DeliverySet { matrix: Some(delivery), sms: message.delivery.sms },
                    state: MessageState::Sent,
                    ..message
                };
                proof {
                    law_upsert_keeps_store_wf(self.store.stored(), updated);
                    lemma_first_index_facts(self.store.stored().messages, with_id(*id));
                    if tags_resolve(self.store.stored()) {
                        law_upsert_keeps_tags_resolving(self.store.stored(), updated);
                    }
                    lemma_upsert_same_message(self.store.stored(), updated);
                }
                self.store.upsert(updated);
            },
            None => {},
        }
    }

    /// Marks message `id` carried over SMS by `delivery`, and sent.
    fn attach_sms_delivery(&mut self, id: &MessageId, delivery: SmsDelivery)
        requires
            old(self).wf(),
        ensures
            tags_resolve(old(self).stored()) ==> tags_resolve(final(self).stored()),
            final(self).wf(),
            final(self).stored() == with_sms_delivery(old(self).stored(), *id, delivery),
            same_messages(old(self).stored().messages, final(self).stored().messages),
            final(self).status() == old(self).status(),
            final(self).user() == old(self).user(),
            final(self).known_contacts() == old(self).known_contacts(),
            final(self).logged() == old(self).logged(),
    {
        match self.store.get(id) {
            Some(message) => {
                let updated = Message {
                    delivery: DeliverySet { matrix: message.delivery.matrix, sms: Some(delivery) },
                    state: MessageState::Sent,
                    ..message
                };
                proof {
                    law_upsert_keeps_store_wf(self.store.stored(), updated);
                    lemma_first_index_facts(self.store.stored().messages, with_id(*id));
                    if tags_resolve(self.store.stored()) {
                        law_upsert_keeps_tags_resolving(self.store.stored(), updated);
                    }
                    lemma_upsert_same_message(self.store.stored(), updated);
                }
                self.store.upsert(updated);
            },
            None => {},
        }
    }

    /// Marks message `id` failed for `reason`.
    fn mark_failed(&mut self, id: &MessageId, reason: String)
        requires
            old(self).wf(),
        ensures
            tags_resolve(old(self).stored()) ==> tags_resolve(final(self).stored()),
            final(self).wf(),
            final(self).stored() == with_failure(old(self).stored(), *id, reason),
            same_messages(old(self).stored().messages, final(self).stored().messages),
            final(self).status() == old(self).status(),
            final(self).user() == old(self).user(),
            final(self).known_contacts() == old(self).known_contacts(),
            final(self).logged() == old(self).logged(),
    {
        match self.store.get(id) {
            Some(message) => {
                let updated = Message { state: MessageState::Failed(reason), ..message };
                proof {
                    law_upsert_keeps_store_wf(self.store.stored(), updated);
                    lemma_first_index_facts(self.store.stored().messages, with_id(*id));
                    if tags_resolve(self.store.stored()) {
                        law_upsert_keeps_tags_resolving(self.store.stored(), updated);
                    }
                    lemma_upsert_same_message(self.store.stored(), updated);
                }
                self.store.upsert(updated);
            },
            None => {},
        }
    }
}

/// The Matrix request for an entry: addressed to `to`, under the
/// transaction id of the message, marked as a backfill when SMS carried it
/// first.
fn matrix_request(entry: &OutboxEntry, to: MatrixUserId, is_backfill: bool) -> (r: MatrixSendRequest)
    ensures
        r.conversation == entry.conversation,
        r.to == to,
        r.body == entry.body,
        r.message_id == entry.id,
        r.origin_ts == entry.origin_ts,
        r.via_sms_fallback == is_backfill,
        r.txn_id@ == TXN_PREFIX@ + base32_digits(entry.id.0 as nat, MESSAGE_ID_LEN as nat),
        request_for(r, *entry, to, is_backfill),
{
    MatrixSendRequest {
        conversation: entry.conversation.clone(),
        to,
        body: entry.body.clone(),
        message_id: entry.id,
        origin_ts: entry.origin_ts,
        via_sms_fallback: is_backfill,
        txn_id: txn_id_for(entry.id),
    }
}

} // verus!
