//! Receiving: turning what the transports delivered into arriving copies,
//! reconciling each with the store, and carrying the decision out.

use vstd::prelude::*;
use crate::activity::{lemma_logged_at, logged_at, Activity};
use crate::client::Client;
use crate::directory::{by_matrix_id, by_phone, Contact};
use crate::id::{MessageId, ShortTag};
use crate::ids::IdGen;
use crate::message::{
    DeliverySet, Direction, MatrixDelivery, Message, SmsDelivery, SmsLocalCopy,
};
use crate::error::TransportError;
use crate::peer::SmsRowId;
use crate::peer::{ConversationId, PeerId};
use crate::reconcile::{
    incoming_conversation, incoming_tag, law_second_arrival_is_ignored, reconcile, spec_reconcile,
    spec_settle, Incoming, IncomingMatrix, IncomingSms, Reconciliation,
};
use crate::schema::{spec_content_message_id, MessageContent};
use crate::seqs::{first_index, first_of, lemma_first_index_facts};
use crate::sms_frame::{decode, spec_decode};
use crate::store::{
    index_names_messages, law_upsert_keeps_store_wf, law_upsert_replaces_rather_than_duplicates,
    law_upsert_then_find_by_tag, law_upsert_keeps_tags_resolving, spec_find_by_tag, spec_upsert, store_wf,
    tags_resolve, with_id, with_key,
    StoreView,
};
use crate::ports::{ConnectivityMonitor, Directory, MessageStore};
use crate::transport::{InboundMatrixEvent, InboundSms, MatrixTransport, SmsTransport};

verus! {

/// What one round of receiving did.
#[derive(Debug, Clone, Copy, PartialEq, Eq, Structural)]
pub struct IngestReport {
    /// Messages stored for the first time.
    pub inserted: usize,
    /// SMS rows dropped from the device because Matrix carried the message.
    pub superseded: usize,
    /// Copies already accounted for.
    pub ignored: usize,
}

impl Default for IngestReport {
    fn default() -> (r: Self)
        ensures
            r.inserted == 0 && r.superseded == 0 && r.ignored == 0,
    {
        IngestReport { inserted: 0, superseded: 0, ignored: 0 }
    }
}

/// The store after a reconciliation is carried out, `row_deleted` telling
/// whether the SMS row it asked to remove is gone. A new message is stored;
/// an attachment is made to the record under the kept id, if there is one;
/// a duplicate changes nothing.
pub open spec fn spec_apply(v: StoreView, r: Reconciliation, row_deleted: bool) -> StoreView {
    match r {
        Reconciliation::Insert(m) => spec_upsert(v, m),
        Reconciliation::Ignore => v,
        Reconciliation::AttachMatrix { keep, .. } => match first_of(v.messages, with_id(keep)) {
            Some(known) => spec_upsert(v, spec_settle(known, r, row_deleted)),
            None => v,
        },
        Reconciliation::Supersede { keep, .. } => match first_of(v.messages, with_id(keep)) {
            Some(known) => spec_upsert(v, spec_settle(known, r, row_deleted)),
            None => v,
        },
        Reconciliation::AttachSms { keep, .. } => match first_of(v.messages, with_id(keep)) {
            Some(known) => spec_upsert(v, spec_settle(known, r, row_deleted)),
            None => v,
        },
    }
}

/// `after` keeps every message of `before` at its place under its id,
/// possibly followed by new ones.
pub open spec fn ids_kept(before: Seq<Message>, after: Seq<Message>) -> bool {
    &&& before.len() <= after.len()
    &&& forall|i: int| 0 <= i < before.len() ==> #[trigger] after[i].id == before[i].id
}

/// Storing a message never loses one: it replaces the message with its id
/// in place, or joins the store at the end.
pub proof fn law_upsert_keeps_every_id(v: StoreView, m: Message)
    ensures
        ids_kept(v.messages, spec_upsert(v, m).messages),
{
    lemma_first_index_facts(v.messages, with_id(m.id));
}

/// The decision for an arriving copy against the store `v`, a new message
/// getting `local_id`.
pub open spec fn spec_decide(v: StoreView, incoming: Incoming, local_id: MessageId, direction: Direction) -> Reconciliation {
    spec_reconcile(
        incoming,
        spec_find_by_tag(v, incoming_conversation(incoming)@, incoming_tag(incoming)),
        local_id,
        direction,
    )
}

/// The peer a Matrix sender is: the contact with that Matrix id, or the id
/// itself for a stranger.
pub open spec fn matrix_sender_peer(contacts: Seq<Contact>, sender: Seq<char>) -> Seq<char> {
    match first_of(contacts, by_matrix_id(sender)) {
        Some(c) => c.peer@,
        None => sender,
    }
}

/// The peer an SMS comes from: the contact with that number, or the number
/// itself for a stranger.
pub open spec fn sms_sender_peer(contacts: Seq<Contact>, from: Seq<char>) -> Seq<char> {
    match first_of(contacts, by_phone(from)) {
        Some(c) => c.peer@,
        None => from,
    }
}

/// The SMS rows removed while carrying out decision `d` against the store
/// `v`: when Matrix supersedes a known message's SMS, or an SMS arrives for
/// a message whose row is to go, the device is asked to remove that row,
/// and `row_deleted` is whether it did; otherwise nothing is asked.
pub open spec fn removed_as(
    before: Seq<(SmsRowId, Result<(), TransportError>)>,
    after: Seq<(SmsRowId, Result<(), TransportError>)>,
    v: StoreView,
    d: Reconciliation,
    row_deleted: bool,
) -> bool {
    match d {
        Reconciliation::Supersede { keep, drop_sms, .. } => if first_of(v.messages, with_id(keep)) is Some {
            after == before.push((drop_sms, after.last().1)) && (row_deleted <==> after.last().1 is Ok)
        } else {
            after == before && !row_deleted
        },
        Reconciliation::AttachSms { keep, sms } => if first_of(v.messages, with_id(keep)) is Some
            && sms.local_copy == SmsLocalCopy::Removed {
            after == before.push((sms.row, after.last().1)) && (row_deleted <==> after.last().1 is Ok)
        } else {
            after == before && !row_deleted
        },
        _ => after == before && !row_deleted,
    }
}

/// Which way a Matrix arrival goes: one the user sent, from another of the
/// user's devices, is outgoing; any other is incoming.
pub open spec fn matrix_direction(contacts: Seq<Contact>, sender: Seq<char>, user: Seq<char>) -> Direction {
    if matrix_sender_peer(contacts, sender) == user {
        Direction::Outgoing
    } else {
        Direction::Incoming
    }
}

/// The report after one decision is carried out: a stored message counts as
/// inserted, a duplicate as ignored, and a removed SMS row as superseded;
/// each count stops at its limit.
pub open spec fn spec_count(r: IngestReport, d: Reconciliation, row_deleted: bool) -> IngestReport {
    match d {
        Reconciliation::Insert(_) => IngestReport { inserted: r.inserted.saturating_add(1), ..r },
        Reconciliation::Ignore => IngestReport { ignored: r.ignored.saturating_add(1), ..r },
        Reconciliation::AttachMatrix { .. } => r,
        Reconciliation::Supersede { .. } => if row_deleted {
            IngestReport { superseded: r.superseded.saturating_add(1), ..r }
        } else {
            r
        },
        Reconciliation::AttachSms { .. } => if row_deleted {
            IngestReport { superseded: r.superseded.saturating_add(1), ..r }
        } else {
            r
        },
    }
}

/// `incoming` is how a Matrix event with content `content`, from a sender
/// who is the peer `peer`, arrives; content that carries no message id gets
/// a freshly minted tag.
pub open spec fn matrix_arrival(
    incoming: Incoming,
    event: InboundMatrixEvent,
    content: MessageContent,
    peer: Seq<char>,
) -> bool {
    &&& incoming matches Incoming::Matrix(m)
    &&& m.conversation@ == peer
    &&& m.author@ == peer
    &&& m.body@ == content.body@
    &&& m.origin_ts == match content.parakeet_origin_ts {
        Some(t) => t,
        None => event.server_ts,
    }
    &&& spec_content_message_id(content) matches Some(id) ==> m.tag == ShortTag(
        (id.0 as int % crate::id::tag_span()) as u64,
    )
    &&& m.delivery.event_id@ == event.event_id@
    &&& m.delivery.server_ts == event.server_ts
}

/// `incoming` is how an SMS from the peer `peer` arrives: its trailer taken
/// off, tagged with the trailer's tag or, for a plain SMS, with a freshly
/// minted tag.
pub open spec fn sms_arrival(incoming: Incoming, sms: InboundSms, peer: Seq<char>) -> bool {
    &&& incoming matches Incoming::Sms(s)
    &&& s.conversation@ == peer
    &&& s.author@ == peer
    &&& s.body@ == spec_decode(sms.text@).0
    &&& spec_decode(sms.text@).1 matches Some(t) ==> s.tag == t
    &&& s.origin_ts == sms.received_ts
    &&& s.delivery == SmsDelivery { row: sms.row, ts: sms.received_ts, local_copy: SmsLocalCopy::Present }
}

/// `after` is the store `before` once the Matrix event `event` is received
/// by `user`, who knows `contacts`: unchanged for content that is no
/// message, else the decision for the event's arrival carried out.
pub open spec fn matrix_received(
    before: StoreView,
    after: StoreView,
    event: InboundMatrixEvent,
    contacts: Seq<Contact>,
    user: Seq<char>,
) -> bool {
    match event.content {
        None => after == before,
        Some(content) => exists|incoming: Incoming, local_id: MessageId, row_deleted: bool|
            matrix_arrival(incoming, event, content, matrix_sender_peer(contacts, event.sender@))
                && #[trigger] spec_apply(
                before,
                spec_decide(before, incoming, local_id, matrix_direction(contacts, event.sender@, user)),
                row_deleted,
            ) == after,
    }
}

/// `after` is the store `before` once the SMS `inbound` is received by a
/// user who knows `contacts`: the decision for its arrival carried out.
pub open spec fn sms_received(before: StoreView, after: StoreView, inbound: InboundSms, contacts: Seq<Contact>) -> bool {
    exists|incoming: Incoming, local_id: MessageId, row_deleted: bool|
        sms_arrival(incoming, inbound, sms_sender_peer(contacts, inbound.from@)) && #[trigger] spec_apply(
            before,
            spec_decide(before, incoming, local_id, Direction::Incoming),
            row_deleted,
        ) == after
}

/// `stores` runs from the store before receiving to the store after: each
/// Matrix event of `events` received in turn, then each SMS of `texts`.
pub open spec fn received_in_turn(
    stores: Seq<StoreView>,
    events: Seq<InboundMatrixEvent>,
    texts: Seq<InboundSms>,
    contacts: Seq<Contact>,
    user: Seq<char>,
) -> bool {
    &&& stores.len() == events.len() + texts.len() + 1
    &&& forall|k: int|
        #![trigger events[k]]
        0 <= k < events.len() ==> matrix_received(stores[k], stores[k + 1], events[k], contacts, user)
    &&& forall|j: int|
        #![trigger texts[j]]
        0 <= j < texts.len() ==> sms_received(
            stores[events.len() + j],
            stores[events.len() + j + 1],
            texts[j],
            contacts,
        )
}

impl<S: MessageStore, N: ConnectivityMonitor, I: IdGen, D: Directory> Client<S, N, I, D> {
    /// Receives everything the transports hold, Matrix first, and
    /// reconciles each arrival with the store.
    pub fn ingest<M: MatrixTransport, T: SmsTransport>(
        &mut self,
        matrix: &mut M,
        sms: &mut T,
        now_ms: u64,
    ) -> (report: IngestReport)
        requires
            old(self).wf(),
        ensures
            logged_at(old(self).logged(), final(self).logged(), now_ms),
            kept_or_received(old(self).stored().messages, final(self).stored().messages),
            final(matrix).account() == old(matrix).account(),
            final(matrix).link_on() == old(matrix).link_on(),
            forall|a: Seq<char>| #[trigger] final(matrix).link_of(a) == old(matrix).link_of(a),
            final(matrix).service_up() == old(matrix).service_up(),
            final(self).wf(),
            final(self).stored().outbox == old(self).stored().outbox,
            ids_kept(old(self).stored().messages, final(self).stored().messages),
            final(self).status() == old(self).status(),
            final(self).user() == old(self).user(),
            final(self).known_contacts() == old(self).known_contacts(),
            final(matrix).waiting().len() == 0,
            final(sms).waiting().len() == 0,
            final(matrix).sent() == old(matrix).sent(),
            final(sms).sent() == old(sms).sent(),
            tags_resolve(old(self).stored()) ==> tags_resolve(final(self).stored()),
            report.inserted + report.superseded + report.ignored <= old(matrix).waiting().len()
                + old(sms).waiting().len(),
            exists|stores: Seq<StoreView>|
                received_in_turn(
                    stores,
                    old(matrix).waiting(),
                    old(sms).waiting(),
                    old(self).known_contacts(),
                    old(self).user()@,
                ) && stores[0] == old(self).stored() && #[trigger] stores.last() == final(self).stored(),
    {
        proof {
            lemma_logged_at();
        }
        let mut report = IngestReport::default();
        let events = matrix.drain_inbound();
        let ghost contacts = self.known_contacts();
        let ghost user = self.user()@;
        let ghost mut stores: Seq<StoreView> = seq![self.stored()];
        proof {
            let m = self.stored().messages;
            assert forall|i: int| 0 <= i < m.len() implies crate::send::same_message(m[i], #[trigger] m[i])
                || m[i].author@ == m[i].conversation@ by {}
        }
        let mut i: usize = 0;
        while i < events.len()
            invariant
                matrix.account() == old(matrix).account(),
                matrix.link_on() == old(matrix).link_on(),
                forall|a: Seq<char>| #[trigger] matrix.link_of(a) == old(matrix).link_of(a),
                matrix.service_up() == old(matrix).service_up(),
                stores.len() == i + 1,
                stores[0] == old(self).stored(),
                stores.last() == self.stored(),
                contacts == old(self).known_contacts(),
                user == old(self).user()@,
                forall|k: int|
                    #![trigger events@[k]]
                    0 <= k < i ==> matrix_received(stores[k], stores[k + 1], events@[k], contacts, user),
                self.wf(),
                i <= events@.len(),
                self.stored().outbox == old(self).stored().outbox,
                ids_kept(old(self).stored().messages, self.stored().messages),
                self.status() == old(self).status(),
                self.user() == old(self).user(),
                self.known_contacts() == old(self).known_contacts(),
                events@ == old(matrix).waiting(),
                sms.waiting() == old(sms).waiting(),
                tags_resolve(old(self).stored()) ==> tags_resolve(self.stored()),
                kept_or_received(old(self).stored().messages, self.stored().messages),
                logged_at(old(self).logged(), self.logged(), now_ms),
                matrix.sent() == old(matrix).sent(),
                sms.sent() == old(sms).sent(),
                report.inserted + report.superseded + report.ignored <= i,
            decreases events@.len() - i,
        {
            let ghost before_event = self.stored();
            self.ingest_matrix(sms, events[i].clone(), now_ms, &mut report);
            proof {
                if tags_resolve(old(self).stored()) {
                    lemma_matrix_received_keeps_tags(before_event, self.stored(), events@[i as int], contacts, user);
                }
                lemma_kept_or_received_trans(old(self).stored().messages, before_event.messages, self.stored().messages);
                let prev = stores;
                stores = stores.push(self.stored());
                assert forall|k: int|
                    #![trigger events@[k]]
                    0 <= k < i + 1 implies matrix_received(stores[k], stores[k + 1], events@[k], contacts, user) by {
                    if k < i {
                        assert(stores[k] == prev[k] && stores[k + 1] == prev[k + 1]);
                    }
                }
            }
            i += 1;
        }
        let texts = sms.drain_inbound();
        let ghost m = events@.len();
        let mut j: usize = 0;
        while j < texts.len()
            invariant
                matrix.account() == old(matrix).account(),
                matrix.link_on() == old(matrix).link_on(),
                forall|a: Seq<char>| #[trigger] matrix.link_of(a) == old(matrix).link_of(a),
                matrix.service_up() == old(matrix).service_up(),
                m == events@.len(),
                stores.len() == m + j + 1,
                stores[0] == old(self).stored(),
                stores.last() == self.stored(),
                contacts == old(self).known_contacts(),
                user == old(self).user()@,
                events@ == old(matrix).waiting(),
                forall|k: int|
                    #![trigger events@[k]]
                    0 <= k < m ==> matrix_received(stores[k], stores[k + 1], events@[k], contacts, user),
                forall|k: int|
                    #![trigger texts@[k]]
                    0 <= k < j ==> sms_received(stores[m + k], stores[m + k + 1], texts@[k], contacts),
                self.wf(),
                j <= texts@.len(),
                self.stored().outbox == old(self).stored().outbox,
                ids_kept(old(self).stored().messages, self.stored().messages),
                self.status() == old(self).status(),
                self.user() == old(self).user(),
                self.known_contacts() == old(self).known_contacts(),
                texts@ == old(sms).waiting(),
                sms.waiting().len() == 0,
                tags_resolve(old(self).stored()) ==> tags_resolve(self.stored()),
                kept_or_received(old(self).stored().messages, self.stored().messages),
                logged_at(old(self).logged(), self.logged(), now_ms),
                matrix.sent() == old(matrix).sent(),
                sms.sent() == old(sms).sent(),
                report.inserted + report.superseded + report.ignored <= old(matrix).waiting().len()
                    + j,
            decreases texts@.len() - j,
        {
            let ghost before_sms = self.stored();
            self.ingest_sms(sms, texts[j].clone(), now_ms, &mut report);
            proof {
                if tags_resolve(old(self).stored()) {
                    lemma_sms_received_keeps_tags(before_sms, self.stored(), texts@[j as int], contacts);
                }
                lemma_kept_or_received_trans(old(self).stored().messages, before_sms.messages, self.stored().messages);
                let prev = stores;
                stores = stores.push(self.stored());
                assert forall|k: int|
                    #![trigger events@[k]]
                    0 <= k < m implies matrix_received(stores[k], stores[k + 1], events@[k], contacts, user) by {
                    assert(stores[k] == prev[k] && stores[k + 1] == prev[k + 1]);
                }
                assert forall|k: int|
                    #![trigger texts@[k]]
                    0 <= k < j + 1 implies sms_received(stores[m + k], stores[m + k + 1], texts@[k], contacts) by {
                    if k < j {
                        assert(stores[m + k] == prev[m + k] && stores[m + k + 1] == prev[m + k + 1]);
                    }
                }
            }
            j += 1;
        }
        proof {
            assert(received_in_turn(stores, old(matrix).waiting(), old(sms).waiting(), contacts, user));
        }
        report
    }

    /// The arriving copy a Matrix event makes, and whether it is ours.
    fn matrix_incoming(&mut self, event: InboundMatrixEvent, content: MessageContent, now_ms: u64) -> (r: (
        Incoming,
        Direction,
    ))
        ensures
            final(self).stored() == old(self).stored(),
            final(self).status() == old(self).status(),
            final(self).user() == old(self).user(),
            final(self).known_contacts() == old(self).known_contacts(),
            final(self).logged() == old(self).logged(),
            matrix_arrival(
                r.0,
                event,
                content,
                matrix_sender_peer(old(self).known_contacts(), event.sender@),
            ),
            r.1 == matrix_direction(old(self).known_contacts(), event.sender@, old(self).user()@),
    {
        let ghost ev = event;
        let ghost ct = content;
        let peer = match self.directory.peer_by_matrix_id(&event.sender) {
            Some(p) => p,
            None => PeerId::new(event.sender.as_str()),
        };
        let conversation = ConversationId::with_peer(&peer);
        let tag = match content.message_id() {
            Some(id) => id.short_tag(),
            None => self.ids.mint_tag(now_ms),
        };
        let direction = if peer.same_as(&self.me) {
            Direction::Outgoing
        } else {
            Direction::Incoming
        };
        let origin_ts = content.origin_ts_or(event.server_ts);
        let incoming = Incoming::Matrix(
            IncomingMatrix {
                conversation,
                author: peer,
                body: content.body,
                origin_ts,
                tag,
                delivery: MatrixDelivery { event_id: event.event_id, server_ts: event.server_ts },
            },
        );
        proof {
            assert(matrix_arrival(incoming, ev, ct, matrix_sender_peer(self.directory.listed(), ev.sender@)));
        }
        (incoming, direction)
    }

    /// Receives one Matrix event; content that does not read as a message is
    /// skipped.
    fn ingest_matrix<T: SmsTransport>(
        &mut self,
        sms: &mut T,
        event: InboundMatrixEvent,
        now_ms: u64,
        report: &mut IngestReport,
    )
        requires
            old(self).wf(),
        ensures
            logged_at(old(self).logged(), final(self).logged(), now_ms),
            kept_or_received(old(self).stored().messages, final(self).stored().messages),
            final(self).wf(),
            final(self).stored().outbox == old(self).stored().outbox,
            ids_kept(old(self).stored().messages, final(self).stored().messages),
            final(self).status() == old(self).status(),
            final(self).user() == old(self).user(),
            final(self).known_contacts() == old(self).known_contacts(),
            final(sms).waiting() == old(sms).waiting(),
            final(sms).sent() == old(sms).sent(),
            final(report).inserted + final(report).superseded + final(report).ignored <= old(report).inserted + old(report).superseded + old(report).ignored + 1,
            match event.content {
                None => final(self).stored() == old(self).stored() && *final(report) == *old(report),
                Some(content) => exists|incoming: Incoming, local_id: MessageId, row_deleted: bool|
                    matrix_arrival(
                        incoming,
                        event,
                        content,
                        matrix_sender_peer(old(self).known_contacts(), event.sender@),
                    ) && #[trigger] spec_apply(
                        old(self).stored(),
                        spec_decide(
                            old(self).stored(),
                            incoming,
                            local_id,
                            matrix_direction(old(self).known_contacts(), event.sender@, old(self).user()@),
                        ),
                        row_deleted,
                    ) == final(self).stored() && *final(report) == spec_count(
                        *old(report),
                        spec_decide(
                            old(self).stored(),
                            incoming,
                            local_id,
                            matrix_direction(old(self).known_contacts(), event.sender@, old(self).user()@),
                        ),
                        row_deleted,
                    ) && removed_as(
                        old(sms).removals(),
                        final(sms).removals(),
                        old(self).stored(),
                        spec_decide(
                            old(self).stored(),
                            incoming,
                            local_id,
                            matrix_direction(old(self).known_contacts(), event.sender@, old(self).user()@),
                        ),
                        row_deleted,
                    ),
            },
            event.content is None ==> final(sms).removals() == old(sms).removals(),
            matrix_received(
                old(self).stored(),
                final(self).stored(),
                event,
                old(self).known_contacts(),
                old(self).user()@,
            ),
    {
        proof {
            lemma_logged_at();
        }
        let ghost ev = event;
        let content = match event.content {
            Some(ref c) => c.clone(),
            None => {
                proof {
                    let m = self.stored().messages;
                    assert forall|i: int| 0 <= i < m.len() implies crate::send::same_message(m[i], #[trigger] m[i])
                        || m[i].author@ == m[i].conversation@ by {}
                }
                return ;
            },
        };
        let ghost v = self.stored();
        let ghost r0 = *report;
        let ghost rm0 = sms.removals();
        let ghost ct = content;
        let (incoming, direction) = self.matrix_incoming(event, content, now_ms);
        let ghost inc = incoming;
        let local_id = self.ids.mint(now_ms);
        self.apply(sms, incoming, direction, local_id, now_ms, report);
        proof {
            let row_deleted = choose|row_deleted: bool|
                self.stored() == spec_apply(v, spec_decide(v, inc, local_id, direction), row_deleted)
                    && *report == spec_count(r0, spec_decide(v, inc, local_id, direction), row_deleted)
                    && removed_as(rm0, sms.removals(), v, spec_decide(v, inc, local_id, direction), row_deleted);
            assert(spec_apply(v, spec_decide(v, inc, local_id, direction), row_deleted) == self.stored());
            assert(ev.content == Some(ct));
            lemma_apply_keeps_or_receives(v, inc, local_id, direction, row_deleted);
        }
    }

    /// The arriving copy an SMS makes, its trailer taken off.
    fn sms_incoming(&mut self, inbound: InboundSms, now_ms: u64) -> (r: (Incoming, bool))
        ensures
            final(self).stored() == old(self).stored(),
            final(self).status() == old(self).status(),
            final(self).user() == old(self).user(),
            final(self).known_contacts() == old(self).known_contacts(),
            final(self).logged() == old(self).logged(),
            sms_arrival(r.0, inbound, sms_sender_peer(old(self).known_contacts(), inbound.from@)),
            r.1 == spec_decode(inbound.text@).1 is Some,
    {
        let ghost sm = inbound;
        let framed = decode(inbound.text.as_str());
        let peer = match self.directory.peer_by_phone(&inbound.from) {
            Some(p) => p,
            None => PeerId::new(inbound.from.as_str()),
        };
        let conversation = ConversationId::with_peer(&peer);
        let from_app = framed.tag.is_some();
        let tag = match framed.tag {
            Some(t) => t,
            None => self.ids.mint_tag(now_ms),
        };
        let incoming = Incoming::Sms(
            IncomingSms {
                conversation,
                author: peer,
                body: framed.body,
                origin_ts: inbound.received_ts,
                tag,
                delivery: SmsDelivery {
                    row: inbound.row,
                    ts: inbound.received_ts,
                    local_copy: SmsLocalCopy::Present,
                },
            },
        );
        proof {
            assert(sms_arrival(incoming, sm, sms_sender_peer(self.directory.listed(), sm.from@)));
        }
        (incoming, from_app)
    }

    /// Receives one SMS.
    fn ingest_sms<T: SmsTransport>(
        &mut self,
        sms: &mut T,
        inbound: InboundSms,
        now_ms: u64,
        report: &mut IngestReport,
    )
        requires
            old(self).wf(),
        ensures
            logged_at(old(self).logged(), final(self).logged(), now_ms),
            kept_or_received(old(self).stored().messages, final(self).stored().messages),
            final(self).wf(),
            final(self).stored().outbox == old(self).stored().outbox,
            ids_kept(old(self).stored().messages, final(self).stored().messages),
            final(self).status() == old(self).status(),
            final(self).user() == old(self).user(),
            final(self).known_contacts() == old(self).known_contacts(),
            final(sms).waiting() == old(sms).waiting(),
            final(sms).sent() == old(sms).sent(),
            final(report).inserted + final(report).superseded + final(report).ignored <= old(report).inserted + old(report).superseded + old(report).ignored + 1,
            exists|incoming: Incoming, local_id: MessageId, row_deleted: bool|
                sms_arrival(incoming, inbound, sms_sender_peer(old(self).known_contacts(), inbound.from@))
                    && #[trigger] spec_apply(
                    old(self).stored(),
                    spec_decide(old(self).stored(), incoming, local_id, Direction::Incoming),
                    row_deleted,
                ) == final(self).stored() && *final(report) == spec_count(
                    *old(report),
                    spec_decide(old(self).stored(), incoming, local_id, Direction::Incoming),
                    row_deleted,
                ) && removed_as(
                    old(sms).removals(),
                    final(sms).removals(),
                    old(self).stored(),
                    spec_decide(old(self).stored(), incoming, local_id, Direction::Incoming),
                    row_deleted,
                ),
            sms_received(old(self).stored(), final(self).stored(), inbound, old(self).known_contacts()),
    {
        proof {
            lemma_logged_at();
        }
        let ghost v = self.stored();
        let ghost r0 = *report;
        let ghost rm0 = sms.removals();
        let (incoming, from_app) = self.sms_incoming(inbound, now_ms);
        let ghost inc = incoming;
        let tag = incoming.tag();
        self.log.record(now_ms, Activity::ReceivedSms { tag, from_app });
        let local_id = self.ids.mint(now_ms);
        self.apply(sms, incoming, Direction::Incoming, local_id, now_ms, report);
        proof {
            let row_deleted = choose|row_deleted: bool|
                self.stored() == spec_apply(v, spec_decide(v, inc, local_id, Direction::Incoming), row_deleted)
                    && *report == spec_count(r0, spec_decide(v, inc, local_id, Direction::Incoming), row_deleted)
                    && removed_as(rm0, sms.removals(), v, spec_decide(v, inc, local_id, Direction::Incoming), row_deleted);
            assert(spec_apply(v, spec_decide(v, inc, local_id, Direction::Incoming), row_deleted) == self.stored());
            lemma_apply_keeps_or_receives(v, inc, local_id, Direction::Incoming, row_deleted);
        }
    }

    /// Reconciles an arriving copy with the store and carries the decision
    /// out: a new message is stored under `local_id`; a known one gets the
    /// delivery attached, and the device's SMS row is removed when Matrix
    /// carried the message; a duplicate is only logged.
    pub(crate) fn apply<T: SmsTransport>(
        &mut self,
        sms: &mut T,
        incoming: Incoming,
        direction: Direction,
        local_id: MessageId,
        now_ms: u64,
        report: &mut IngestReport,
    )
        requires
            old(self).wf(),
        ensures
            logged_at(old(self).logged(), final(self).logged(), now_ms),
            final(self).wf(),
            exists|row_deleted: bool|
                final(self).stored() == spec_apply(
                    old(self).stored(),
                    spec_decide(old(self).stored(), incoming, local_id, direction),
                    row_deleted,
                ) && *final(report) == spec_count(
                    *old(report),
                    spec_decide(old(self).stored(), incoming, local_id, direction),
                    row_deleted,
                ) && removed_as(
                    old(sms).removals(),
                    final(sms).removals(),
                    old(self).stored(),
                    spec_decide(old(self).stored(), incoming, local_id, direction),
                    row_deleted,
                ),
            final(sms).sent() == old(sms).sent(),
            ids_kept(old(self).stored().messages, final(self).stored().messages),
            final(self).stored().outbox == old(self).stored().outbox,
            final(sms).waiting() == old(sms).waiting(),
            final(report).inserted + final(report).superseded + final(report).ignored <= old(report).inserted + old(report).superseded + old(report).ignored + 1,
            final(self).status() == old(self).status(),
            final(self).user() == old(self).user(),
            final(self).known_contacts() == old(self).known_contacts(),
    {
        proof {
            lemma_logged_at();
        }
        let conversation = incoming.conversation().clone();
        let tag = incoming.tag();
        let is_matrix = match &incoming {
            Incoming::Matrix(_) => true,
            Incoming::Sms(_) => false,
        };
        let existing = self.store.find_by_tag(&conversation, tag);
        let ghost v = self.store.stored();
        let ghost r0 = *report;
        let ghost rm0 = sms.removals();
        let r = reconcile(&incoming, existing.as_ref(), local_id, direction);
        let ghost rr = r;
        proof {
            assert(rr == spec_decide(v, incoming, local_id, direction));
        }
        match r {
            Reconciliation::Insert(message) => {
                if is_matrix {
                    self.log.record(now_ms, Activity::ReceivedMatrix { tag });
                }
                proof {
                    law_upsert_keeps_store_wf(v, message);
                    law_upsert_keeps_every_id(v, message);
                }
                self.store.upsert(message);
                report.inserted = report.inserted.saturating_add(1);
                proof {
                    assert(self.stored() == spec_apply(v, rr, false));
                            assert(*report == spec_count(r0, rr, false));
                            assert(removed_as(rm0, sms.removals(), v, rr, false));
                }
            },
            Reconciliation::AttachMatrix { keep, matrix } => {
                self.log.record(now_ms, Activity::ReceivedMatrix { tag });
                match self.store.get(&keep) {
                    Some(message) => {
                        let settled = Message {
                            delivery: DeliverySet { matrix: Some(matrix), sms: message.delivery.sms },
                            ..message
                        };
                        proof {
                            law_upsert_keeps_store_wf(v, settled);
                            law_upsert_keeps_every_id(v, settled);
                        }
                        self.store.upsert(settled);
                        proof {
                            assert(self.stored() == spec_apply(v, rr, false));
                            assert(*report == spec_count(r0, rr, false));
                            assert(removed_as(rm0, sms.removals(), v, rr, false));
                        }
                    },
                    None => {
                        proof {
                            assert(self.stored() == spec_apply(v, rr, false));
                            assert(*report == spec_count(r0, rr, false));
                            assert(removed_as(rm0, sms.removals(), v, rr, false));
                        }
                    },
                }
            },
            Reconciliation::Supersede { keep, matrix, drop_sms } => {
                self.log.record(now_ms, Activity::ReceivedMatrix { tag });
                match self.store.get(&keep) {
                    Some(message) => {
                        let outcome = sms.delete_local(&drop_sms);
                        let row_deleted = outcome.is_ok();
                        let sms_copy = match message.delivery.sms {
                            Some(s) => Some(
                                if row_deleted {
                                    SmsDelivery { local_copy: SmsLocalCopy::Removed, ..s }
                                } else {
                                    s
                                },
                            ),
                            None => None,
                        };
                        match outcome {
                            Ok(()) => {
                                self.log.record(
                                    now_ms,
                                    Activity::Superseded { id: keep, dropped_row: drop_sms },
                                );
                                report.superseded = report.superseded.saturating_add(1);
                            },
                            Err(err) => {
                                self.log.record(
                                    now_ms,
                                    Activity::SupersedeIncomplete { id: keep, reason: err.text() },
                                );
                            },
                        }
                        let settled = Message {
                            delivery: DeliverySet { matrix: Some(matrix), sms: sms_copy },
                            ..message
                        };
                        proof {
                            law_upsert_keeps_store_wf(v, settled);
                            law_upsert_keeps_every_id(v, settled);
                        }
                        self.store.upsert(settled);
                        proof {
                            assert(self.stored() == spec_apply(v, rr, row_deleted));
                            assert(*report == spec_count(r0, rr, row_deleted));
                            assert(removed_as(rm0, sms.removals(), v, rr, row_deleted));
                        }
                    },
                    None => {
                        proof {
                            assert(self.stored() == spec_apply(v, rr, false));
                            assert(*report == spec_count(r0, rr, false));
                            assert(removed_as(rm0, sms.removals(), v, rr, false));
                        }
                    },
                }
            },
            Reconciliation::AttachSms { keep, sms: delivery } => {
                match self.store.get(&keep) {
                    Some(message) => {
                        let ghost requested = delivery;
                        let mut delivery = delivery;
                        let mut row_deleted = false;
                        if delivery.local_copy == SmsLocalCopy::Removed {
                            match sms.delete_local(&delivery.row) {
                                Ok(()) => {
                                    row_deleted = true;
                                    self.log.record(
                                        now_ms,
                                        Activity::Superseded {
                                            id: keep,
                                            dropped_row: delivery.row.clone(),
                                        },
                                    );
                                    report.superseded = report.superseded.saturating_add(1);
                                },
                                Err(err) => {
                                    delivery.local_copy = SmsLocalCopy::Present;
                                    self.log.record(
                                        now_ms,
                                        Activity::SupersedeIncomplete {
                                            id: keep,
                                            reason: err.text(),
                                        },
                                    );
                                },
                            }
                        }
                        let settled = Message {
                            delivery: DeliverySet { matrix: message.delivery.matrix, sms: Some(delivery) },
                            ..message
                        };
                        proof {
                            law_upsert_keeps_store_wf(v, settled);
                            law_upsert_keeps_every_id(v, settled);
                        }
                        self.store.upsert(settled);
                        proof {
                            assert(self.stored() == spec_apply(v, rr, row_deleted));
                            assert(*report == spec_count(r0, rr, row_deleted));
                            assert(removed_as(rm0, sms.removals(), v, rr, row_deleted));
                        }
                    },
                    None => {
                        proof {
                            assert(self.stored() == spec_apply(v, rr, false));
                            assert(*report == spec_count(r0, rr, false));
                            assert(removed_as(rm0, sms.removals(), v, rr, false));
                        }
                    },
                }
            },
            Reconciliation::Ignore => {
                self.log.record(now_ms, Activity::Ignored { tag });
                report.ignored = report.ignored.saturating_add(1);
                proof {
                    assert(self.stored() == spec_apply(v, rr, false));
                            assert(*report == spec_count(r0, rr, false));
                            assert(removed_as(rm0, sms.removals(), v, rr, false));
                }
            },
        }
    }
}

/// What the store files under an arriving copy's tag is, in a consistent
/// store, a stored message of that very conversation and tag, found again
/// by its id.
proof fn lemma_found_is_stored(v: StoreView, incoming: Incoming)
    requires
        store_wf(v),
    ensures
        spec_find_by_tag(v, incoming_conversation(incoming)@, incoming_tag(incoming)) matches Some(
            known,
        ) ==> known.conversation@ == incoming_conversation(incoming)@ && known.tag == incoming_tag(
            incoming,
        ) && first_of(v.messages, with_id(known.id)) == Some(known),
{
    let c = incoming_conversation(incoming)@;
    let t = incoming_tag(incoming);
    lemma_first_index_facts(v.index, with_key(c, t));
    match first_index(v.index, with_key(c, t)) {
        Some(i) => {
            let e = v.index[i];
            assert(index_names_messages(v.messages, v.index));
            assert(first_of(v.messages, with_id(v.index[i].id)) is Some);
            lemma_first_index_facts(v.messages, with_id(e.id));
        },
        None => {},
    }
}

/// Receiving is idempotent, whatever became of the SMS row: once an
/// arriving copy has been reconciled into a consistent store and the
/// decision carried out, the same copy arriving again is ignored. Repeated
/// syncs never store a message twice.
pub proof fn law_repeated_arrival_is_ignored(
    v: StoreView,
    incoming: Incoming,
    first_id: MessageId,
    second_id: MessageId,
    direction: Direction,
    row_deleted: bool,
)
    requires
        store_wf(v),
    ensures
        spec_decide(
            spec_apply(v, spec_decide(v, incoming, first_id, direction), row_deleted),
            incoming,
            second_id,
            direction,
        ) == Reconciliation::Ignore,
{
    let c = incoming_conversation(incoming)@;
    let t = incoming_tag(incoming);
    let existing = spec_find_by_tag(v, c, t);
    let r = spec_decide(v, incoming, first_id, direction);
    lemma_found_is_stored(v, incoming);
    law_second_arrival_is_ignored(incoming, existing, first_id, second_id, direction, row_deleted);
    match r {
        Reconciliation::Insert(m) => {
            law_upsert_then_find_by_tag(v, m);
        },
        Reconciliation::Ignore => {},
        _ => {
            let known = existing.unwrap();
            let kept = spec_settle(known, r, row_deleted);
            law_upsert_then_find_by_tag(v, kept);
        },
    }
}

/// Each message of `before` keeps its record in `after`, or was replaced
/// there by a copy that arrived: one written by the peer of its own
/// conversation.
pub open spec fn kept_or_received(before: Seq<Message>, after: Seq<Message>) -> bool {
    &&& before.len() <= after.len()
    &&& forall|i: int|
        0 <= i < before.len() ==> crate::send::same_message(before[i], #[trigger] after[i])
            || after[i].author@ == after[i].conversation@
}

/// Two rounds of keeping or receiving are one.
pub proof fn lemma_kept_or_received_trans(a: Seq<Message>, b: Seq<Message>, c: Seq<Message>)
    requires
        kept_or_received(a, b),
        kept_or_received(b, c),
    ensures
        kept_or_received(a, c),
{
    assert forall|i: int| 0 <= i < a.len() implies crate::send::same_message(a[i], #[trigger] c[i])
        || c[i].author@ == c[i].conversation@ by {
        assert(crate::send::same_message(b[i], c[i]) || c[i].author@ == c[i].conversation@);
    }
}

/// An arriving copy is written by the peer of its conversation.
pub open spec fn from_its_peer(incoming: Incoming) -> bool {
    match incoming {
        Incoming::Matrix(m) => m.author@ == m.conversation@,
        Incoming::Sms(s) => s.author@ == s.conversation@,
    }
}

/// Carrying out a decision keeps every stored record, or replaces it by
/// the arriving copy.
proof fn lemma_apply_keeps_or_receives(
    v: StoreView,
    incoming: Incoming,
    local_id: MessageId,
    direction: Direction,
    row_deleted: bool,
)
    requires
        from_its_peer(incoming),
    ensures
        kept_or_received(
            v.messages,
            spec_apply(v, spec_decide(v, incoming, local_id, direction), row_deleted).messages,
        ),
{
    let r = spec_decide(v, incoming, local_id, direction);
    let after = spec_apply(v, r, row_deleted).messages;
    lemma_first_index_facts(v.messages, with_id(local_id));
    match r {
        Reconciliation::Insert(m) => {
            lemma_first_index_facts(v.messages, with_id(m.id));
            assert forall|i: int| 0 <= i < v.messages.len() implies crate::send::same_message(
                v.messages[i],
                #[trigger] after[i],
            ) || after[i].author@ == after[i].conversation@ by {
                if after[i] != v.messages[i] {
                    assert(after[i] == m);
                }
            }
        },
        Reconciliation::Ignore => {
            assert forall|i: int| 0 <= i < v.messages.len() implies crate::send::same_message(
                v.messages[i],
                #[trigger] after[i],
            ) || after[i].author@ == after[i].conversation@ by {}
        },
        _ => {
            let keep = match r {
                Reconciliation::AttachMatrix { keep, .. } => keep,
                Reconciliation::Supersede { keep, .. } => keep,
                Reconciliation::AttachSms { keep, .. } => keep,
                _ => local_id,
            };
            lemma_first_index_facts(v.messages, with_id(keep));
            if let Some(known) = first_of(v.messages, with_id(keep)) {
                let kept = spec_settle(known, r, row_deleted);
                lemma_first_index_facts(v.messages, with_id(kept.id));
                assert forall|i: int| 0 <= i < v.messages.len() implies crate::send::same_message(
                    v.messages[i],
                    #[trigger] after[i],
                ) || after[i].author@ == after[i].conversation@ by {
                    if after[i] != v.messages[i] {
                        assert(after[i] == kept);
                    }
                }
            } else {
                assert forall|i: int| 0 <= i < v.messages.len() implies crate::send::same_message(
                    v.messages[i],
                    #[trigger] after[i],
                ) || after[i].author@ == after[i].conversation@ by {}
            }
        },
    }
}

/// Receiving never files a second message under one tag: where every
/// stored message is what its conversation and tag find, it stays so once
/// an arrival is reconciled and the decision carried out. Repeated syncs
/// and overtaking copies leave one message per tag in each thread.
pub proof fn law_arrival_keeps_tags_resolving(
    v: StoreView,
    incoming: Incoming,
    local_id: MessageId,
    direction: Direction,
    row_deleted: bool,
)
    requires
        store_wf(v),
        tags_resolve(v),
    ensures
        tags_resolve(spec_apply(v, spec_decide(v, incoming, local_id, direction), row_deleted)),
{
    lemma_found_is_stored(v, incoming);
    let existing = spec_find_by_tag(v, incoming_conversation(incoming)@, incoming_tag(incoming));
    let r = spec_decide(v, incoming, local_id, direction);
    match r {
        Reconciliation::Insert(m) => {
            law_upsert_keeps_tags_resolving(v, m);
        },
        Reconciliation::Ignore => {},
        _ => {
            let known = existing.unwrap();
            law_upsert_keeps_tags_resolving(v, spec_settle(known, r, row_deleted));
        },
    }
}

/// Receiving a Matrix event keeps tags resolving.
proof fn lemma_matrix_received_keeps_tags(
    before: StoreView,
    after: StoreView,
    event: InboundMatrixEvent,
    contacts: Seq<Contact>,
    user: Seq<char>,
)
    requires
        store_wf(before),
        tags_resolve(before),
        matrix_received(before, after, event, contacts, user),
    ensures
        tags_resolve(after),
{
    if let Some(content) = event.content {
        let (incoming, local_id, row_deleted) = choose|incoming: Incoming, local_id: MessageId, row_deleted: bool|
            matrix_arrival(incoming, event, content, matrix_sender_peer(contacts, event.sender@))
                && #[trigger] spec_apply(
                before,
                spec_decide(before, incoming, local_id, matrix_direction(contacts, event.sender@, user)),
                row_deleted,
            ) == after;
        law_arrival_keeps_tags_resolving(
            before,
            incoming,
            local_id,
            matrix_direction(contacts, event.sender@, user),
            row_deleted,
        );
    }
}

/// Receiving an SMS keeps tags resolving.
proof fn lemma_sms_received_keeps_tags(before: StoreView, after: StoreView, inbound: InboundSms, contacts: Seq<Contact>)
    requires
        store_wf(before),
        tags_resolve(before),
        sms_received(before, after, inbound, contacts),
    ensures
        tags_resolve(after),
{
    let (incoming, local_id, row_deleted) = choose|incoming: Incoming, local_id: MessageId, row_deleted: bool|
        sms_arrival(incoming, inbound, sms_sender_peer(contacts, inbound.from@)) && #[trigger] spec_apply(
            before,
            spec_decide(before, incoming, local_id, Direction::Incoming),
            row_deleted,
        ) == after;
    law_arrival_keeps_tags_resolving(before, incoming, local_id, Direction::Incoming, row_deleted);
}

/// A copy of a message already filed in its conversation never adds a
/// message to the store: it is attached to the record, or ignored.
pub proof fn law_known_tag_adds_no_message(
    v: StoreView,
    incoming: Incoming,
    local_id: MessageId,
    direction: Direction,
    row_deleted: bool,
)
    requires
        store_wf(v),
        spec_find_by_tag(v, incoming_conversation(incoming)@, incoming_tag(incoming)) is Some,
    ensures
        spec_apply(v, spec_decide(v, incoming, local_id, direction), row_deleted).messages.len()
            == v.messages.len(),
{
    lemma_found_is_stored(v, incoming);
    let known = spec_find_by_tag(v, incoming_conversation(incoming)@, incoming_tag(incoming)).unwrap();
    let r = spec_decide(v, incoming, local_id, direction);
    match r {
        Reconciliation::Ignore => {},
        Reconciliation::Insert(_) => {},
        _ => {
            law_upsert_replaces_rather_than_duplicates(v, spec_settle(known, r, row_deleted));
        },
    }
}

/// A Matrix event that makes a new message makes it from its sender: the
/// record's author and conversation are the peer the sender resolves to,
/// and the record is incoming, unless that peer is the user, whose own
/// message coming back from another of the user's devices is outgoing. So
/// a new record is outgoing exactly when its author is the user.
pub proof fn law_new_matrix_record_follows_its_sender(
    before: StoreView,
    after: StoreView,
    event: InboundMatrixEvent,
    contacts: Seq<Contact>,
    user: Seq<char>,
    k: int,
)
    requires
        matrix_received(before, after, event, contacts, user),
        0 <= k < after.messages.len(),
        forall|j: int| 0 <= j < before.messages.len() ==> #[trigger] before.messages[j].id != after.messages[k].id,
    ensures
        after.messages[k].author@ == matrix_sender_peer(contacts, event.sender@),
        after.messages[k].conversation@ == matrix_sender_peer(contacts, event.sender@),
        matrix_sender_peer(contacts, event.sender@) != user ==> after.messages[k].direction == Direction::Incoming,
        matrix_sender_peer(contacts, event.sender@) == user ==> after.messages[k].direction == Direction::Outgoing,
        (after.messages[k].direction == Direction::Outgoing) == (after.messages[k].author@ == user),
{
    let content = event.content.unwrap();
    let peer = matrix_sender_peer(contacts, event.sender@);
    let dir = matrix_direction(contacts, event.sender@, user);
    let (incoming, local_id, row_deleted) = choose|incoming: Incoming, local_id: MessageId, row_deleted: bool|
        matrix_arrival(incoming, event, content, peer) && #[trigger] spec_apply(
            before,
            spec_decide(before, incoming, local_id, dir),
            row_deleted,
        ) == after;
    let d = spec_decide(before, incoming, local_id, dir);
    let x = after.messages[k];
    match d {
        Reconciliation::Insert(m) => {
            lemma_first_index_facts(before.messages, with_id(m.id));
            match first_index(before.messages, with_id(m.id)) {
                Some(i) => {
                    if k != i {
                        assert(after.messages[k] == before.messages[k]);
                    }
                    assert(false);
                },
                None => {
                    if k < before.messages.len() {
                        assert(after.messages[k] == before.messages[k]);
                        assert(false);
                    }
                    assert(x == m);
                },
            }
        },
        Reconciliation::Ignore => {
            assert(after.messages[k] == before.messages[k]);
            assert(false);
        },
        Reconciliation::AttachMatrix { keep, .. } => {
            lemma_settled_id_known(before, keep, d, row_deleted, k);
            let j = choose|j: int| 0 <= j < before.messages.len() && #[trigger] before.messages[j].id == after.messages[k].id;
            assert(before.messages[j].id != after.messages[k].id);
        },
        Reconciliation::Supersede { keep, .. } => {
            lemma_settled_id_known(before, keep, d, row_deleted, k);
            let j = choose|j: int| 0 <= j < before.messages.len() && #[trigger] before.messages[j].id == after.messages[k].id;
            assert(before.messages[j].id != after.messages[k].id);
        },
        Reconciliation::AttachSms { keep, .. } => {
            lemma_settled_id_known(before, keep, d, row_deleted, k);
            let j = choose|j: int| 0 <= j < before.messages.len() && #[trigger] before.messages[j].id == after.messages[k].id;
            assert(before.messages[j].id != after.messages[k].id);
        },
    }
}

/// Settling a known message adds no id to the store.
proof fn lemma_settled_id_known(v: StoreView, keep: MessageId, d: Reconciliation, row_deleted: bool, k: int)
    requires
        !(d is Insert),
        spec_apply(v, d, row_deleted) == match first_of(v.messages, with_id(keep)) {
            Some(known) => spec_upsert(v, spec_settle(known, d, row_deleted)),
            None => v,
        },
        0 <= k < spec_apply(v, d, row_deleted).messages.len(),
    ensures
        exists|j: int| 0 <= j < v.messages.len() && #[trigger] v.messages[j].id == spec_apply(v, d, row_deleted).messages[k].id,
{
    let after = spec_apply(v, d, row_deleted);
    lemma_first_index_facts(v.messages, with_id(keep));
    match first_index(v.messages, with_id(keep)) {
        Some(i) => {
            let known = v.messages[i];
            assert(spec_settle(known, d, row_deleted).id == known.id);
            if k != i {
                assert(after.messages[k] == v.messages[k]);
                assert(v.messages[k].id == after.messages[k].id);
            } else {
                assert(v.messages[i].id == after.messages[k].id);
            }
        },
        None => {
            assert(v.messages[k].id == after.messages[k].id);
        },
    }
}

} // verus!
