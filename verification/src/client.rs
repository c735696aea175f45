//! The client: one device's store, connectivity, ids, contacts and activity
//! log, and what it shows of them. Sending lives in `send`, receiving in
//! `ingest`.

use vstd::prelude::*;
use crate::activity::{ActivityEntry, ActivityLog};
use crate::directory::{by_peer, Contact};
use crate::id::MessageId;
use crate::ids::IdGen;
use crate::message::Message;
use crate::outbox::{NetStatus, OutboxEntry, TransportState};
use crate::peer::{ConversationId, PeerId};
use crate::seqs::{first_of, lemma_first_index_facts};
use crate::ports::{ConnectivityMonitor, Directory, MessageStore};
use crate::store::{
    entry_with_id, is_conversation_list, is_thread, outbox_ids_unique, store_wf, StoreView,
};
use crate::view::{shows, ConversationSummary, MessageView};

verus! {

/// An outbox entry the pump can work on: a well-formed one.
pub open spec fn entry_ok(e: OutboxEntry) -> bool {
    e.wf()
}

/// The client's own consistency: a consistent store, one outbox entry per
/// id, and every entry one the pump can work on.
pub open spec fn client_state_ok(v: StoreView) -> bool {
    &&& store_wf(v)
    &&& outbox_ids_unique(v.outbox)
    &&& forall|i: int| 0 <= i < v.outbox.len() ==> entry_ok(#[trigger] v.outbox[i])
}

/// An entry whose Matrix backoff is cleared, so Matrix is tried at once.
pub open spec fn reset_backoff(e: OutboxEntry) -> OutboxEntry {
    OutboxEntry { next_matrix_attempt_ms: 0, ..e }
}

/// Whether no transport has carried a message yet.
pub open spec fn undelivered(m: Message) -> bool {
    m.delivery.matrix is None && m.delivery.sms is None
}

/// `s` summarises conversation `c` of `messages`, named as `contacts` name
/// its peer.
pub open spec fn summarises(
    s: ConversationSummary,
    c: ConversationId,
    messages: Seq<Message>,
    contacts: Seq<Contact>,
) -> bool {
    exists|t: Seq<Message>|
        #![trigger is_thread(messages, c@, t)]
        {
            &&& is_thread(messages, c@, t)
            &&& t.len() > 0
            &&& s.id == c
            &&& s.peer@ == c@
            &&& match first_of(contacts, by_peer(c@)) {
                Some(contact) => s.display_name@ == contact.display_name@,
                None => s.display_name@ == c@,
            }
            &&& s.last_body@ == t.last().body@
            &&& s.last_ts == t.last().origin_ts
            &&& s.pending == t.filter(|m: Message| undelivered(m)).len()
        }
}

/// A conversation's pending count leaves out every message a transport
/// carried: added to the number of its messages that Matrix or SMS carried,
/// it gives the number of messages in the thread. So a message carried by
/// SMS alone is never pending, and a thread whose messages all went out
/// over one transport or the other has nothing pending.
pub proof fn law_pending_leaves_out_carried(
    s: ConversationSummary,
    c: ConversationId,
    messages: Seq<Message>,
    contacts: Seq<Contact>,
)
    requires
        summarises(s, c, messages, contacts),
    ensures
        exists|t: Seq<Message>|
            #![trigger is_thread(messages, c@, t)]
            {
                &&& is_thread(messages, c@, t)
                &&& s.pending + t.filter(|m: Message| m.delivery.matrix is Some || m.delivery.sms is Some).len()
                    == t.len()
                &&& (forall|k: int| 0 <= k < t.len() ==> (#[trigger] t[k]).delivery.sms is Some
                    || t[k].delivery.matrix is Some) ==> s.pending == 0
            },
{
    let t = choose|t: Seq<Message>|
        #![trigger is_thread(messages, c@, t)]
        {
            &&& is_thread(messages, c@, t)
            &&& t.len() > 0
            &&& s.id == c
            &&& s.peer@ == c@
            &&& match first_of(contacts, by_peer(c@)) {
                Some(contact) => s.display_name@ == contact.display_name@,
                None => s.display_name@ == c@,
            }
            &&& s.last_body@ == t.last().body@
            &&& s.last_ts == t.last().origin_ts
            &&& s.pending == t.filter(|m: Message| undelivered(m)).len()
        };
    let carried = |m: Message| m.delivery.matrix is Some || m.delivery.sms is Some;
    let open = |m: Message| undelivered(m);
    lemma_filter_split(t, open, carried);
    if forall|k: int| 0 <= k < t.len() ==> (#[trigger] t[k]).delivery.sms is Some || t[k].delivery.matrix is Some {
        lemma_filter_all(t, carried);
    }
}

/// The elements of `t` that satisfy `p` and those that satisfy `q`, its
/// opposite, make up `t`.
proof fn lemma_filter_split<A>(t: Seq<A>, p: spec_fn(A) -> bool, q: spec_fn(A) -> bool)
    requires
        forall|x: A| #[trigger] p(x) == !q(x),
    ensures
        t.filter(p).len() + t.filter(q).len() == t.len(),
    decreases t.len(),
{
    reveal_with_fuel(Seq::filter, 1);
    if t.len() > 0 {
        lemma_filter_split(t.drop_last(), p, q);
    }
}

/// When every element satisfies `p`, filtering by `p` keeps all of them.
proof fn lemma_filter_all<A>(t: Seq<A>, p: spec_fn(A) -> bool)
    requires
        forall|k: int| 0 <= k < t.len() ==> p(#[trigger] t[k]),
    ensures
        t.filter(p).len() == t.len(),
    decreases t.len(),
{
    reveal_with_fuel(Seq::filter, 1);
    if t.len() > 0 {
        let u = t.drop_last();
        assert forall|k: int| 0 <= k < u.len() implies p(#[trigger] u[k]) by {
            assert(u[k] == t[k]);
        }
        lemma_filter_all(u, p);
        assert(p(t[t.len() - 1]));
    }
}

/// What a client is built from.
pub struct ClientParts<S, N, I, D> {
    pub me: PeerId,
    pub store: S,
    pub net: N,
    pub ids: I,
    pub directory: D,
}

/// One device running Parakeet.
pub struct Client<S, N, I, D> {
    pub me: PeerId,
    pub store: S,
    pub net: N,
    pub ids: I,
    pub directory: D,
    pub log: ActivityLog,
}

impl<S: MessageStore, N: ConnectivityMonitor, I: IdGen, D: Directory> Client<S, N, I, D> {
    /// Who the client sends as.
    pub open spec fn user(&self) -> PeerId {
        self.me
    }

    /// What the store holds.
    pub open spec fn stored(&self) -> StoreView {
        self.store.stored()
    }

    /// What the client believes of its data connection.
    pub open spec fn status(&self) -> NetStatus {
        self.net.current()
    }

    /// The contacts the client knows.
    pub open spec fn known_contacts(&self) -> Seq<Contact> {
        self.directory.listed()
    }

    /// The activity recorded so far.
    pub open spec fn logged(&self) -> Seq<ActivityEntry> {
        self.log@
    }

    pub open spec fn wf(&self) -> bool {
        client_state_ok(self.stored())
    }

    /// A client over consistent parts, with an empty activity log.
    pub fn new(parts: ClientParts<S, N, I, D>) -> (c: Client<S, N, I, D>)
        requires
            client_state_ok(parts.store.stored()),
        ensures
            c.wf(),
            c.user() == parts.me,
            c.stored() == parts.store.stored(),
            c.status() == parts.net.current(),
            c.known_contacts() == parts.directory.listed(),
            c.logged() == Seq::<ActivityEntry>::empty(),
    {
        Client {
            me: parts.me,
            store: parts.store,
            net: parts.net,
            ids: parts.ids,
            directory: parts.directory,
            log: ActivityLog::new(),
        }
    }

    pub fn activity(&self) -> (log: &ActivityLog)
        ensures
            log@ == self.logged(),
    {
        &self.log
    }

    pub fn store(&self) -> (s: &S)
        ensures
            s.stored() == self.stored(),
    {
        &self.store
    }

    pub fn directory(&self) -> (d: &D)
        ensures
            d.listed() == self.known_contacts(),
    {
        &self.directory
    }

    pub fn connectivity(&self) -> (s: NetStatus)
        ensures
            s == self.status(),
    {
        self.net.status()
    }

    /// Records what the device now knows of its connection. Coming back
    /// from offline clears every Matrix backoff, so queued messages are
    /// backfilled at the next pump.
    pub fn set_connectivity(&mut self, status: NetStatus)
        requires
            old(self).wf(),
        ensures
            final(self).wf(),
            final(self).status() == status,
            final(self).stored() == (if old(self).status() == NetStatus::Offline && status
                != NetStatus::Offline {
                StoreView {
                    outbox: old(self).stored().outbox.map_values(|e: OutboxEntry| reset_backoff(e)),
                    ..old(self).stored()
                }
            } else {
                old(self).stored()
            }),
            final(self).user() == old(self).user(),
            final(self).known_contacts() == old(self).known_contacts(),
            final(self).logged() == old(self).logged(),
    {
        let was_offline = self.net.status() == NetStatus::Offline;
        self.net.observe(status);
        if was_offline && status != NetStatus::Offline {
            let entries = self.store.outbox();
            let ghost start = self.store.stored();
            let n = entries.len();
            let mut i: usize = 0;
            while i < n
                invariant
                    n == entries@.len(),
                    entries@ == start.outbox,
                    i <= n,
                    client_state_ok(start),
                    self.directory.listed() == old(self).directory.listed(),
                    self.log@ == old(self).log@,
                    self.me == old(self).me,
                    self.net.current() == status,
                    self.store.stored().messages == start.messages,
                    self.store.stored().index == start.index,
                    self.store.stored().outbox.len() == n,
                    forall|k: int| 0 <= k < i ==> #[trigger] self.store.stored().outbox[k] == reset_backoff(
                        start.outbox[k],
                    ),
                    forall|k: int| i <= k < n ==> #[trigger] self.store.stored().outbox[k] == start.outbox[k],
                decreases n - i,
            {
                let mut entry = entries[i].clone();
                entry.next_matrix_attempt_ms = 0;
                let ghost before = self.store.stored().outbox;
                proof {
                    lemma_first_index_facts(before, entry_with_id(entry.id));
                    assert forall|k: int| 0 <= k < i implies !entry_with_id(entry.id)(#[trigger] before[k]) by {
                        assert(before[k].id == start.outbox[k].id);
                        assert(start.outbox[i as int].id == entry.id);
                    }
                    crate::seqs::lemma_first_index_step(before, entry_with_id(entry.id), i as int);
                }
                self.store.update_outbox(entry);
                proof {
                    assert(self.store.stored().outbox == before.update(i as int, reset_backoff(start.outbox[i as int])));
                }
                i += 1;
            }
            proof {
                assert(self.store.stored().outbox =~= start.outbox.map_values(|e: OutboxEntry| reset_backoff(e)));
                assert forall|a: int, b: int|
                    0 <= a < n && 0 <= b < n && #[trigger] self.store.stored().outbox[a].id
                        == #[trigger] self.store.stored().outbox[b].id implies a == b by {
                    assert(start.outbox[a].id == start.outbox[b].id);
                }
                assert forall|k: int| 0 <= k < n implies entry_ok(#[trigger] self.store.stored().outbox[k]) by {
                    assert(entry_ok(start.outbox[k]));
                }
            }
        }
    }

    /// The messages of a conversation as the screen shows them, oldest
    /// first.
    pub fn thread(&self, conversation: &ConversationId) -> (r: Vec<MessageView>)
        requires
            self.wf(),
        ensures
            exists|t: Seq<Message>|
                #![trigger is_thread(self.stored().messages, conversation@, t)]
                is_thread(self.stored().messages, conversation@, t) && r@.len() == t.len() && forall|
                    k: int,
                | 0 <= k < t.len() ==> shows(#[trigger] r@[k], t[k]),
    {
        let messages = self.store.thread(conversation);
        let mut out: Vec<MessageView> = Vec::new();
        let mut k: usize = 0;
        while k < messages.len()
            invariant
                k <= messages@.len(),
                out@.len() == k,
                forall|j: int| 0 <= j < k ==> shows(#[trigger] out@[j], messages@[j]),
            decreases messages@.len() - k,
        {
            out.push(MessageView::of(&messages[k]));
            k += 1;
        }
        out
    }

    /// The conversations with at least one message, most recent first, each
    /// with its last message and how many of its messages are still
    /// undelivered.
    pub fn conversations(&self) -> (r: Vec<ConversationSummary>)
        requires
            self.wf(),
        ensures
            exists|list: Seq<ConversationId>|
                #![trigger is_conversation_list(self.stored().messages, list)]
                is_conversation_list(self.stored().messages, list) && r@.len() == list.len()
                    && forall|k: int|
                    0 <= k < list.len() ==> summarises(
                        #[trigger] r@[k],
                        list[k],
                        self.stored().messages,
                        self.known_contacts(),
                    ),
    {
        let ids = self.store.conversations();
        let ghost msgs = self.store.stored().messages;
        let mut out: Vec<ConversationSummary> = Vec::new();
        let mut k: usize = 0;
        while k < ids.len()
            invariant
                k <= ids@.len(),
                is_conversation_list(msgs, ids@),
                msgs == self.store.stored().messages,
                self.wf(),
                out@.len() == k,
                forall|j: int|
                    0 <= j < k ==> summarises(
                        #[trigger] out@[j],
                        ids@[j],
                        msgs,
                        self.directory.listed(),
                    ),
            decreases ids@.len() - k,
        {
            let id = &ids[k];
            let messages = self.store.thread(id);
            proof {
                assert(crate::store::has_conversation(msgs, ids@[k as int]@));
                let j = choose|j: int| 0 <= j < msgs.len() && #[trigger] msgs[j].conversation@ == ids@[k as int]@;
                assert(messages@.contains(msgs[j]));
            }
            let last = &messages[messages.len() - 1];
            let peer = PeerId::new(id.as_str());
            let pending = count_undelivered(&messages);
            let summary = ConversationSummary {
                display_name: self.directory.display_name(&peer),
                peer,
                last_body: last.body.clone(),
                last_ts: last.origin_ts,
                pending,
                id: id.clone(),
            };
            proof {
                assert(summarises(summary, ids@[k as int], msgs, self.directory.listed())) by {
                    assert(is_thread(msgs, ids@[k as int]@, messages@));
                    assert(messages@.last() == messages@[messages@.len() - 1]);
                }
            }
            out.push(summary);
            k += 1;
        }
        out
    }

    /// How many messages are still queued.
    pub fn outbox_len(&self) -> (n: usize)
        ensures
            n == self.stored().outbox.len(),
    {
        self.store.outbox().len()
    }

    /// The queued messages SMS carried and Matrix has yet to carry, oldest
    /// first.
    pub fn awaiting_backfill(&self) -> (r: Vec<MessageId>)
        ensures
            r@ == self.stored().outbox.filter(|e: OutboxEntry| e.sms == TransportState::Done).map_values(
                |e: OutboxEntry| e.id,
            ),
    {
        let entries = self.store.outbox();
        let ghost pred = |e: OutboxEntry| e.sms == TransportState::Done;
        let ghost f = |e: OutboxEntry| e.id;
        let mut out: Vec<MessageId> = Vec::new();
        let mut i: usize = 0;
        while i < entries.len()
            invariant
                i <= entries@.len(),
                pred == (|e: OutboxEntry| e.sms == TransportState::Done),
                f == (|e: OutboxEntry| e.id),
                out@ == entries@.take(i as int).filter(pred).map_values(f),
            decreases entries@.len() - i,
        {
            let ghost before = entries@.take(i as int).filter(pred);
            if entries[i].sms == TransportState::Done {
                out.push(entries[i].id);
            }
            proof {
                let t = entries@.take(i + 1);
                assert(t.drop_last() =~= entries@.take(i as int));
                reveal_with_fuel(Seq::filter, 1);
                assert(t.filter(pred) == if pred(t.last()) {
                    before.push(t.last())
                } else {
                    before
                });
                assert(out@ =~= t.filter(pred).map_values(f));
            }
            i += 1;
        }
        proof {
            assert(entries@.take(entries@.len() as int) =~= entries@);
        }
        out
    }

    /// The conversation held with a peer.
    pub fn conversation_with(&self, peer: &PeerId) -> (c: ConversationId)
        ensures
            c@ == peer@,
    {
        ConversationId::with_peer(peer)
    }
}

/// How many messages of `messages` no transport has carried yet.
fn count_undelivered(messages: &Vec<Message>) -> (n: usize)
    ensures
        n == messages@.filter(|m: Message| undelivered(m)).len(),
{
    let ghost pred = |m: Message| undelivered(m);
    let mut n: usize = 0;
    let mut i: usize = 0;
    while i < messages.len()
        invariant
            i <= messages@.len(),
            pred == (|m: Message| undelivered(m)),
            n == messages@.take(i as int).filter(pred).len(),
            n <= i,
        decreases messages@.len() - i,
    {
        let ghost before = messages@.take(i as int).filter(pred);
        proof {
            let t = messages@.take(i + 1);
            assert(t.drop_last() =~= messages@.take(i as int));
            reveal_with_fuel(Seq::filter, 1);
            assert(t.filter(pred) == if pred(t.last()) {
                before.push(t.last())
            } else {
                before
            });
        }
        if messages[i].delivery.is_empty() {
            n += 1;
        }
        i += 1;
    }
    proof {
        assert(messages@.take(messages@.len() as int) =~= messages@);
    }
    n
}

} // verus!
