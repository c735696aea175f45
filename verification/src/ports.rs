//! What the client needs from its surroundings: a message store, a
//! connectivity monitor and a directory of contacts, each with the in-memory
//! implementation this crate provides.

use vstd::prelude::*;
use crate::connectivity::MemoryConnectivity;
use crate::directory::{by_matrix_id, by_peer, by_phone, Contact, MemoryDirectory};
use crate::id::{MessageId, ShortTag};
use crate::message::Message;
use crate::outbox::{NetStatus, OutboxEntry};
use crate::peer::{ConversationId, MatrixUserId, PeerId, PhoneNumber};
use crate::seqs::{first_of, replace_first, replace_or_push};
use crate::store::{
    entry_other_than, entry_with_id, ids_unique, is_conversation_list, is_thread, spec_find_by_tag,
    spec_upsert, with_id, MemoryStore, StoreView,
};

verus! {

/// Where messages, their tag index and the outbox are kept.
pub trait MessageStore {
    /// What the store holds.
    spec fn stored(&self) -> StoreView;

    /// Stores a message, replacing the one with the same id.
    fn upsert(&mut self, message: Message)
        ensures
            final(self).stored() == spec_upsert(old(self).stored(), message),
    ;

    fn get(&self, id: &MessageId) -> (r: Option<Message>)
        ensures
            r == first_of(self.stored().messages, with_id(*id)),
    ;

    /// The message filed under `tag` in `conversation`.
    fn find_by_tag(&self, conversation: &ConversationId, tag: ShortTag) -> (r: Option<Message>)
        ensures
            r == spec_find_by_tag(self.stored(), conversation@, tag),
    ;

    /// The messages of a conversation, ordered by compose time, then id.
    fn thread(&self, conversation: &ConversationId) -> (r: Vec<Message>)
        requires
            ids_unique(self.stored().messages),
        ensures
            is_thread(self.stored().messages, conversation@, r@),
    ;

    /// Every conversation with a stored message, most recent first.
    fn conversations(&self) -> (r: Vec<ConversationId>)
        ensures
            is_conversation_list(self.stored().messages, r@),
    ;

    /// Queues an entry, replacing the queued entry with the same id in place.
    fn enqueue(&mut self, entry: OutboxEntry)
        ensures
            final(self).stored() == (StoreView {
                outbox: replace_or_push(old(self).stored().outbox, entry_with_id(entry.id), entry),
                ..old(self).stored()
            }),
    ;

    /// The queued entries, oldest first.
    fn outbox(&self) -> (v: Vec<OutboxEntry>)
        ensures
            v@ == self.stored().outbox,
    ;

    /// Updates the queued entry with the same id in place.
    fn update_outbox(&mut self, entry: OutboxEntry)
        ensures
            final(self).stored() == (StoreView {
                outbox: replace_first(old(self).stored().outbox, entry_with_id(entry.id), entry),
                ..old(self).stored()
            }),
    ;

    /// Takes every entry with id `id` off the outbox.
    fn retire(&mut self, id: &MessageId)
        ensures
            final(self).stored() == (StoreView {
                outbox: old(self).stored().outbox.filter(entry_other_than(*id)),
                ..old(self).stored()
            }),
    ;
}

/// What the device knows of its data connection.
pub trait ConnectivityMonitor {
    spec fn current(&self) -> NetStatus;

    fn status(&self) -> (s: NetStatus)
        ensures
            s == self.current(),
    ;

    /// A transport reported what it saw of the connection.
    fn observe(&mut self, status: NetStatus)
        ensures
            final(self).current() == status,
    ;
}

/// The contacts, each with a Matrix id and a phone number.
pub trait Directory {
    /// The contacts, in the order they are looked up.
    spec fn listed(&self) -> Seq<Contact>;

    fn matrix_id(&self, peer: &PeerId) -> (r: Option<MatrixUserId>)
        ensures
            match first_of(self.listed(), by_peer(peer@)) {
                Some(c) => r == Some(c.matrix_id),
                None => r is None,
            },
    ;

    fn phone(&self, peer: &PeerId) -> (r: Option<PhoneNumber>)
        ensures
            match first_of(self.listed(), by_peer(peer@)) {
                Some(c) => r == Some(c.phone),
                None => r is None,
            },
    ;

    fn peer_by_matrix_id(&self, id: &MatrixUserId) -> (r: Option<PeerId>)
        ensures
            match first_of(self.listed(), by_matrix_id(id@)) {
                Some(c) => r == Some(c.peer),
                None => r is None,
            },
    ;

    fn peer_by_phone(&self, phone: &PhoneNumber) -> (r: Option<PeerId>)
        ensures
            match first_of(self.listed(), by_phone(phone@)) {
                Some(c) => r == Some(c.peer),
                None => r is None,
            },
    ;

    /// The name shown for a peer: the contact's, or the peer id itself.
    fn display_name(&self, peer: &PeerId) -> (name: String)
        ensures
            match first_of(self.listed(), by_peer(peer@)) {
                Some(c) => name@ == c.display_name@,
                None => name@ == peer@,
            },
    ;
}

impl MessageStore for MemoryStore {
    open spec fn stored(&self) -> StoreView {
        self@
    }

    fn upsert(&mut self, message: Message) {
        MemoryStore::upsert(self, message)
    }

    fn get(&self, id: &MessageId) -> (r: Option<Message>) {
        MemoryStore::get(self, id)
    }

    fn find_by_tag(&self, conversation: &ConversationId, tag: ShortTag) -> (r: Option<Message>) {
        MemoryStore::find_by_tag(self, conversation, tag)
    }

    fn thread(&self, conversation: &ConversationId) -> (r: Vec<Message>) {
        MemoryStore::thread(self, conversation)
    }

    fn conversations(&self) -> (r: Vec<ConversationId>) {
        MemoryStore::conversations(self)
    }

    fn enqueue(&mut self, entry: OutboxEntry) {
        MemoryStore::enqueue(self, entry)
    }

    fn outbox(&self) -> (v: Vec<OutboxEntry>) {
        MemoryStore::outbox(self)
    }

    fn update_outbox(&mut self, entry: OutboxEntry) {
        MemoryStore::update_outbox(self, entry)
    }

    fn retire(&mut self, id: &MessageId) {
        MemoryStore::retire(self, id)
    }
}

impl ConnectivityMonitor for MemoryConnectivity {
    open spec fn current(&self) -> NetStatus {
        MemoryConnectivity::current(self)
    }

    fn status(&self) -> (s: NetStatus) {
        MemoryConnectivity::status(self)
    }

    fn observe(&mut self, status: NetStatus) {
        MemoryConnectivity::observe(self, status)
    }
}

impl Directory for MemoryDirectory {
    open spec fn listed(&self) -> Seq<Contact> {
        self@
    }

    fn matrix_id(&self, peer: &PeerId) -> (r: Option<MatrixUserId>) {
        MemoryDirectory::matrix_id(self, peer)
    }

    fn phone(&self, peer: &PeerId) -> (r: Option<PhoneNumber>) {
        MemoryDirectory::phone(self, peer)
    }

    fn peer_by_matrix_id(&self, id: &MatrixUserId) -> (r: Option<PeerId>) {
        MemoryDirectory::peer_by_matrix_id(self, id)
    }

    fn peer_by_phone(&self, phone: &PhoneNumber) -> (r: Option<PeerId>) {
        MemoryDirectory::peer_by_phone(self, phone)
    }

    fn display_name(&self, peer: &PeerId) -> (name: String) {
        MemoryDirectory::display_name(self, peer)
    }
}

} // verus!
