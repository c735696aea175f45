//! The contact directory: which peer goes with which Matrix id and phone.

use vstd::prelude::*;
use crate::peer::{fold_ascii_case, normalise_phone, MatrixUserId, PeerId, PhoneNumber};
use crate::seqs::{first_of, lemma_first_index_none, lemma_first_index_step};

verus! {

/// A contact: a peer, the name shown for them, and both their addresses.
#[derive(Debug, PartialEq, Eq)]
pub struct Contact {
    pub peer: PeerId,
    pub display_name: String,
    pub matrix_id: MatrixUserId,
    pub phone: PhoneNumber,
}

impl Clone for Contact {
    fn clone(&self) -> (r: Self)
        ensures
            r == *self,
    {
        Contact {
            peer: self.peer.clone(),
            display_name: self.display_name.clone(),
            matrix_id: self.matrix_id.clone(),
            phone: self.phone.clone(),
        }
    }
}

impl Contact {
    /// A contact; the phone number is normalised.
    pub fn new(peer: &str, display_name: &str, matrix_id: &str, phone: &str) -> (c: Contact)
        ensures
            c.peer@ == peer@,
            c.display_name@ == display_name@,
            c.matrix_id@ == matrix_id@,
            c.phone@ == normalise_phone(phone@),
    {
        Contact {
            peer: PeerId::new(peer),
            display_name: display_name.to_owned(),
            matrix_id: MatrixUserId::new(matrix_id),
            phone: PhoneNumber::new(phone),
        }
    }
}

pub open spec fn by_peer(peer: Seq<char>) -> spec_fn(Contact) -> bool {
    |c: Contact| c.peer@ == peer
}

pub open spec fn by_matrix_id(id: Seq<char>) -> spec_fn(Contact) -> bool {
    |c: Contact| fold_ascii_case(c.matrix_id@) == fold_ascii_case(id)
}

pub open spec fn by_phone(phone: Seq<char>) -> spec_fn(Contact) -> bool {
    |c: Contact| c.phone@ == phone
}

/// Contacts kept in memory, in the order they were added.
#[derive(Debug, Default)]
pub struct MemoryDirectory {
    contacts: Vec<Contact>,
}

impl View for MemoryDirectory {
    type V = Seq<Contact>;

    closed spec fn view(&self) -> Seq<Contact> {
        self.contacts@
    }
}

impl MemoryDirectory {
    pub fn new(contacts: Vec<Contact>) -> (d: MemoryDirectory)
        ensures
            d@ == contacts@,
    {
        MemoryDirectory { contacts }
    }

    /// Adds a contact, replacing any contact for the same peer.
    pub fn add(&mut self, contact: Contact)
        ensures
            final(self)@ == old(self)@.filter(|c: Contact| c.peer@ != contact.peer@).push(contact),
    {
        let ghost pred = |c: Contact| c.peer@ != contact.peer@;
        let mut kept: Vec<Contact> = Vec::new();
        let mut i: usize = 0;
        while i < self.contacts.len()
            invariant
                i <= self.contacts@.len(),
                self.contacts@ == old(self).contacts@,
                pred == (|c: Contact| c.peer@ != contact.peer@),
                kept@ == self.contacts@.take(i as int).filter(pred),
            decreases self.contacts@.len() - i,
        {
            let c = &self.contacts[i];
            let ghost before = kept@;
            if !c.peer.same_as(&contact.peer) {
                kept.push(c.clone());
            }
            proof {
                let t = self.contacts@.take(i + 1);
                assert(t.drop_last() =~= self.contacts@.take(i as int));
                assert(t.last() == self.contacts@[i as int]);
                reveal_with_fuel(Seq::filter, 1);
                assert(t.filter(pred) == if pred(t.last()) {
                    before.push(t.last())
                } else {
                    before
                });

            }
            i += 1;
        }
        proof {
            assert(self.contacts@.take(self.contacts@.len() as int) =~= self.contacts@);
        }
        kept.push(contact);
        self.contacts = kept;
    }

    pub fn contacts(&self) -> (v: Vec<Contact>)
        ensures
            v@ == self@,
    {
        self.contacts.clone()
    }

    fn find_peer(&self, peer: &PeerId) -> (r: Option<&Contact>)
        ensures
            match r {
                Some(c) => first_of(self@, by_peer(peer@)) == Some(*c),
                None => first_of(self@, by_peer(peer@)) is None,
            },
    {
        let mut i: usize = 0;
        while i < self.contacts.len()
            invariant
                i <= self.contacts@.len(),
                forall|j: int| 0 <= j < i ==> !by_peer(peer@)(#[trigger] self.contacts@[j]),
            decreases self.contacts@.len() - i,
        {
            if self.contacts[i].peer.same_as(peer) {
                proof {
                    lemma_first_index_step(self.contacts@, by_peer(peer@), i as int);
                }
                return Some(&self.contacts[i]);
            }
            i += 1;
        }
        proof {
            lemma_first_index_none(self.contacts@, by_peer(peer@));
        }
        None
    }

    /// The Matrix id of the first contact for `peer`.
    pub fn matrix_id(&self, peer: &PeerId) -> (r: Option<MatrixUserId>)
        ensures
            match first_of(self@, by_peer(peer@)) {
                Some(c) => r == Some(c.matrix_id),
                None => r is None,
            },
    {
        match self.find_peer(peer) {
            Some(c) => Some(c.matrix_id.clone()),
            None => None,
        }
    }

    /// The phone number of the first contact for `peer`.
    pub fn phone(&self, peer: &PeerId) -> (r: Option<PhoneNumber>)
        ensures
            match first_of(self@, by_peer(peer@)) {
                Some(c) => r == Some(c.phone),
                None => r is None,
            },
    {
        match self.find_peer(peer) {
            Some(c) => Some(c.phone.clone()),
            None => None,
        }
    }

    /// The peer of the first contact with Matrix id `id`, compared without
    /// regard to ASCII case.
    pub fn peer_by_matrix_id(&self, id: &MatrixUserId) -> (r: Option<PeerId>)
        ensures
            match first_of(self@, by_matrix_id(id@)) {
                Some(c) => r == Some(c.peer),
                None => r is None,
            },
    {
        let mut i: usize = 0;
        while i < self.contacts.len()
            invariant
                i <= self.contacts@.len(),
                forall|j: int| 0 <= j < i ==> !by_matrix_id(id@)(#[trigger] self.contacts@[j]),
            decreases self.contacts@.len() - i,
        {
            if self.contacts[i].matrix_id.same_as(id) {
                proof {
                    lemma_first_index_step(self.contacts@, by_matrix_id(id@), i as int);
                }
                return Some(self.contacts[i].peer.clone());
            }
            i += 1;
        }
        proof {
            lemma_first_index_none(self.contacts@, by_matrix_id(id@));
        }
        None
    }

    /// The peer of the first contact with phone number `phone`; numbers are
    /// compared in their normalised form.
    pub fn peer_by_phone(&self, phone: &PhoneNumber) -> (r: Option<PeerId>)
        ensures
            match first_of(self@, by_phone(phone@)) {
                Some(c) => r == Some(c.peer),
                None => r is None,
            },
    {
        let mut i: usize = 0;
        while i < self.contacts.len()
            invariant
                i <= self.contacts@.len(),
                forall|j: int| 0 <= j < i ==> !by_phone(phone@)(#[trigger] self.contacts@[j]),
            decreases self.contacts@.len() - i,
        {
            if self.contacts[i].phone.same_as(phone) {
                proof {
                    lemma_first_index_step(self.contacts@, by_phone(phone@), i as int);
                }
                return Some(self.contacts[i].peer.clone());
            }
            i += 1;
        }
        proof {
            lemma_first_index_none(self.contacts@, by_phone(phone@));
        }
        None
    }

    /// The name shown for a peer: the contact's, or the peer id itself for
    /// someone not in the directory.
    pub fn display_name(&self, peer: &PeerId) -> (name: String)
        ensures
            match first_of(self@, by_peer(peer@)) {
                Some(c) => name@ == c.display_name@,
                None => name@ == peer@,
            },
    {
        match self.find_peer(peer) {
            Some(c) => c.display_name.clone(),
            None => peer.as_str().to_owned(),
        }
    }
}

/// After a contact is added, looking its peer up finds that contact and no
/// older one for the same peer.
pub proof fn law_added_contact_replaces(contacts: Seq<Contact>, contact: Contact)
    ensures
        first_of(
            contacts.filter(|c: Contact| c.peer@ != contact.peer@).push(contact),
            by_peer(contact.peer@),
        ) == Some(contact),
{
    let pred = |c: Contact| c.peer@ != contact.peer@;
    let kept = contacts.filter(pred);
    let s = kept.push(contact);
    assert forall|j: int| 0 <= j < kept.len() implies !by_peer(contact.peer@)(#[trigger] s[j]) by {
        contacts.lemma_filter_pred(pred, j);
        assert(s[j] == kept[j]);
    }
    lemma_first_index_step(s, by_peer(contact.peer@), kept.len() as int);
}

} // verus!
