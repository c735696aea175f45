//! A carrier held in memory, for tests and demos: one handset per phone
//! number, each with its SMS storage and the SMS waiting to be read. Each
//! handset is used through a `FakeSmsTransport`.

use vstd::prelude::*;
use crate::error::TransportError;
use crate::peer::{PhoneNumber, SmsRowId};
use crate::seqs::{
    first_index, first_of, lemma_first_index_facts, lemma_first_index_none, lemma_first_index_step,
    remove_first, replace_or_push,
};
use crate::text::{
    chars_lt, lemma_chars_lt_irreflexive, lemma_chars_lt_transitive, push_char, str_less,
    zero_padded, zero_padded_decimal,
};
use crate::transport::{InboundSms, SmsTransport};

verus! {

/// An SMS as a device stores it.
#[derive(Debug, PartialEq, Eq)]
pub struct StoredSms {
    pub row: SmsRowId,
    /// The other end: the recipient of an outgoing SMS, the sender of an
    /// incoming one.
    pub peer: PhoneNumber,
    pub text: String,
    pub ts: u64,
    pub outgoing: bool,
}

impl Clone for StoredSms {
    fn clone(&self) -> (r: Self)
        ensures
            r == *self,
    {
        StoredSms {
            row: self.row.clone(),
            peer: self.peer.clone(),
            text: self.text.clone(),
            ts: self.ts,
            outgoing: self.outgoing,
        }
    }
}

/// One phone on the network.
#[derive(Debug, PartialEq, Eq)]
pub struct Handset {
    pub number: PhoneNumber,
    /// Whether the phone has cell service.
    pub reachable: bool,
    /// SMS received and not read yet.
    pub pending: Vec<InboundSms>,
    /// The phone's SMS storage: one record per row.
    pub storage: Vec<StoredSms>,
}

/// What the carrier holds.
pub struct NetworkView {
    pub devices: Seq<Handset>,
    pub next_row: u64,
}

/// The id of the `n`th row: `sms-`, then `n` in twelve digits.
pub open spec fn row_text(n: u64) -> Seq<char> {
    seq!['s', 'm', 's', '-'] + zero_padded(n as nat, 12)
}

pub open spec fn device_of(number: Seq<char>) -> spec_fn(Handset) -> bool {
    |h: Handset| h.number@ == number
}

/// The inbox of the phone `number` on the carrier `v`: nothing for an
/// unknown number.
pub open spec fn inbox_of(v: NetworkView, number: Seq<char>) -> Seq<InboundSms> {
    match first_of(v.devices, device_of(number)) {
        Some(h) => h.pending@,
        None => Seq::empty(),
    }
}

pub open spec fn row_is(row: Seq<char>) -> spec_fn(StoredSms) -> bool {
    |s: StoredSms| s.row@ == row
}

/// Whether the phone with `number` has cell service.
pub open spec fn has_service(v: NetworkView, number: Seq<char>) -> bool {
    match first_of(v.devices, device_of(number)) {
        Some(h) => h.reachable,
        None => false,
    }
}

/// Whether `a` is listed before `b`: older first, then by row id.
pub open spec fn row_before(a: StoredSms, b: StoredSms) -> bool {
    a.ts < b.ts || (a.ts == b.ts && chars_lt(a.row@, b.row@))
}

/// `r` is `s` listed older first, then by row id.
pub open spec fn lists_rows(s: Seq<StoredSms>, r: Seq<StoredSms>) -> bool {
    &&& r.len() == s.len()
    &&& forall|a: int, b: int| 0 <= a < b < r.len() ==> !row_before(#[trigger] r[b], #[trigger] r[a])
    &&& forall|x: StoredSms| r.contains(x) <==> s.contains(x)
    &&& r.to_multiset() == s.to_multiset()
}

/// What sending `text` from `from` to `to` at `now_ms` does to the carrier
/// `v`, leaving `v2`, and answers. A phone without service fails
/// recoverably. Otherwise the SMS takes the next row id in the sender's
/// storage, and the next one in the recipient's storage and inbox, if the
/// recipient is on the network.
pub open spec fn sms_send_outcome(
    v: NetworkView,
    v2: NetworkView,
    from: Seq<char>,
    to: Seq<char>,
    text: Seq<char>,
    now_ms: u64,
    r: Result<SmsRowId, TransportError>,
) -> bool {
    if !has_service(v, from) {
        &&& r matches Err(TransportError::Unreachable(why)) && why@ == "no cell service"@
        &&& v2 == v
    } else {
        let k = first_index(v.devices, device_of(from)).unwrap();
        let row2 = row_text(v.next_row.wrapping_add(1));
        &&& r matches Ok(row) && row@ == row_text(v.next_row)
        &&& v2.next_row == v.next_row.wrapping_add(1).wrapping_add(1)
        &&& v2.devices.len() == v.devices.len()
        &&& first_index(v.devices, device_of(to)) != Some(k) ==> (first_of(
            v2.devices[k].storage@,
            row_is(row_text(v.next_row)),
        ) matches Some(rec) && rec.peer@ == to && rec.text@ == text && rec.ts == now_ms
            && rec.outgoing)
        &&& match first_index(v.devices, device_of(to)) {
            Some(j) => {
                &&& first_of(v2.devices[j].storage@, row_is(row2)) matches Some(rec) && rec.peer@
                    == from && rec.text@ == text && rec.ts == now_ms && !rec.outgoing
                &&& v2.devices[j].pending@.len() == v.devices[j].pending@.len() + 1
                &&& v2.devices[j].pending@.take(v.devices[j].pending@.len() as int)
                    == v.devices[j].pending@
                &&& v2.devices[j].pending@.last().from@ == from
                &&& v2.devices[j].pending@.last().text@ == text
                &&& v2.devices[j].pending@.last().received_ts == now_ms
                &&& v2.devices[j].pending@.last().row@ == row2
            },
            None => true,
        }
        &&& forall|d: int|
            0 <= d < v.devices.len() && d != k && Some(d) != first_index(v.devices, device_of(to))
                ==> #[trigger] v2.devices[d] == v.devices[d]
    }
}

/// What reading the inbox of the phone with `number` does to the carrier
/// `v`, leaving `v2`, and hands back: every SMS waiting, in order, leaving
/// the inbox empty; nothing for a number not on the network.
pub open spec fn sms_drained(v: NetworkView, v2: NetworkView, number: Seq<char>, r: Seq<InboundSms>) -> bool {
    &&& v2.next_row == v.next_row
    &&& v2.devices.len() == v.devices.len()
    &&& match first_index(v.devices, device_of(number)) {
        Some(k) => {
            &&& r == v.devices[k].pending@
            &&& forall|j: int| 0 <= j < v.devices.len() && j != k ==> #[trigger] v2.devices[j] == v.devices[j]
            &&& v2.devices[k].number == v.devices[k].number
            &&& v2.devices[k].reachable == v.devices[k].reachable
            &&& v2.devices[k].storage == v.devices[k].storage
            &&& v2.devices[k].pending@.len() == 0
        },
        None => r.len() == 0 && v2.devices == v.devices,
    }
}

/// What removing `row` from the storage of the phone with `number` does
/// to the carrier `v`, leaving `v2`: that record goes, nothing else changes.
pub open spec fn row_deleted(v: NetworkView, v2: NetworkView, number: Seq<char>, row: Seq<char>) -> bool {
    &&& v2.next_row == v.next_row
    &&& v2.devices.len() == v.devices.len()
    &&& match first_index(v.devices, device_of(number)) {
        Some(k) => {
            &&& forall|j: int| 0 <= j < v.devices.len() && j != k ==> #[trigger] v2.devices[j] == v.devices[j]
            &&& v2.devices[k].number == v.devices[k].number
            &&& v2.devices[k].reachable == v.devices[k].reachable
            &&& v2.devices[k].pending == v.devices[k].pending
            &&& v2.devices[k].storage@ == remove_first(v.devices[k].storage@, row_is(row))
        },
        None => v2.devices == v.devices,
    }
}

/// A carrier held in memory.
#[derive(Debug, Default)]
pub struct FakeSmsNetwork {
    devices: Vec<Handset>,
    next_row: u64,
}

impl View for FakeSmsNetwork {
    type V = NetworkView;

    closed spec fn view(&self) -> NetworkView {
        NetworkView { devices: self.devices@, next_row: self.next_row }
    }
}

fn device_position(devices: &Vec<Handset>, number: &PhoneNumber) -> (r: Option<usize>)
    ensures
        match r {
            Some(i) => first_index(devices@, device_of(number@)) == Some(i as int) && i
                < devices@.len(),
            None => first_index(devices@, device_of(number@)) is None,
        },
{
    let mut i: usize = 0;
    while i < devices.len()
        invariant
            i <= devices@.len(),
            forall|j: int| 0 <= j < i ==> !device_of(number@)(#[trigger] devices@[j]),
        decreases devices@.len() - i,
    {
        if devices[i].number.same_as(number) {
            proof {
                lemma_first_index_step(devices@, device_of(number@), i as int);
            }
            return Some(i);
        }
        i += 1;
    }
    proof {
        lemma_first_index_none(devices@, device_of(number@));
    }
    None
}

/// Stores a record under its row, replacing the record with that row.
fn store_row(storage: &mut Vec<StoredSms>, record: StoredSms)
    ensures
        final(storage)@ == replace_or_push(old(storage)@, row_is(record.row@), record),
{
    let mut i: usize = 0;
    while i < storage.len()
        invariant
            i <= storage@.len(),
            storage@ == old(storage)@,
            forall|j: int| 0 <= j < i ==> !row_is(record.row@)(#[trigger] storage@[j]),
        decreases storage@.len() - i,
    {
        if storage[i].row.same_as(&record.row) {
            proof {
                lemma_first_index_step(storage@, row_is(record.row@), i as int);
            }
            storage.set(i, record);
            return ;
        }
        i += 1;
    }
    proof {
        lemma_first_index_none(storage@, row_is(record.row@));
    }
    storage.push(record);
}

fn row_position(storage: &Vec<StoredSms>, row: &SmsRowId) -> (r: Option<usize>)
    ensures
        match r {
            Some(i) => first_index(storage@, row_is(row@)) == Some(i as int) && i < storage@.len(),
            None => first_index(storage@, row_is(row@)) is None,
        },
{
    let mut i: usize = 0;
    while i < storage.len()
        invariant
            i <= storage@.len(),
            forall|j: int| 0 <= j < i ==> !row_is(row@)(#[trigger] storage@[j]),
        decreases storage@.len() - i,
    {
        if storage[i].row.same_as(row) {
            proof {
                lemma_first_index_step(storage@, row_is(row@), i as int);
            }
            return Some(i);
        }
        i += 1;
    }
    proof {
        lemma_first_index_none(storage@, row_is(row@));
    }
    None
}

fn row_before_exec(a: &StoredSms, b: &StoredSms) -> (r: bool)
    ensures
        r == row_before(*a, *b),
{
    a.ts < b.ts || (a.ts == b.ts && str_less(a.row.as_str(), b.row.as_str()))
}

proof fn lemma_row_before_order(a: StoredSms, b: StoredSms, c: StoredSms)
    ensures
        !row_before(a, a),
        row_before(a, b) && row_before(b, c) ==> row_before(a, c),
{
    lemma_chars_lt_irreflexive(a.row@);
    if row_before(a, b) && row_before(b, c) && a.ts == b.ts && b.ts == c.ts {
        lemma_chars_lt_transitive(a.row@, b.row@, c.row@);
    }
}

/// Lists records older first, then by row id.
fn sorted_rows(storage: &Vec<StoredSms>) -> (r: Vec<StoredSms>)
    ensures
        lists_rows(storage@, r@),
{
    let mut out: Vec<StoredSms> = Vec::new();
    let mut i: usize = 0;
    proof {
        assert(storage@.take(0) =~= Seq::<StoredSms>::empty());
        assert(out@.to_multiset() =~= storage@.take(0).to_multiset());
    }
    while i < storage.len()
        invariant
            i <= storage@.len(),
            out@.len() == i,
            forall|a: int, b: int|
                0 <= a < b < out@.len() ==> !row_before(#[trigger] out@[b], #[trigger] out@[a]),
            forall|x: StoredSms| out@.contains(x) <==> storage@.take(i as int).contains(x),
            out@.to_multiset() == storage@.take(i as int).to_multiset(),
        decreases storage@.len() - i,
    {
        let x = storage[i].clone();
        let mut p: usize = 0;
        while p < out.len() && !row_before_exec(&x, &out[p])
            invariant
                p <= out@.len(),
                forall|a: int| 0 <= a < p ==> !row_before(x, #[trigger] out@[a]),
            decreases out@.len() - p,
        {
            p += 1;
        }
        let ghost before = out@;
        out.insert(p, x);
        proof {
            before.insert_ensures(p as int, x);
            let after = out@;
            assert forall|a: int, b: int| 0 <= a < b < after.len() implies !row_before(
                #[trigger] after[b],
                #[trigger] after[a],
            ) by {
                if b < p {
                    assert(after[a] == before[a] && after[b] == before[b]);
                } else if b == p {
                    assert(after[a] == before[a]);
                } else if a < p {
                    assert(after[a] == before[a] && after[b] == before[b - 1]);
                    lemma_row_before_order(before[b - 1], x, before[a]);
                    if b - 1 > p {
                        assert(!row_before(before[b - 1], before[p as int]));
                    }
                    assert(row_before(x, before[p as int]));
                    lemma_row_before_order(before[b - 1], x, before[p as int]);
                    lemma_row_before_order(before[b - 1], before[p as int], before[p as int]);
                } else if a == p {
                    assert(after[b] == before[b - 1]);
                    assert(row_before(x, before[p as int]));
                    if b - 1 > p {
                        assert(!row_before(before[b - 1], before[p as int]));
                    }
                    lemma_row_before_order(before[b - 1], x, before[p as int]);
                    lemma_row_before_order(before[b - 1], before[b - 1], before[p as int]);
                } else {
                    assert(after[a] == before[a - 1] && after[b] == before[b - 1]);
                }
            }
            let t = storage@.take(i + 1);
            assert(t == storage@.take(i as int).push(x));
            assert(after.remove(p as int) =~= before);
            after.to_multiset_ensures();
            storage@.take(i as int).to_multiset_ensures();
            assert(after[p as int] == x);
            assert(after.to_multiset() =~= before.to_multiset().insert(x));
            assert forall|y: StoredSms| after.contains(y) <==> t.contains(y) by {
                if after.contains(y) {
                    let k = choose|k: int| 0 <= k < after.len() && after[k] == y;
                    if k != p {
                        let k2 = if k < p { k } else { k - 1 };
                        assert(before[k2] == y);
                        assert(before.contains(y));
                        let m = choose|m: int| 0 <= m < i && storage@.take(i as int)[m] == y;
                        assert(t[m] == y);
                    } else {
                        assert(t[i as int] == y);
                    }
                }
                if t.contains(y) {
                    let m = choose|m: int| 0 <= m < t.len() && t[m] == y;
                    if m < i {
                        assert(storage@.take(i as int)[m] == y);
                        assert(before.contains(y));
                        let k = choose|k: int| 0 <= k < before.len() && before[k] == y;
                        if k < p {
                            assert(after[k] == y);
                        } else {
                            assert(after[k + 1] == y);
                        }
                    } else {
                        assert(after[p as int] == y);
                    }
                }
            }
        }
        i += 1;
    }
    proof {
        assert(storage@.take(storage@.len() as int) =~= storage@);
    }
    out
}

impl FakeSmsNetwork {
    pub fn new() -> (n: FakeSmsNetwork)
        ensures
            n@.devices.len() == 0,
            n@.next_row == 0,
    {
        FakeSmsNetwork { devices: Vec::new(), next_row: 0 }
    }

    /// The phone line `number` already has, at time `now_ms`, as it stands:
    /// in service or not as it was left. A number seen for the first time
    /// gets a phone, in service, with empty storage and inbox.
    pub fn line(&mut self, number: &str, now_ms: u64) -> (t: FakeSmsTransport<'_>)
        ensures
            t.number@ == crate::peer::normalise_phone(number@),
            t.now_ms == now_ms,
            t.sent_log@.len() == 0,
            t.removal_log@.len() == 0,
            *final(self) == *final(t.network),
            t.network_view().next_row == old(self)@.next_row,
            first_index(old(self)@.devices, device_of(t.number@)) is Some ==> t.network_view().devices
                == old(self)@.devices,
            first_index(old(self)@.devices, device_of(t.number@)) is None ==> {
                &&& t.network_view().devices.len() == old(self)@.devices.len() + 1
                &&& t.network_view().devices.take(old(self)@.devices.len() as int) == old(self)@.devices
                &&& t.network_view().devices.last().number@ == t.number@
                &&& t.network_view().devices.last().reachable
                &&& t.network_view().devices.last().pending@.len() == 0
                &&& t.network_view().devices.last().storage@.len() == 0
            },
            inbox_of(t.network_view(), t.number@) == inbox_of(old(self)@, t.number@),
    {
        let phone = PhoneNumber::new(number);
        match device_position(&self.devices, &phone) {
            Some(_) => {},
            None => {
                self.devices.push(
                    Handset {
                        number: phone.clone(),
                        reachable: true,
                        pending: Vec::new(),
                        storage: Vec::new(),
                    },
                );
                proof {
                    assert(self@.devices.take(old(self)@.devices.len() as int) =~= old(self)@.devices);
                    lemma_first_index_facts(old(self)@.devices, device_of(phone@));
                    let n = old(self)@.devices.len() as int;
                    assert forall|j: int| 0 <= j < n implies !device_of(phone@)(#[trigger] self@.devices[j]) by {
                        assert(self@.devices[j] == old(self)@.devices[j]);
                    }
                    lemma_first_index_step(self@.devices, device_of(phone@), n);
                }
            },
        }
        FakeSmsTransport {
            network: self,
            number: phone,
            now_ms,
            sent_log: Ghost(Seq::empty()),
            removal_log: Ghost(Seq::empty()),
        }
    }

    /// A handset for `number` at time `now_ms`, in service. A number seen
    /// for the first time gets a phone with empty storage and inbox; a known
    /// number keeps its storage and inbox.
    pub fn handset(&mut self, number: &str, now_ms: u64) -> (t: FakeSmsTransport<'_>)
        ensures
            t.number@ == crate::peer::normalise_phone(number@),
            t.now_ms == now_ms,
            t.sent_log@.len() == 0,
            t.removal_log@.len() == 0,
            *final(self) == *final(t.network),
            has_service(t.network_view(), t.number@),
            t.network_view().next_row == old(self)@.next_row,
            match first_index(old(self)@.devices, device_of(t.number@)) {
                Some(k) => {
                    &&& t.network_view().devices.len() == old(self)@.devices.len()
                    &&& forall|j: int|
                        0 <= j < old(self)@.devices.len() && j != k ==> #[trigger] t.network_view().devices[j]
                            == old(self)@.devices[j]
                    &&& t.network_view().devices[k] == (Handset { reachable: true, ..old(self)@.devices[k] })
                },
                None => {
                    &&& t.network_view().devices.len() == old(self)@.devices.len() + 1
                    &&& t.network_view().devices.take(old(self)@.devices.len() as int)
                        == old(self)@.devices
                    &&& t.network_view().devices.last().number@ == t.number@
                    &&& t.network_view().devices.last().reachable
                    &&& t.network_view().devices.last().pending@.len() == 0
                    &&& t.network_view().devices.last().storage@.len() == 0
                },
            },
    {
        let phone = PhoneNumber::new(number);
        proof {
            lemma_first_index_facts(old(self)@.devices, device_of(phone@));
        }
        match device_position(&self.devices, &phone) {
            Some(k) => {
                let device = self.devices.remove(k);
                self.devices.insert(k, Handset { reachable: true, ..device });
                proof {
                    assert forall|j: int| 0 <= j < old(self)@.devices.len() && j != k implies #[trigger] self@.devices[j]
                        == old(self)@.devices[j] by {
                        if j < k {
                        } else {
                        }
                    }
                    assert forall|j: int| 0 <= j < k implies !device_of(phone@)(#[trigger] self@.devices[j]) by {
                        assert(self@.devices[j] == old(self)@.devices[j]);
                    }
                    lemma_first_index_step(self@.devices, device_of(phone@), k as int);
                }
            },
            None => {
                self.devices.push(
                    Handset {
                        number: phone.clone(),
                        reachable: true,
                        pending: Vec::new(),
                        storage: Vec::new(),
                    },
                );
                proof {
                    assert(self@.devices.take(old(self)@.devices.len() as int) =~= old(self)@.devices);
                    let n = old(self)@.devices.len() as int;
                    assert forall|j: int| 0 <= j < n implies !device_of(phone@)(#[trigger] self@.devices[j]) by {
                        assert(self@.devices[j] == old(self)@.devices[j]);
                    }
                    lemma_first_index_step(self@.devices, device_of(phone@), n);
                }
            },
        }
        FakeSmsTransport {
            network: self,
            number: phone,
            now_ms,
            sent_log: Ghost(Seq::empty()),
            removal_log: Ghost(Seq::empty()),
        }
    }

    /// What the phone with `number` stores, older first, then by row id;
    /// nothing for a number not on the network.
    pub fn stored_rows(&self, number: &PhoneNumber) -> (r: Vec<StoredSms>)
        ensures
            match first_of(self@.devices, device_of(number@)) {
                Some(h) => lists_rows(h.storage@, r@),
                None => r@.len() == 0,
            },
    {
        match device_position(&self.devices, number) {
            Some(k) => sorted_rows(&self.devices[k].storage),
            None => Vec::new(),
        }
    }

    /// Gives or takes away cell service for the phone with `number`.
    pub fn set_reachable(&mut self, number: &PhoneNumber, reachable: bool)
        ensures
            final(self)@.next_row == old(self)@.next_row,
            final(self)@.devices.len() == old(self)@.devices.len(),
            match first_index(old(self)@.devices, device_of(number@)) {
                Some(k) => {
                    &&& forall|j: int|
                        0 <= j < old(self)@.devices.len() && j != k ==> #[trigger] final(self)@.devices[j]
                            == old(self)@.devices[j]
                    &&& final(self)@.devices[k] == (Handset { reachable, ..old(self)@.devices[k] })
                },
                None => final(self)@.devices == old(self)@.devices,
            },
    {
        match device_position(&self.devices, number) {
            Some(k) => {
                let device = self.devices.remove(k);
                self.devices.insert(k, Handset { reachable, ..device });
                proof {
                    assert forall|j: int| 0 <= j < old(self)@.devices.len() && j != k implies #[trigger] self@.devices[j]
                        == old(self)@.devices[j] by {
                        if j < k {
                        } else {
                        }
                    }
                }
            },
            None => {},
        }
    }

    /// The next row id; the counter moves on.
    fn next_row_id(&mut self) -> (row: SmsRowId)
        ensures
            row@ == row_text(old(self)@.next_row),
            final(self)@ == (NetworkView { next_row: old(self)@.next_row.wrapping_add(1), ..old(self)@ }),
    {
        let mut text = String::new();
        push_char(&mut text, 's');
        push_char(&mut text, 'm');
        push_char(&mut text, 's');
        push_char(&mut text, '-');
        let digits = zero_padded_decimal(self.next_row, 12);
        text.append(digits.as_str());
        proof {
            assert(text@ =~= row_text(self.next_row));
        }
        self.next_row = self.next_row.wrapping_add(1);
        SmsRowId::new(text.as_str())
    }

    /// Sends `text` from `from` to `to` at time `now_ms`; the row id in the
    /// sender's storage comes back.
    pub fn send_from(&mut self, from: &PhoneNumber, to: &PhoneNumber, text: &str, now_ms: u64) -> (r:
        Result<SmsRowId, TransportError>)
        ensures
            sms_send_outcome(old(self)@, final(self)@, from@, to@, text@, now_ms, r),
    {
        let k = match device_position(&self.devices, from) {
            Some(k) => k,
            None => {
                return Err(TransportError::unreachable("no cell service"));
            },
        };
        if !self.devices[k].reachable {
            return Err(TransportError::unreachable("no cell service"));
        }
        let ghost v = self@;
        let row = self.next_row_id();
        let sender = self.devices.remove(k);
        let mut storage = sender.storage;
        let sent = StoredSms {
            row: row.clone(),
            peer: to.clone(),
            text: text.to_owned(),
            ts: now_ms,
            outgoing: true,
        };
        let ghost sent_view = sent;
        store_row(&mut storage, sent);
        proof {
            crate::seqs::lemma_replace_or_push_found(sender.storage@, row_is(row@), sent_view);
        }
        self.devices.insert(
            k,
            Handset {
                number: sender.number,
                reachable: sender.reachable,
                pending: sender.pending,
                storage,
            },
        );
        let ghost mid = self@;
        proof {
            assert forall|j: int| 0 <= j < v.devices.len() && j != k implies #[trigger] mid.devices[j]
                == v.devices[j] by {
                if j < k {
                } else {
                }
            }
            assert(mid.devices[k as int].number == v.devices[k as int].number);
        }
        let row2 = self.next_row_id();
        match device_position(&self.devices, to) {
            Some(j) => {
                proof {
                    lemma_first_index_facts(mid.devices, device_of(to@));
                    assert forall|d: int| 0 <= d < j implies !device_of(to@)(#[trigger] v.devices[d]) by {
                        assert(!device_of(to@)(mid.devices[d]));
                        if d != k {
                            assert(mid.devices[d] == v.devices[d]);
                        }
                    }
                    if j != k {
                        assert(mid.devices[j as int] == v.devices[j as int]);
                    }
                    lemma_first_index_step(v.devices, device_of(to@), j as int);
                }
                let recipient = self.devices.remove(j);
                let mut storage = recipient.storage;
                let mut pending = recipient.pending;
                let ghost old_pending = pending@;
                let received = StoredSms {
                    row: row2.clone(),
                    peer: from.clone(),
                    text: text.to_owned(),
                    ts: now_ms,
                    outgoing: false,
                };
                let ghost received_view = received;
                let ghost old_storage = storage@;
                store_row(&mut storage, received);
                proof {
                    crate::seqs::lemma_replace_or_push_found(old_storage, row_is(row2@), received_view);
                }
                pending.push(
                    InboundSms {
                        from: from.clone(),
                        text: text.to_owned(),
                        received_ts: now_ms,
                        row: row2.clone(),
                    },
                );
                proof {
                    assert(pending@.take(old_pending.len() as int) =~= old_pending);
                }
                self.devices.insert(
                    j,
                    Handset {
                        number: recipient.number,
                        reachable: recipient.reachable,
                        pending,
                        storage,
                    },
                );
                proof {
                    assert forall|d: int| 0 <= d < mid.devices.len() && d != j implies #[trigger] self@.devices[d]
                        == mid.devices[d] by {
                        if d < j {
                        } else {
                        }
                    }
                }
            },
            None => {
                proof {
                    lemma_first_index_facts(mid.devices, device_of(to@));
                    assert forall|d: int| 0 <= d < v.devices.len() implies !device_of(to@)(#[trigger] v.devices[d]) by {
                        assert(!device_of(to@)(mid.devices[d]));
                        if d != k {
                            assert(mid.devices[d] == v.devices[d]);
                        }
                    }
                    lemma_first_index_none(v.devices, device_of(to@));
                }
            },
        }
        Ok(row)
    }

    /// Takes the SMS waiting on the phone with `number`.
    pub fn take_pending(&mut self, number: &PhoneNumber) -> (r: Vec<InboundSms>)
        ensures
            sms_drained(old(self)@, final(self)@, number@, r@),
    {
        match device_position(&self.devices, number) {
            Some(k) => {
                let device = self.devices.remove(k);
                let taken = device.pending;
                self.devices.insert(
                    k,
                    Handset {
                        number: device.number,
                        reachable: device.reachable,
                        pending: Vec::new(),
                        storage: device.storage,
                    },
                );
                proof {
                    assert forall|j: int| 0 <= j < old(self)@.devices.len() && j != k implies #[trigger] self@.devices[j]
                        == old(self)@.devices[j] by {
                        if j < k {
                        } else {
                        }
                    }
                }
                taken
            },
            None => Vec::new(),
        }
    }

    /// Removes a row from the storage of the phone with `number`; a row not
    /// stored is no error.
    pub fn delete_row(&mut self, number: &PhoneNumber, row: &SmsRowId)
        ensures
            row_deleted(old(self)@, final(self)@, number@, row@),
    {
        match device_position(&self.devices, number) {
            Some(k) => {
                let device = self.devices.remove(k);
                let mut storage = device.storage;
                match row_position(&storage, row) {
                    Some(i) => {
                        storage.remove(i);
                    },
                    None => {},
                }
                self.devices.insert(
                    k,
                    Handset {
                        number: device.number,
                        reachable: device.reachable,
                        pending: device.pending,
                        storage,
                    },
                );
                proof {
                    assert forall|j: int| 0 <= j < old(self)@.devices.len() && j != k implies #[trigger] self@.devices[j]
                        == old(self)@.devices[j] by {
                        if j < k {
                        } else {
                        }
                    }
                }
            },
            None => {},
        }
    }
}

/// One phone's use of the carrier, at a given time.
pub struct FakeSmsTransport<'a> {
    pub network: &'a mut FakeSmsNetwork,
    pub number: PhoneNumber,
    pub now_ms: u64,
    /// What this phone sent, with the answers.
    pub sent_log: Ghost<Seq<(PhoneNumber, Seq<char>, Result<SmsRowId, TransportError>)>>,
    /// The rows this phone was asked to remove, with the answers.
    pub removal_log: Ghost<Seq<(SmsRowId, Result<(), TransportError>)>>,
}

impl<'a> FakeSmsTransport<'a> {
    /// The carrier as this phone sees it.
    pub open spec fn network_view(&self) -> NetworkView {
        self.network@
    }

    pub fn number(&self) -> (n: &PhoneNumber)
        ensures
            *n == self.number,
    {
        &self.number
    }

    /// Gives or takes away this phone's cell service.
    pub fn set_reachable(&mut self, reachable: bool)
        ensures
            final(self).number == old(self).number,
            final(self).now_ms == old(self).now_ms,
            has_service(final(self).network_view(), old(self).number@) == (reachable && first_index(
                old(self).network_view().devices,
                device_of(old(self).number@),
            ) is Some),
    {
        self.network.set_reachable(&self.number, reachable);
        proof {
            lemma_first_index_facts(old(self).network_view().devices, device_of(self.number@));
            match first_index(old(self).network_view().devices, device_of(self.number@)) {
                Some(k) => {
                    assert forall|j: int| 0 <= j < k implies !device_of(self.number@)(#[trigger] self.network@.devices[j]) by {
                        assert(self.network@.devices[j] == old(self).network_view().devices[j]);
                    }
                    lemma_first_index_step(self.network@.devices, device_of(self.number@), k);
                },
                None => {},
            }
        }
    }

    /// What this phone stores, older first, then by row id.
    pub fn stored_rows(&self) -> (r: Vec<StoredSms>)
        ensures
            match first_of(self.network_view().devices, device_of(self.number@)) {
                Some(h) => lists_rows(h.storage@, r@),
                None => r@.len() == 0,
            },
    {
        self.network.stored_rows(&self.number)
    }
}

impl<'a> SmsTransport for FakeSmsTransport<'a> {
    open spec fn sent(&self) -> Seq<(PhoneNumber, Seq<char>, Result<SmsRowId, TransportError>)> {
        self.sent_log@
    }

    open spec fn removals(&self) -> Seq<(SmsRowId, Result<(), TransportError>)> {
        self.removal_log@
    }

    /// What waits on this phone: its inbox.
    open spec fn waiting(&self) -> Seq<InboundSms> {
        inbox_of(self.network_view(), self.number@)
    }

    fn send(&mut self, to: &PhoneNumber, text: &str) -> (r: Result<SmsRowId, TransportError>)
        ensures
            final(self).number == old(self).number,
            final(self).now_ms == old(self).now_ms,
            sms_send_outcome(
                old(self).network_view(),
                final(self).network_view(),
                old(self).number@,
                to@,
                text@,
                old(self).now_ms,
                r,
            ),
    {
        let r = self.network.send_from(&self.number, to, text, self.now_ms);
        self.sent_log = Ghost(self.sent_log@.push((*to, text@, r)));
        r
    }

    fn drain_inbound(&mut self) -> (r: Vec<InboundSms>)
        ensures
            final(self).number == old(self).number,
            final(self).now_ms == old(self).now_ms,
            sms_drained(old(self).network_view(), final(self).network_view(), old(self).number@, r@),
    {
        let r = self.network.take_pending(&self.number);
        proof {
            let v = old(self).network_view();
            let v2 = self.network_view();
            lemma_first_index_facts(v.devices, device_of(self.number@));
            match first_index(v.devices, device_of(self.number@)) {
                Some(k) => {
                    assert forall|j: int| 0 <= j < v.devices.len() implies device_of(self.number@)(
                        #[trigger] v.devices[j],
                    ) == device_of(self.number@)(v2.devices[j]) by {
                        if j != k {
                            assert(v2.devices[j] == v.devices[j]);
                        }
                    }
                    crate::seqs::lemma_first_index_same(v.devices, v2.devices, device_of(self.number@));
                },
                None => {},
            }
        }
        r
    }

    fn delete_local(&mut self, row: &SmsRowId) -> (r: Result<(), TransportError>)
        ensures
            r is Ok,
            final(self).number == old(self).number,
            final(self).now_ms == old(self).now_ms,
            row_deleted(old(self).network_view(), final(self).network_view(), old(self).number@, row@),
    {
        self.network.delete_row(&self.number, row);
        proof {
            let v = old(self).network_view();
            let v2 = self.network_view();
            lemma_first_index_facts(v.devices, device_of(self.number@));
            match first_index(v.devices, device_of(self.number@)) {
                Some(k) => {
                    assert forall|j: int| 0 <= j < v.devices.len() implies device_of(self.number@)(
                        #[trigger] v.devices[j],
                    ) == device_of(self.number@)(v2.devices[j]) by {
                        if j != k {
                            assert(v2.devices[j] == v.devices[j]);
                        }
                    }
                    crate::seqs::lemma_first_index_same(v.devices, v2.devices, device_of(self.number@));
                },
                None => {},
            }
        }
        self.removal_log = Ghost(self.removal_log@.push((*row, Ok(()))));
        Ok(())
    }
}

} // verus!
