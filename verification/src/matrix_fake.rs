//! A homeserver held in memory, for tests and demos: one timeline, the
//! transactions already seen, and a queue of undelivered events per user.
//! Each user reaches it through a `FakeMatrixTransport`.

use vstd::prelude::*;
use crate::error::TransportError;
use crate::id::{base32_digits, MESSAGE_ID_LEN};
use crate::message::MatrixDelivery;
use crate::peer::{ConversationId, MatrixUserId};
use crate::schema::{MessageContent, Via, VIA_SMS_FALLBACK};
use crate::seqs::{first_index, first_of, lemma_first_index_facts, lemma_first_index_none, lemma_first_index_same, lemma_first_index_step};
use crate::text::{
    same_text,
    chars_lt, lemma_chars_lt_irreflexive, lemma_chars_lt_total, lemma_chars_lt_transitive,
    push_char, str_less, zero_padded, zero_padded_decimal,
};
use crate::transport::{InboundMatrixEvent, MatrixSendRequest, MatrixTransport};

verus! {

/// An event as the homeserver keeps it.
#[derive(Debug, PartialEq, Eq)]
pub struct StoredEvent {
    pub event_id: String,
    pub room: String,
    pub sender: MatrixUserId,
    pub content: MessageContent,
    pub server_ts: u64,
}

impl Clone for StoredEvent {
    fn clone(&self) -> (r: Self)
        ensures
            r == *self,
    {
        StoredEvent {
            event_id: self.event_id.clone(),
            room: self.room.clone(),
            sender: self.sender.clone(),
            content: self.content.clone(),
            server_ts: self.server_ts,
        }
    }
}

/// A transaction id and the event it created.
#[derive(Debug, PartialEq, Eq)]
pub struct Transaction {
    pub txn_id: String,
    pub event_id: String,
}

/// A user's connection to the homeserver and the events waiting for them.
#[derive(Debug, PartialEq, Eq)]
pub struct Session {
    pub user: MatrixUserId,
    pub connected: bool,
    pub pending: Vec<InboundMatrixEvent>,
}

/// What the homeserver holds.
pub struct HomeserverView {
    pub timeline: Seq<StoredEvent>,
    pub transactions: Seq<Transaction>,
    pub sessions: Seq<Session>,
    pub next_event: u64,
    pub reachable: bool,
}

/// The id of the `n`th event: a dollar sign, then `n` in twelve digits.
pub open spec fn event_id_text(n: u64) -> Seq<char> {
    seq!['$'] + zero_padded(n as nat, 12)
}

/// The room two users talk in: both ids, the smaller first.
pub open spec fn room_text(a: Seq<char>, b: Seq<char>) -> Seq<char> {
    if !chars_lt(b, a) {
        seq!['!'] + a + seq!['~'] + b
    } else {
        seq!['!'] + b + seq!['~'] + a
    }
}

pub open spec fn session_of(user: Seq<char>) -> spec_fn(Session) -> bool {
    |s: Session| s.user@ == user
}

/// What waits for `user` on the homeserver `v`: the queue of a connected
/// user, nothing for a disconnected or unknown one.
pub open spec fn waiting_for(v: HomeserverView, user: Seq<char>) -> Seq<InboundMatrixEvent> {
    match first_of(v.sessions, session_of(user)) {
        Some(s) => if s.connected {
            s.pending@
        } else {
            Seq::empty()
        },
        None => Seq::empty(),
    }
}

pub open spec fn txn_named(txn_id: Seq<char>) -> spec_fn(Transaction) -> bool {
    |t: Transaction| t.txn_id@ == txn_id
}

pub open spec fn event_named(event_id: Seq<char>) -> spec_fn(StoredEvent) -> bool {
    |e: StoredEvent| e.event_id@ == event_id
}

/// Whether `user` has a connected session.
pub open spec fn is_connected_in(v: HomeserverView, user: Seq<char>) -> bool {
    match first_of(v.sessions, session_of(user)) {
        Some(s) => s.connected,
        None => false,
    }
}

/// `c` is the content the homeserver stores for `request`.
pub open spec fn content_for(c: MessageContent, request: MatrixSendRequest) -> bool {
    &&& c.msgtype@ == "m.text"@
    &&& c.body@ == request.body@
    &&& c.parakeet_id matches Some(s) && s@ == base32_digits(
        request.message_id.0 as nat,
        MESSAGE_ID_LEN as nat,
    )
    &&& c.parakeet_origin_ts == Some(request.origin_ts)
    &&& if request.via_sms_fallback {
        c.parakeet_via matches Some(v) && v@ == VIA_SMS_FALLBACK@
    } else {
        c.parakeet_via is None
    }
}

/// `v2` is `v` with a new event `n` from `sender` for `request` at time
/// `now_ms`: on the timeline, under its transaction, and in the recipient's
/// queue if the recipient has a session.
pub open spec fn posted(v: HomeserverView, v2: HomeserverView, sender: Seq<char>, now_ms: u64, request: MatrixSendRequest) -> bool {
    let n = v.next_event;
    let id = event_id_text(n);
    &&& v2.next_event == n.wrapping_add(1)
    &&& v2.reachable == v.reachable
    &&& v2.timeline.len() == v.timeline.len() + 1
    &&& v2.timeline.take(v.timeline.len() as int) == v.timeline
    &&& v2.timeline.last().event_id@ == id
    &&& v2.timeline.last().room@ == room_text(sender, request.to@)
    &&& v2.timeline.last().sender@ == sender
    &&& content_for(v2.timeline.last().content, request)
    &&& v2.timeline.last().server_ts == now_ms
    &&& v2.transactions.len() == v.transactions.len() + 1
    &&& v2.transactions.take(v.transactions.len() as int) == v.transactions
    &&& v2.transactions.last().txn_id@ == request.txn_id@
    &&& v2.transactions.last().event_id@ == id
    &&& v2.sessions.len() == v.sessions.len()
    &&& match first_index(v.sessions, session_of(request.to@)) {
        Some(k) => {
            &&& forall|j: int| 0 <= j < v.sessions.len() && j != k ==> #[trigger] v2.sessions[j] == v.sessions[j]
            &&& v2.sessions[k].user == v.sessions[k].user
            &&& v2.sessions[k].connected == v.sessions[k].connected
            &&& v2.sessions[k].pending@.len() == v.sessions[k].pending@.len() + 1
            &&& v2.sessions[k].pending@.take(v.sessions[k].pending@.len() as int) == v.sessions[k].pending@
            &&& v2.sessions[k].pending@.last().conversation@ == sender
            &&& v2.sessions[k].pending@.last().sender@ == sender
            &&& v2.sessions[k].pending@.last().content == Some(v2.timeline.last().content)
            &&& v2.sessions[k].pending@.last().event_id@ == id
            &&& v2.sessions[k].pending@.last().server_ts == now_ms
        },
        None => v2.sessions == v.sessions,
    }
}

/// What posting `request` as `sender` at time `now_ms` does to the
/// homeserver `v`, leaving `v2`, and answers. A sender who is not connected,
/// or a homeserver that is down, fails recoverably. A transaction id already
/// seen gives back the event it created, and nothing is added. Otherwise the
/// event is posted under the next event id.
pub open spec fn post_outcome(
    v: HomeserverView,
    v2: HomeserverView,
    sender: Seq<char>,
    now_ms: u64,
    request: MatrixSendRequest,
    r: Result<MatrixDelivery, TransportError>,
) -> bool {
    if !is_connected_in(v, sender) {
        &&& r matches Err(TransportError::Unreachable(why)) && why@ == "no data connection"@
        &&& v2 == v
    } else if !v.reachable {
        &&& r matches Err(TransportError::Unreachable(why)) && why@ == "homeserver not reachable"@
        &&& v2 == v
    } else if first_of(v.transactions, txn_named(request.txn_id@)) is Some {
        let t = first_of(v.transactions, txn_named(request.txn_id@)).unwrap();
        &&& r matches Ok(d) && d.event_id@ == t.event_id@ && d.server_ts == match first_of(
            v.timeline,
            event_named(t.event_id@),
        ) {
            Some(e) => e.server_ts,
            None => 0,
        }
        &&& v2 == v
    } else {
        &&& r matches Ok(d) && d.event_id@ == event_id_text(v.next_event) && d.server_ts == now_ms
        &&& posted(v, v2, sender, now_ms, request)
    }
}

/// What taking `user`'s waiting events does to the homeserver `v`, leaving
/// `v2`, and hands back: everything queued for a connected user, in order,
/// leaving the queue empty; nothing for a disconnected one.
pub open spec fn drained(v: HomeserverView, v2: HomeserverView, user: Seq<char>, r: Seq<InboundMatrixEvent>) -> bool {
    if is_connected_in(v, user) {
        let k = first_index(v.sessions, session_of(user)).unwrap();
        &&& r == v.sessions[k].pending@
        &&& v2.timeline == v.timeline
        &&& v2.transactions == v.transactions
        &&& v2.next_event == v.next_event
        &&& v2.reachable == v.reachable
        &&& v2.sessions.len() == v.sessions.len()
        &&& forall|j: int| 0 <= j < v.sessions.len() && j != k ==> #[trigger] v2.sessions[j] == v.sessions[j]
        &&& v2.sessions[k].user == v.sessions[k].user
        &&& v2.sessions[k].connected == v.sessions[k].connected
        &&& v2.sessions[k].pending@.len() == 0
    } else {
        &&& r.len() == 0
        &&& v2 == v
    }
}

/// `v2` has the sessions of `v`, each as connected as it was, and is as
/// reachable.
pub open spec fn same_links(v: HomeserverView, v2: HomeserverView) -> bool {
    &&& v2.reachable == v.reachable
    &&& v2.sessions.len() == v.sessions.len()
    &&& forall|j: int|
        0 <= j < v.sessions.len() ==> (#[trigger] v2.sessions[j]).user == v.sessions[j].user
            && v2.sessions[j].connected == v.sessions[j].connected
}

/// With the same links, every user is as connected as before.
pub proof fn lemma_links_kept(v: HomeserverView, v2: HomeserverView, user: Seq<char>)
    requires
        same_links(v, v2),
    ensures
        is_connected_in(v2, user) == is_connected_in(v, user),
{
    assert forall|j: int| 0 <= j < v.sessions.len() implies session_of(user)(#[trigger] v.sessions[j])
        == session_of(user)(v2.sessions[j]) by {
        assert(v2.sessions[j].user == v.sessions[j].user);
    }
    crate::seqs::lemma_first_index_same(v.sessions, v2.sessions, session_of(user));
    lemma_first_index_facts(v.sessions, session_of(user));
    if let Some(i) = first_index(v.sessions, session_of(user)) {
        assert(v2.sessions[i].connected == v.sessions[i].connected);
    }
}

/// A homeserver whose sessions are as they were, or gained one for `user`
/// at their end, has every other user's link as it was.
pub proof fn lemma_others_connected_kept(v: HomeserverView, v2: HomeserverView, user: Seq<char>)
    requires
        v2.sessions == v.sessions || (v2.sessions.len() == v.sessions.len() + 1 && v2.sessions.take(
            v.sessions.len() as int,
        ) == v.sessions && v2.sessions.last().user@ == user),
    ensures
        forall|a: Seq<char>| a != user ==> #[trigger] is_connected_in(v2, a) == is_connected_in(v, a),
{
    assert forall|a: Seq<char>| a != user implies #[trigger] is_connected_in(v2, a) == is_connected_in(v, a) by {
        if v2.sessions != v.sessions {
            let n = v.sessions.len() as int;
            assert forall|j: int| 0 <= j < n implies #[trigger] v2.sessions[j] == v.sessions[j] by {
                assert(v2.sessions.take(n)[j] == v2.sessions[j]);
            }
            lemma_first_index_facts(v.sessions, session_of(a));
            match first_index(v.sessions, session_of(a)) {
                Some(k) => {
                    assert forall|j: int| 0 <= j < k implies !session_of(a)(#[trigger] v2.sessions[j]) by {
                        assert(v2.sessions[j] == v.sessions[j]);
                    }
                    lemma_first_index_step(v2.sessions, session_of(a), k);
                },
                None => {
                    assert forall|j: int| 0 <= j < v2.sessions.len() implies !session_of(a)(#[trigger] v2.sessions[j]) by {
                        if j < n {
                            assert(v2.sessions[j] == v.sessions[j]);
                        }
                    }
                    lemma_first_index_none(v2.sessions, session_of(a));
                },
            }
        }
    }
}

/// Posting switches no link.
proof fn lemma_post_keeps_links(
    v: HomeserverView,
    v2: HomeserverView,
    sender: Seq<char>,
    now_ms: u64,
    request: MatrixSendRequest,
    r: Result<MatrixDelivery, TransportError>,
)
    requires
        post_outcome(v, v2, sender, now_ms, request, r),
    ensures
        same_links(v, v2),
{
    if is_connected_in(v, sender) && v.reachable && first_of(v.transactions, txn_named(request.txn_id@)) is None {
        match first_index(v.sessions, session_of(request.to@)) {
            Some(k) => {
                assert forall|j: int| 0 <= j < v.sessions.len() implies (#[trigger] v2.sessions[j]).user
                    == v.sessions[j].user && v2.sessions[j].connected == v.sessions[j].connected by {
                    if j != k {
                        assert(v2.sessions[j] == v.sessions[j]);
                    }
                }
            },
            None => {},
        }
    }
}

/// Taking the waiting events switches no link.
proof fn lemma_drain_keeps_links(v: HomeserverView, v2: HomeserverView, user: Seq<char>, r: Seq<InboundMatrixEvent>)
    requires
        drained(v, v2, user, r),
    ensures
        same_links(v, v2),
{
    if is_connected_in(v, user) {
        let k = first_index(v.sessions, session_of(user)).unwrap();
        assert forall|j: int| 0 <= j < v.sessions.len() implies (#[trigger] v2.sessions[j]).user
            == v.sessions[j].user && v2.sessions[j].connected == v.sessions[j].connected by {
            if j != k {
                assert(v2.sessions[j] == v.sessions[j]);
            }
        }
    }
}

/// A homeserver held in memory.
#[derive(Debug)]
pub struct FakeHomeserver {
    timeline: Vec<StoredEvent>,
    transactions: Vec<Transaction>,
    sessions: Vec<Session>,
    next_event: u64,
    reachable: bool,
}

impl View for FakeHomeserver {
    type V = HomeserverView;

    closed spec fn view(&self) -> HomeserverView {
        HomeserverView {
            timeline: self.timeline@,
            transactions: self.transactions@,
            sessions: self.sessions@,
            next_event: self.next_event,
            reachable: self.reachable,
        }
    }
}

impl Default for FakeHomeserver {
    fn default() -> (hs: Self)
        ensures
            hs@.timeline.len() == 0,
            hs@.transactions.len() == 0,
            hs@.sessions.len() == 0,
            hs@.next_event == 0,
            hs@.reachable,
    {
        FakeHomeserver::new()
    }
}

fn session_position(sessions: &Vec<Session>, user: &MatrixUserId) -> (r: Option<usize>)
    ensures
        match r {
            Some(i) => first_index(sessions@, session_of(user@)) == Some(i as int) && i < sessions@.len(),
            None => first_index(sessions@, session_of(user@)) is None,
        },
{
    let mut i: usize = 0;
    while i < sessions.len()
        invariant
            i <= sessions@.len(),
            forall|j: int| 0 <= j < i ==> !session_of(user@)(#[trigger] sessions@[j]),
        decreases sessions@.len() - i,
    {
        if same_text(sessions[i].user.as_str(), user.as_str()) {
            proof {
                lemma_first_index_step(sessions@, session_of(user@), i as int);
            }
            return Some(i);
        }
        i += 1;
    }
    proof {
        lemma_first_index_none(sessions@, session_of(user@));
    }
    None
}

impl FakeHomeserver {
    pub fn new() -> (hs: FakeHomeserver)
        ensures
            hs@.timeline.len() == 0,
            hs@.transactions.len() == 0,
            hs@.sessions.len() == 0,
            hs@.next_event == 0,
            hs@.reachable,
    {
        FakeHomeserver {
            timeline: Vec::new(),
            transactions: Vec::new(),
            sessions: Vec::new(),
            next_event: 0,
            reachable: true,
        }
    }

    /// The connection `user` already has, at time `now_ms`, as it stands:
    /// connected or not as it was left. A user seen for the first time gets
    /// a session, connected and with nothing waiting.
    pub fn connection(&mut self, user: &str, now_ms: u64) -> (t: FakeMatrixTransport<'_>)
        ensures
            t.user@ == user@,
            t.now_ms == now_ms,
            t.log@.len() == 0,
            *final(self) == *final(t.server),
            t.server_view().timeline == old(self)@.timeline,
            t.server_view().transactions == old(self)@.transactions,
            t.server_view().next_event == old(self)@.next_event,
            t.server_view().reachable == old(self)@.reachable,
            first_index(old(self)@.sessions, session_of(user@)) is Some ==> t.server_view().sessions
                == old(self)@.sessions,
            first_index(old(self)@.sessions, session_of(user@)) is None ==> {
                &&& t.server_view().sessions.len() == old(self)@.sessions.len() + 1
                &&& t.server_view().sessions.take(old(self)@.sessions.len() as int) == old(self)@.sessions
                &&& t.server_view().sessions.last().user@ == user@
                &&& t.server_view().sessions.last().connected
                &&& t.server_view().sessions.last().pending@.len() == 0
            },
            waiting_for(t.server_view(), t.user@) == waiting_for(old(self)@, user@),
    {
        let id = MatrixUserId::new(user);
        match session_position(&self.sessions, &id) {
            Some(_) => {},
            None => {
                self.sessions.push(Session { user: id.clone(), connected: true, pending: Vec::new() });
                proof {
                    assert(self@.sessions.take(old(self)@.sessions.len() as int) =~= old(self)@.sessions);
                    lemma_first_index_facts(old(self)@.sessions, session_of(user@));
                    let n = old(self)@.sessions.len() as int;
                    assert forall|j: int| 0 <= j < n implies !session_of(user@)(#[trigger] self@.sessions[j]) by {
                        assert(self@.sessions[j] == old(self)@.sessions[j]);
                    }
                    lemma_first_index_step(self@.sessions, session_of(user@), n);
                }
            },
        }
        FakeMatrixTransport { server: self, user: id, now_ms, log: Ghost(Seq::empty()) }
    }

    /// A new connection for `user` at time `now_ms`, connected. A user seen
    /// for the first time gets a session with nothing waiting; a known user
    /// keeps what waits for them.
    pub fn client(&mut self, user: &str, now_ms: u64) -> (t: FakeMatrixTransport<'_>)
        ensures
            t.user@ == user@,
            t.now_ms == now_ms,
            t.log@.len() == 0,
            *final(self) == *final(t.server),
            is_connected_in(t.server_view(), user@),
            t.server_view().timeline == old(self)@.timeline,
            t.server_view().transactions == old(self)@.transactions,
            t.server_view().next_event == old(self)@.next_event,
            t.server_view().reachable == old(self)@.reachable,
            match first_index(old(self)@.sessions, session_of(user@)) {
                Some(k) => {
                    &&& t.server_view().sessions.len() == old(self)@.sessions.len()
                    &&& forall|j: int|
                        0 <= j < old(self)@.sessions.len() && j != k ==> #[trigger] t.server_view().sessions[j]
                            == old(self)@.sessions[j]
                    &&& t.server_view().sessions[k].user == old(self)@.sessions[k].user
                    &&& t.server_view().sessions[k].pending == old(self)@.sessions[k].pending
                },
                None => {
                    &&& t.server_view().sessions.len() == old(self)@.sessions.len() + 1
                    &&& t.server_view().sessions.take(old(self)@.sessions.len() as int)
                        == old(self)@.sessions
                    &&& t.server_view().sessions.last().user@ == user@
                    &&& t.server_view().sessions.last().pending@.len() == 0
                },
            },
    {
        let id = MatrixUserId::new(user);
        proof {
            lemma_first_index_facts(old(self)@.sessions, session_of(user@));
        }
        match session_position(&self.sessions, &id) {
            Some(k) => {
                let session = self.sessions.remove(k);
                let updated = Session { connected: true, ..session };
                self.sessions.insert(k, updated);
                proof {
                    assert forall|j: int| 0 <= j < old(self)@.sessions.len() implies session_of(user@)(
                        #[trigger] old(self)@.sessions[j],
                    ) == session_of(user@)(self@.sessions[j]) by {
                        if j != k {
                            assert(self@.sessions[j] == old(self)@.sessions[j]);
                        }
                    }
                    lemma_first_index_same(old(self)@.sessions, self@.sessions, session_of(user@));
                }
            },
            None => {
                self.sessions.push(Session { user: id.clone(), connected: true, pending: Vec::new() });
                proof {
                    assert(self@.sessions.take(old(self)@.sessions.len() as int) =~= old(self)@.sessions);
                    let n = old(self)@.sessions.len() as int;
                    assert forall|j: int| 0 <= j < n implies !session_of(user@)(#[trigger] self@.sessions[j]) by {
                        assert(self@.sessions[j] == old(self)@.sessions[j]);
                    }
                    lemma_first_index_step(self@.sessions, session_of(user@), n);
                }
            },
        }
        FakeMatrixTransport { server: self, user: id, now_ms, log: Ghost(Seq::empty()) }
    }

    pub fn set_reachable(&mut self, reachable: bool)
        ensures
            final(self)@ == (HomeserverView { reachable, ..old(self)@ }),
    {
        self.reachable = reachable;
    }

    pub fn is_reachable(&self) -> (b: bool)
        ensures
            b == self@.reachable,
    {
        self.reachable
    }

    /// Every event, oldest first.
    pub fn timeline(&self) -> (v: Vec<StoredEvent>)
        ensures
            v@ == self@.timeline,
    {
        self.timeline.clone()
    }

    pub fn event_count(&self) -> (n: usize)
        ensures
            n == self@.timeline.len(),
    {
        self.timeline.len()
    }

    /// Whether `user` is connected.
    pub fn is_connected(&self, user: &MatrixUserId) -> (b: bool)
        ensures
            b == is_connected_in(self@, user@),
    {
        match session_position(&self.sessions, user) {
            Some(k) => self.sessions[k].connected,
            None => false,
        }
    }

    /// Connects or disconnects `user`; a user with no session is left
    /// alone.
    pub fn set_connected(&mut self, user: &MatrixUserId, connected: bool)
        ensures
            final(self)@.timeline == old(self)@.timeline,
            final(self)@.transactions == old(self)@.transactions,
            final(self)@.next_event == old(self)@.next_event,
            final(self)@.reachable == old(self)@.reachable,
            final(self)@.sessions.len() == old(self)@.sessions.len(),
            match first_index(old(self)@.sessions, session_of(user@)) {
                Some(k) => {
                    &&& forall|j: int|
                        0 <= j < old(self)@.sessions.len() && j != k ==> #[trigger] final(self)@.sessions[j] == old(self)@.sessions[j]
                    &&& final(self)@.sessions[k].user == old(self)@.sessions[k].user
                    &&& final(self)@.sessions[k].pending == old(self)@.sessions[k].pending
                    &&& final(self)@.sessions[k].connected == connected
                },
                None => final(self)@.sessions == old(self)@.sessions,
            },
    {
        match session_position(&self.sessions, user) {
            Some(k) => {
                let session = self.sessions.remove(k);
                let updated = Session { connected, ..session };
                self.sessions.insert(k, updated);
            },
            None => {},
        }
    }

    /// The room two users talk in: a bang, the smaller id, a tilde, the
    /// larger; the same whichever user asks.
    pub fn room_for(a: &MatrixUserId, b: &MatrixUserId) -> (room: String)
        ensures
            room@ == room_text(a@, b@),
    {
        let (lo, hi) = if !str_less(b.as_str(), a.as_str()) {
            (a.as_str(), b.as_str())
        } else {
            (b.as_str(), a.as_str())
        };
        let mut room = String::new();
        push_char(&mut room, '!');
        room.append(lo);
        push_char(&mut room, '~');
        room.append(hi);
        proof {
            assert(room@ =~= room_text(a@, b@));
        }
        room
    }

    /// The event recorded under transaction `txn_id`, if any.
    fn recorded(&self, txn_id: &str) -> (r: Option<usize>)
        ensures
            match r {
                Some(i) => first_index(self@.transactions, txn_named(txn_id@)) == Some(i as int)
                    && i < self@.transactions.len(),
                None => first_index(self@.transactions, txn_named(txn_id@)) is None,
            },
    {
        let mut i: usize = 0;
        while i < self.transactions.len()
            invariant
                i <= self@.transactions.len(),
                forall|j: int| 0 <= j < i ==> !txn_named(txn_id@)(#[trigger] self@.transactions[j]),
            decreases self@.transactions.len() - i,
        {
            if same_text(self.transactions[i].txn_id.as_str(), txn_id) {
                proof {
                    lemma_first_index_step(self@.transactions, txn_named(txn_id@), i as int);
                }
                return Some(i);
            }
            i += 1;
        }
        proof {
            lemma_first_index_none(self@.transactions, txn_named(txn_id@));
        }
        None
    }

    /// The server time of the first event with id `event_id`, 0 if none.
    fn event_time(&self, event_id: &str) -> (ts: u64)
        ensures
            ts == match first_of(self@.timeline, event_named(event_id@)) {
                Some(e) => e.server_ts,
                None => 0,
            },
    {
        let mut i: usize = 0;
        while i < self.timeline.len()
            invariant
                i <= self@.timeline.len(),
                forall|j: int| 0 <= j < i ==> !event_named(event_id@)(#[trigger] self@.timeline[j]),
            decreases self@.timeline.len() - i,
        {
            if same_text(self.timeline[i].event_id.as_str(), event_id) {
                proof {
                    lemma_first_index_step(self@.timeline, event_named(event_id@), i as int);
                }
                return self.timeline[i].server_ts;
            }
            i += 1;
        }
        proof {
            lemma_first_index_none(self@.timeline, event_named(event_id@));
        }
        0
    }

    /// Accepts a message event from `sender` at time `now_ms`. A sender who
    /// is not connected, or a homeserver that is down, fails recoverably. A
    /// transaction id already seen gives back the event it created, and
    /// nothing is added. Otherwise the event joins the timeline under the
    /// next event id, in the room of the two users, its transaction is
    /// recorded, and it is queued for the recipient if they have a session.
    pub fn post(&mut self, sender: &MatrixUserId, now_ms: u64, request: MatrixSendRequest) -> (r: Result<
        MatrixDelivery,
        TransportError,
    >)
        ensures
            post_outcome(old(self)@, final(self)@, sender@, now_ms, request, r),
    {
        if !self.is_connected(sender) {
            return Err(TransportError::unreachable("no data connection"));
        }
        if !self.reachable {
            return Err(TransportError::unreachable("homeserver not reachable"));
        }
        match self.recorded(request.txn_id.as_str()) {
            Some(i) => {
                let event_id = self.transactions[i].event_id.clone();
                let server_ts = self.event_time(event_id.as_str());
                proof {
                    lemma_first_index_facts(self@.transactions, txn_named(request.txn_id@));
                }
                return Ok(MatrixDelivery { event_id, server_ts });
            },
            None => {},
        }
        let via = if request.via_sms_fallback {
            Via::SmsFallback
        } else {
            Via::Direct
        };
        let content = MessageContent::new(
            request.body.as_str(),
            request.message_id,
            request.origin_ts,
            via,
        );
        let mut event_id = String::new();
        push_char(&mut event_id, '$');
        let digits = zero_padded_decimal(self.next_event, 12);
        event_id.append(digits.as_str());
        proof {
            assert(event_id@ =~= event_id_text(self.next_event));
        }
        self.next_event = self.next_event.wrapping_add(1);
        let room = FakeHomeserver::room_for(sender, &request.to);
        let ghost v = old(self)@;
        self.timeline.push(
            StoredEvent {
                event_id: event_id.clone(),
                room,
                sender: sender.clone(),
                content: content.clone(),
                server_ts: now_ms,
            },
        );
        self.transactions.push(
            Transaction { txn_id: request.txn_id.clone(), event_id: event_id.clone() },
        );
        proof {
            assert(self@.timeline.take(v.timeline.len() as int) =~= v.timeline);
            assert(self@.transactions.take(v.transactions.len() as int) =~= v.transactions);
        }
        match session_position(&self.sessions, &request.to) {
            Some(k) => {
                let session = self.sessions.remove(k);
                let ghost old_pending = session.pending@;
                let mut pending = session.pending;
                pending.push(
                    InboundMatrixEvent {
                        conversation: ConversationId::new(sender.as_str()),
                        sender: sender.clone(),
                        content: Some(content),
                        event_id: event_id.clone(),
                        server_ts: now_ms,
                    },
                );
                proof {
                    assert(pending@.take(old_pending.len() as int) =~= old_pending);
                }
                self.sessions.insert(k, Session { user: session.user, connected: session.connected, pending });
                proof {
                    assert forall|j: int| 0 <= j < v.sessions.len() && j != k implies #[trigger] self@.sessions[j] == v.sessions[j] by {
                        if j < k {
                        } else {
                        }
                    }
                }
            },
            None => {},
        }
        Ok(MatrixDelivery { event_id, server_ts: now_ms })
    }

    /// Takes the events waiting for `user`; nothing comes while the user is
    /// disconnected.
    pub fn take_pending(&mut self, user: &MatrixUserId) -> (r: Vec<InboundMatrixEvent>)
        ensures
            drained(old(self)@, final(self)@, user@, r@),
    {
        if !self.is_connected(user) {
            return Vec::new();
        }
        match session_position(&self.sessions, user) {
            Some(k) => {
                let session = self.sessions.remove(k);
                let taken = session.pending;
                self.sessions.insert(k, Session { user: session.user, connected: session.connected, pending: Vec::new() });
                proof {
                    assert forall|j: int| 0 <= j < old(self)@.sessions.len() && j != k implies #[trigger] self@.sessions[j] == old(self)@.sessions[j] by {
                        if j < k {
                        } else {
                        }
                    }
                }
                taken
            },
            None => Vec::new(),
        }
    }
}

/// Both users of a conversation agree on the room they talk in.
pub proof fn law_room_is_symmetric(a: Seq<char>, b: Seq<char>)
    ensures
        room_text(a, b) == room_text(b, a),
{
    if a != b {
        lemma_chars_lt_total(a, b);
        if chars_lt(a, b) && chars_lt(b, a) {
            lemma_chars_lt_transitive(a, b, a);
            lemma_chars_lt_irreflexive(a);
        }
    }
}

/// One user's connection to a homeserver, at a given time.
pub struct FakeMatrixTransport<'a> {
    pub server: &'a mut FakeHomeserver,
    pub user: MatrixUserId,
    pub now_ms: u64,
    /// What this connection sent, with the answers.
    pub log: Ghost<Seq<(MatrixSendRequest, Result<MatrixDelivery, TransportError>)>>,
}

impl<'a> FakeMatrixTransport<'a> {
    /// The homeserver as this connection sees it.
    pub open spec fn server_view(&self) -> HomeserverView {
        self.server@
    }

    pub fn user(&self) -> (u: &MatrixUserId)
        ensures
            *u == self.user,
    {
        &self.user
    }

    pub fn homeserver(&self) -> (hs: &FakeHomeserver)
        ensures
            hs@ == self.server_view(),
    {
        self.server
    }

    /// Connects or disconnects this user's data connection.
    pub fn set_connected(&mut self, connected: bool)
        ensures
            final(self).user == old(self).user,
            final(self).now_ms == old(self).now_ms,
            is_connected_in(final(self).server_view(), old(self).user@) == (connected && first_index(
                old(self).server_view().sessions,
                session_of(old(self).user@),
            ) is Some),
    {
        self.server.set_connected(&self.user, connected);
        proof {
            lemma_first_index_facts(old(self).server_view().sessions, session_of(self.user@));
            match first_index(old(self).server_view().sessions, session_of(self.user@)) {
                Some(k) => {
                    assert forall|j: int| 0 <= j < k implies !session_of(self.user@)(#[trigger] self.server@.sessions[j]) by {
                        assert(self.server@.sessions[j] == old(self).server_view().sessions[j]);
                    }
                    lemma_first_index_step(self.server@.sessions, session_of(self.user@), k);
                },
                None => {},
            }
        }
    }

    pub fn is_connected(&self) -> (b: bool)
        ensures
            b == is_connected_in(self.server_view(), self.user@),
    {
        self.server.is_connected(&self.user)
    }
}

impl<'a> MatrixTransport for FakeMatrixTransport<'a> {
    /// What waits for this user: the queue of a connected user, nothing
    /// for a disconnected one.
    open spec fn sent(&self) -> Seq<(MatrixSendRequest, Result<MatrixDelivery, TransportError>)> {
        self.log@
    }

    open spec fn waiting(&self) -> Seq<InboundMatrixEvent> {
        waiting_for(self.server_view(), self.user@)
    }

    open spec fn account(&self) -> Seq<char> {
        self.user@
    }

    open spec fn link_on(&self) -> bool {
        is_connected_in(self.server_view(), self.user@)
    }

    open spec fn link_of(&self, account: Seq<char>) -> bool {
        is_connected_in(self.server_view(), account)
    }

    open spec fn service_up(&self) -> bool {
        self.server_view().reachable
    }

    fn send(&mut self, request: MatrixSendRequest) -> (r: Result<MatrixDelivery, TransportError>)
        ensures
            final(self).user == old(self).user,
            final(self).now_ms == old(self).now_ms,
            post_outcome(
                old(self).server_view(),
                final(self).server_view(),
                old(self).user@,
                old(self).now_ms,
                request,
                r,
            ),
    {
        let ghost asked = request;
        let r = self.server.post(&self.user, self.now_ms, request);
        self.log = Ghost(self.log@.push((asked, r)));
        proof {
            lemma_post_keeps_links(old(self).server_view(), self.server_view(), self.user@, self.now_ms, asked, r);
            lemma_links_kept(old(self).server_view(), self.server_view(), self.user@);
            assert forall|a: Seq<char>| is_connected_in(self.server_view(), a) == is_connected_in(old(self).server_view(), a) by {
                lemma_links_kept(old(self).server_view(), self.server_view(), a);
            }
        }
        r
    }

    fn drain_inbound(&mut self) -> (r: Vec<InboundMatrixEvent>)
        ensures
            final(self).user == old(self).user,
            final(self).now_ms == old(self).now_ms,
            drained(old(self).server_view(), final(self).server_view(), old(self).user@, r@),
    {
        let r = self.server.take_pending(&self.user);
        proof {
            lemma_drain_keeps_links(old(self).server_view(), self.server_view(), self.user@, r@);
            lemma_links_kept(old(self).server_view(), self.server_view(), self.user@);
            assert forall|a: Seq<char>| is_connected_in(self.server_view(), a) == is_connected_in(old(self).server_view(), a) by {
                lemma_links_kept(old(self).server_view(), self.server_view(), a);
            }
            let v = old(self).server_view();
            let v2 = self.server_view();
            lemma_first_index_facts(v.sessions, session_of(self.user@));
            if is_connected_in(v, self.user@) {
                let k = first_index(v.sessions, session_of(self.user@)).unwrap();
                assert forall|j: int| 0 <= j < v.sessions.len() implies session_of(self.user@)(
                    #[trigger] v.sessions[j],
                ) == session_of(self.user@)(v2.sessions[j]) by {
                    if j != k {
                        assert(v2.sessions[j] == v.sessions[j]);
                    }
                }
                crate::seqs::lemma_first_index_same(v.sessions, v2.sessions, session_of(self.user@));
            }
        }
        r
    }

    fn is_reachable(&self) -> (b: bool)
        ensures
            b == (is_connected_in(self.server_view(), self.user@) && self.server_view().reachable),
    {
        self.server.is_connected(&self.user) && self.server.is_reachable()
    }
}

/// One user's connection to a homeserver it holds while it is in use, at a
/// given time.
pub struct FakeMatrixLink {
    pub server: FakeHomeserver,
    pub user: MatrixUserId,
    pub now_ms: u64,
    /// What this connection sent, with the answers.
    pub log: Ghost<Seq<(MatrixSendRequest, Result<MatrixDelivery, TransportError>)>>,
}

impl FakeMatrixLink {
    /// Takes the homeserver `server` to connect `user` at time `now_ms`, as
    /// the user's connection stands; a user seen for the first time gets a
    /// session, connected and with nothing waiting.
    pub fn open(server: FakeHomeserver, user: &str, now_ms: u64) -> (l: FakeMatrixLink)
        ensures
            l.user@ == user@,
            l.now_ms == now_ms,
            l.log@.len() == 0,
            l.server@.reachable == server@.reachable,
            waiting_for(l.server@, user@) == waiting_for(server@, user@),
            first_index(server@.sessions, session_of(user@)) is Some ==> l.server@.sessions == server@.sessions,
            forall|a: Seq<char>| a != user@ ==> #[trigger] is_connected_in(l.server@, a) == is_connected_in(server@, a),
    {
        let mut server = server;
        let ghost before = server@;
        {
            let _t = server.connection(user, now_ms);
        }
        proof {
            lemma_others_connected_kept(before, server@, user@);
        }
        FakeMatrixLink { server, user: MatrixUserId::new(user), now_ms, log: Ghost(Seq::empty()) }
    }

    /// Gives the homeserver back.
    pub fn close(self) -> (server: FakeHomeserver)
        ensures
            server@ == self.server@,
    {
        self.server
    }
}

impl MatrixTransport for FakeMatrixLink {
    open spec fn sent(&self) -> Seq<(MatrixSendRequest, Result<MatrixDelivery, TransportError>)> {
        self.log@
    }

    open spec fn waiting(&self) -> Seq<InboundMatrixEvent> {
        waiting_for(self.server@, self.user@)
    }

    open spec fn account(&self) -> Seq<char> {
        self.user@
    }

    open spec fn link_on(&self) -> bool {
        is_connected_in(self.server@, self.user@)
    }

    open spec fn link_of(&self, account: Seq<char>) -> bool {
        is_connected_in(self.server@, account)
    }

    open spec fn service_up(&self) -> bool {
        self.server@.reachable
    }

    fn send(&mut self, request: MatrixSendRequest) -> (r: Result<MatrixDelivery, TransportError>) {
        let ghost asked = request;
        let r = self.server.post(&self.user, self.now_ms, request);
        self.log = Ghost(self.log@.push((asked, r)));
        proof {
            lemma_post_keeps_links(old(self).server@, self.server@, self.user@, self.now_ms, asked, r);
            lemma_links_kept(old(self).server@, self.server@, self.user@);
            assert forall|a: Seq<char>| is_connected_in(self.server@, a) == is_connected_in(old(self).server@, a) by {
                lemma_links_kept(old(self).server@, self.server@, a);
            }
        }
        r
    }

    fn drain_inbound(&mut self) -> (r: Vec<InboundMatrixEvent>) {
        let r = self.server.take_pending(&self.user);
        proof {
            let v = old(self).server@;
            let v2 = self.server@;
            lemma_drain_keeps_links(v, v2, self.user@, r@);
            lemma_links_kept(v, v2, self.user@);
            assert forall|a: Seq<char>| is_connected_in(v2, a) == is_connected_in(v, a) by {
                lemma_links_kept(v, v2, a);
            }
            lemma_first_index_facts(v.sessions, session_of(self.user@));
            if is_connected_in(v, self.user@) {
                let k = first_index(v.sessions, session_of(self.user@)).unwrap();
                assert forall|j: int| 0 <= j < v.sessions.len() implies session_of(self.user@)(
                    #[trigger] v.sessions[j],
                ) == session_of(self.user@)(v2.sessions[j]) by {
                    if j != k {
                        assert(v2.sessions[j] == v.sessions[j]);
                    }
                }
                crate::seqs::lemma_first_index_same(v.sessions, v2.sessions, session_of(self.user@));
            }
        }
        r
    }

    fn is_reachable(&self) -> (b: bool) {
        self.server.is_connected(&self.user) && self.server.is_reachable()
    }
}

/// Resending a message under the same transaction id creates no second
/// event: the homeserver answers with the event the first send created and
/// is left as it was.
pub proof fn law_retry_is_idempotent(
    v: HomeserverView,
    v2: HomeserverView,
    v3: HomeserverView,
    sender: Seq<char>,
    first_ms: u64,
    second_ms: u64,
    request: MatrixSendRequest,
    retry: MatrixSendRequest,
    r1: Result<MatrixDelivery, TransportError>,
    r2: Result<MatrixDelivery, TransportError>,
)
    requires
        post_outcome(v, v2, sender, first_ms, request, r1),
        r1 is Ok,
        retry.txn_id@ == request.txn_id@,
        is_connected_in(v2, sender),
        v2.reachable,
        post_outcome(v2, v3, sender, second_ms, retry, r2),
    ensures
        r2 matches Ok(d2) && r1 matches Ok(d1) && d2.event_id@ == d1.event_id@,
        v3 == v2,
{
    if first_of(v.transactions, txn_named(request.txn_id@)) is None && is_connected_in(v, sender)
        && v.reachable {
        lemma_first_index_facts(v.transactions, txn_named(request.txn_id@));
        let n = v.transactions.len() as int;
        assert forall|j: int| 0 <= j < n implies !txn_named(request.txn_id@)(#[trigger] v2.transactions[j]) by {
            assert(v2.transactions[j] == v2.transactions.take(n)[j]);
        }
        assert(txn_named(request.txn_id@)(v2.transactions[n]));
        lemma_first_index_step(v2.transactions, txn_named(request.txn_id@), n);
    }
}

} // verus!
