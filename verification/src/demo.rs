//! The demonstration world: Alice and Bob, each with a client, sharing one
//! homeserver and one carrier, and the actions the demonstration screen
//! offers on them.

use vstd::prelude::*;
use crate::activity::{spec_summary, ActivityEntry};
use crate::client::{Client, ClientParts};
use crate::clock::{Clock, SystemClock};
use crate::connectivity::MemoryConnectivity;
use crate::directory::{Contact, MemoryDirectory};
use crate::id::MessageId;
use crate::ids::EntropyIdGen;
use crate::matrix_fake::{is_connected_in, session_of, waiting_for, FakeHomeserver, FakeMatrixLink, HomeserverView};
use crate::sms_fake::{has_service, inbox_of, NetworkView};
use crate::ingest::received_in_turn;
use crate::send::same_messages;
use crate::client::reset_backoff;
use crate::outbox::NetStatus;
use crate::peer::{ConversationId, MatrixUserId, PeerId, PhoneNumber};
use crate::sms_fake::{device_of, lists_rows, FakeSmsNetwork, StoredSms};
use crate::seqs::first_of;
use crate::store::MemoryStore;
use crate::view::{shows, MessageView};
use crate::message::Message;
use crate::store::is_thread;
use crate::ingest::{ids_kept, kept_or_received};
use crate::feed::{feed_lines, list_feed, merge_feed, newest_lines_first};
pub use crate::feed::FeedLine;
use crate::sms_frame::TRAILER_CHARS;
use crate::text::{trim_white_space, trimmed};
use crate::send::{carried_retired, composed_entry, composed_message, has_written, pump_room};
use crate::outbox::{OutboxEntry, TransportState};
use crate::seqs::{first_index, lemma_first_index_facts, lemma_first_index_none, lemma_first_index_step, replace_or_push};
use crate::store::{tags_resolve, entry_with_id, law_upsert_then_get, spec_upsert, with_id, StoreView};
use crate::message::Direction;
use crate::directory::by_peer;
use crate::error::TransportError;
use crate::id::ShortTag;
use crate::sms_frame::spec_encode;
use crate::store::spec_find_by_tag;
use crate::send::{extends, handed_over};
use crate::transport::{MatrixSendRequest, MatrixTransport, SmsTransport};
use crate::message::MatrixDelivery;
use crate::peer::SmsRowId;

verus! {

pub const ALICE_PHONE: &'static str = "+33600000001";

pub const BOB_PHONE: &'static str = "+33600000002";

/// One of the two devices of the demonstration.
#[derive(Debug, Clone, Copy, PartialEq, Eq, Structural)]
pub enum Side {
    Alice,
    Bob,
}

/// A device of the demonstration: a client, and who it is on Matrix and on
/// the carrier.
pub struct DemoDevice {
    pub name: String,
    pub me: PeerId,
    pub client: Client<MemoryStore, MemoryConnectivity, EntropyIdGen, MemoryDirectory>,
    pub matrix_user: MatrixUserId,
    pub phone: PhoneNumber,
}

impl DemoDevice {
    /// The thread with `peer` as the screen shows it.
    pub fn messages(&self, peer: &PeerId) -> (v: Vec<MessageView>)
        requires
            self.client.wf(),
        ensures
            exists|t: Seq<Message>|
                #![trigger is_thread(self.client.stored().messages, peer@, t)]
                is_thread(self.client.stored().messages, peer@, t) && v@.len() == t.len() && forall|
                    k: int,
                | 0 <= k < t.len() ==> shows(#[trigger] v@[k], t[k]),
    {
        self.client.thread(&ConversationId::with_peer(peer))
    }

    /// Switches the device's data on or off: its connection on the
    /// homeserver, and what its client believes.
    pub fn set_online(&mut self, homeserver: &mut FakeHomeserver, online: bool)
        requires
            old(self).client.wf(),
        ensures
            switched(*old(self), *final(self), online),
            first_index(old(homeserver)@.sessions, session_of(old(self).matrix_user@)) is Some
                ==> is_connected_in(final(homeserver)@, old(self).matrix_user@) == online,
            first_index(final(homeserver)@.sessions, session_of(old(self).matrix_user@)) == first_index(
                old(homeserver)@.sessions,
                session_of(old(self).matrix_user@),
            ),
            final(homeserver)@.timeline == old(homeserver)@.timeline,
            final(homeserver)@.reachable == old(homeserver)@.reachable,
    {
        homeserver.set_connected(&self.matrix_user, online);
        proof {
            let user = self.matrix_user@;
            lemma_first_index_facts(old(homeserver)@.sessions, session_of(user));
            match first_index(old(homeserver)@.sessions, session_of(user)) {
                Some(k) => {
                    assert forall|j: int| 0 <= j < k implies !session_of(user)(#[trigger] homeserver@.sessions[j]) by {
                        assert(homeserver@.sessions[j] == old(homeserver)@.sessions[j]);
                    }
                    lemma_first_index_step(homeserver@.sessions, session_of(user), k);
                },
                None => {
                    assert(homeserver@.sessions == old(homeserver)@.sessions);
                },
            }
        }
        let status = if online {
            NetStatus::Online
        } else {
            NetStatus::Offline
        };
        self.client.set_connectivity(status);
    }

    /// What this phone's SMS app lists, older first, then by row id.
    pub fn sms_storage(&self, carrier: &FakeSmsNetwork) -> (v: Vec<StoredSms>)
        ensures
            match first_of(carrier@.devices, device_of(self.phone@)) {
                Some(h) => lists_rows(h.storage@, v@),
                None => v@.len() == 0,
            },
    {
        carrier.stored_rows(&self.phone)
    }

    /// Whether the device believes it has data.
    pub fn is_online(&self) -> (b: bool)
        ensures
            b == (self.client.status() != NetStatus::Offline),
    {
        self.client.connectivity() != NetStatus::Offline
    }
}

/// A contact as the demonstration lists it.
#[derive(Debug, PartialEq, Eq)]
pub struct DemoContact {
    pub peer: PeerId,
    pub display_name: String,
    pub phone: String,
}

/// Alice and Bob, their homeserver and their carrier.
pub struct DemoWorld {
    pub homeserver: FakeHomeserver,
    pub carrier: FakeSmsNetwork,
    pub clock: SystemClock,
    pub alice: DemoDevice,
    pub bob: DemoDevice,
    /// Every request the devices handed to Matrix, with its answer, in turn.
    pub matrix_sent: Ghost<Seq<(MatrixSendRequest, Result<MatrixDelivery, TransportError>)>>,
    /// Every SMS the devices handed to the carrier, with its answer, in turn.
    pub sms_sent: Ghost<Seq<(PhoneNumber, Seq<char>, Result<SmsRowId, TransportError>)>>,
}

/// The contacts both devices know.
fn demo_contacts() -> (v: Vec<Contact>)
    ensures
        v@.len() == 2,
        v@[0].peer@ == "alice"@,
        v@[0].display_name@ == "Alice"@,
        v@[0].matrix_id@ == "@alice:matrix.org"@,
        v@[0].phone@ == crate::peer::normalise_phone(ALICE_PHONE@),
        v@[1].peer@ == "bob"@,
        v@[1].display_name@ == "Bob"@,
        v@[1].matrix_id@ == "@bob:matrix.org"@,
        v@[1].phone@ == crate::peer::normalise_phone(BOB_PHONE@),
{
    let mut v: Vec<Contact> = Vec::new();
    v.push(Contact::new("alice", "Alice", "@alice:matrix.org", ALICE_PHONE));
    v.push(Contact::new("bob", "Bob", "@bob:matrix.org", BOB_PHONE));
    v
}

/// A device that is `me`, shown as `name`, on Matrix as `matrix_id` and on
/// the carrier as `phone`, attached to both networks.
fn build(
    me: &str,
    name: &str,
    matrix_id: &str,
    phone: &str,
    homeserver: &mut FakeHomeserver,
    carrier: &mut FakeSmsNetwork,
    now_ms: u64,
) -> (d: DemoDevice)
    ensures
        d.client.wf(),
        d.me@ == me@,
        d.name@ == name@,
        d.matrix_user@ == matrix_id@,
        d.phone@ == crate::peer::normalise_phone(phone@),
        d.client.user()@ == me@,
        starts_fresh(d),
        is_connected_in(final(homeserver)@, matrix_id@),
        final(homeserver)@.reachable == old(homeserver)@.reachable,
        final(homeserver)@.timeline == old(homeserver)@.timeline,
        first_index(old(homeserver)@.sessions, session_of(matrix_id@)) is None ==> {
            &&& final(homeserver)@.sessions.len() == old(homeserver)@.sessions.len() + 1
            &&& final(homeserver)@.sessions.take(old(homeserver)@.sessions.len() as int)
                == old(homeserver)@.sessions
        },
        has_service(final(carrier)@, crate::peer::normalise_phone(phone@)),
        first_index(old(carrier)@.devices, device_of(crate::peer::normalise_phone(phone@))) is None ==> {
            &&& final(carrier)@.devices.len() == old(carrier)@.devices.len() + 1
            &&& final(carrier)@.devices.take(old(carrier)@.devices.len() as int) == old(carrier)@.devices
        },
{
    let link = homeserver.client(matrix_id, now_ms);
    proof {
        assert(is_connected_in(link.server_view(), matrix_id@));
    }
    let handset = carrier.handset(phone, now_ms);
    proof {
        assert(has_service(handset.network_view(), crate::peer::normalise_phone(phone@)));
    }
    let store = MemoryStore::new();
    let client = Client::new(
        ClientParts {
            me: PeerId::new(me),
            store,
            net: MemoryConnectivity::new(NetStatus::Online),
            ids: EntropyIdGen::new(now_ms),
            directory: MemoryDirectory::new(demo_contacts()),
        },
    );
    DemoDevice {
        name: name.to_owned(),
        me: PeerId::new(me),
        client,
        matrix_user: MatrixUserId::new(matrix_id),
        phone: PhoneNumber::new(phone),
    }
}

/// A device as it starts: online, with nothing stored, queued or logged.
pub open spec fn starts_fresh(d: DemoDevice) -> bool {
    &&& d.client.status() == NetStatus::Online
    &&& d.client.stored().messages.len() == 0
    &&& d.client.stored().index.len() == 0
    &&& d.client.stored().outbox.len() == 0
    &&& d.client.logged().len() == 0
    &&& tags_resolve(d.client.stored())
}

/// Receives and pumps on one device. A device whose outbox has used up its
/// Matrix attempts only receives.
fn sync_device(
    device: &mut DemoDevice,
    homeserver: &mut FakeHomeserver,
    carrier: &mut FakeSmsNetwork,
    now_ms: u64,
) -> (r: (Ghost<Seq<(MatrixSendRequest, Result<MatrixDelivery, TransportError>)>>, Ghost<Seq<(PhoneNumber, Seq<char>, Result<SmsRowId, TransportError>)>>))
    requires
        old(device).client.wf(),
    ensures
        synced(*old(device), *final(device)),
        received(*old(device), *final(device), old(homeserver)@, old(carrier)@),
        !pump_room(old(device).client.stored().outbox) ==> final(device).client.stored().outbox
            == old(device).client.stored().outbox,
        final(homeserver)@.reachable == old(homeserver)@.reachable,
        first_index(old(homeserver)@.sessions, session_of(old(device).matrix_user@)) is Some
            ==> is_connected_in(final(homeserver)@, old(device).matrix_user@) == is_connected_in(
            old(homeserver)@,
            old(device).matrix_user@,
        ),
        forall|a: Seq<char>| a != old(device).matrix_user@ ==> #[trigger] is_connected_in(final(homeserver)@, a)
            == is_connected_in(old(homeserver)@, a),
        old(device).client.status() == NetStatus::Offline ==> final(device).client.status() == NetStatus::Offline,
        old(device).client.status() == NetStatus::Online && is_connected_in(old(homeserver)@, old(device).matrix_user@)
            && old(homeserver)@.reachable ==> final(device).client.status() == NetStatus::Online,
{
    let mut held = FakeHomeserver::new();
    std::mem::swap(homeserver, &mut held);
    let mut matrix = FakeMatrixLink::open(held, device.matrix_user.as_str(), now_ms);
    let ghost user = device.matrix_user@;
    proof {
        lemma_first_index_facts(old(homeserver)@.sessions, session_of(user));
    }
    let mut sms = carrier.line(device.phone.as_str(), now_ms);
    let ghost opened = matrix;
    if device.client.pumpable() {
        device.client.sync(&mut matrix, &mut sms, now_ms);
    } else {
        device.client.ingest(&mut matrix, &mut sms, now_ms);
        proof {
            let m = device.client.stored().messages;
            assert(same_messages(m, m));
        }
    }
    proof {
        assert forall|a: Seq<char>| a != user implies #[trigger] is_connected_in(matrix.server@, a)
            == is_connected_in(old(homeserver)@, a) by {
            assert(matrix.link_of(a) == opened.link_of(a));
        }
    }
    let handed = (Ghost(matrix.sent()), Ghost(sms.sent()));
    *homeserver = matrix.close();
    handed
}

/// Sends `body` from one device to `peer`. A device whose outbox has used
/// up its Matrix attempts only queues the message. Along with the new id
/// come what was handed to Matrix and to the carrier, with the answers.
fn send_device(
    device: &mut DemoDevice,
    homeserver: &mut FakeHomeserver,
    carrier: &mut FakeSmsNetwork,
    now_ms: u64,
    peer: &PeerId,
    body: &str,
) -> (r: (MessageId, Ghost<Seq<(MatrixSendRequest, Result<MatrixDelivery, TransportError>)>>, Ghost<Seq<(PhoneNumber, Seq<char>, Result<SmsRowId, TransportError>)>>))
    requires
        old(device).client.wf(),
    ensures
        final(device).client.wf(),
        final(device).me == old(device).me,
        final(device).name == old(device).name,
        final(device).matrix_user == old(device).matrix_user,
        final(device).phone == old(device).phone,
        final(device).client.user() == old(device).client.user(),
        final(device).client.known_contacts() == old(device).client.known_contacts(),
        has_written(final(device).client.stored().messages, r.0, old(device).client.user(), peer@, body@),
        ids_kept(old(device).client.stored().messages, final(device).client.stored().messages),
        tags_resolve(old(device).client.stored()) && spec_find_by_tag(old(device).client.stored(), peer@, tag_of(r.0))
            is None ==> tags_resolve(final(device).client.stored()),
        pump_room(old(device).client.stored().outbox) && first_of(
            old(device).client.known_contacts(),
            by_peer(peer@),
        ) is Some ==> handed_over(
            r.0,
            spec_encode(body@, tag_of(r.0)),
            Seq::empty(),
            r.1@,
            Seq::empty(),
            r.2@,
        ),
        !pump_room(old(device).client.stored().outbox) ==> r.1@.len() == 0 && r.2@.len() == 0,
{
    let mut matrix = homeserver.connection(device.matrix_user.as_str(), now_ms);
    let mut sms = carrier.line(device.phone.as_str(), now_ms);
    let ghost before = device.client.stored();
    if device.client.pumpable() {
        let id = device.client.send(&mut matrix, &mut sms, now_ms, peer, body);
        proof {
            let k = choose|k: int|
                0 <= k < device.client.stored().messages.len() && #[trigger] device.client.stored().messages[k].id == id
                    && device.client.stored().messages[k].body@ == body@
                    && device.client.stored().messages[k].origin_ts == now_ms
                    && device.client.stored().messages[k].conversation@ == peer@
                    && device.client.stored().messages[k].direction == Direction::Outgoing
                    && device.client.stored().messages[k].author == old(device).client.user();
            assert(device.client.stored().messages[k].id == id);
        }
        (id, Ghost(matrix.sent()), Ghost(sms.sent()))
    } else {
        let id = device.client.compose(now_ms, peer, body);
        proof {
            let (m, e) = choose|m: Message, e: OutboxEntry|
                composed_message(id, old(device).client.user(), peer@, body@, now_ms, m)
                    && composed_entry(id, peer@, body@, now_ms, e) && device.client.stored() == (StoreView {
                    outbox: replace_or_push(before.outbox, entry_with_id(id), e),
                    ..spec_upsert(before, m)
                });
            law_upsert_then_get(before, m);
            crate::ingest::law_upsert_keeps_every_id(before, m);
            lemma_first_index_facts(device.client.stored().messages, with_id(id));
            let k = first_index(device.client.stored().messages, with_id(id)).unwrap();
            assert(device.client.stored().messages[k].id == id);
        }
        (id, Ghost(Seq::empty()), Ghost(Seq::empty()))
    }
}

/// The short tag of the message `id`.
pub open spec fn tag_of(id: MessageId) -> ShortTag {
    ShortTag((id.0 as int % crate::id::tag_span()) as u64)
}

/// `after` queues the messages of `before`, in the same order and with the
/// same Matrix progress: at most their backoff differs.
pub open spec fn same_queue(before: Seq<OutboxEntry>, after: Seq<OutboxEntry>) -> bool {
    &&& after.len() == before.len()
    &&& forall|i: int|
        0 <= i < before.len() ==> (#[trigger] after[i]).id == before[i].id && after[i].matrix
            == before[i].matrix && after[i].matrix_attempts == before[i].matrix_attempts
}

/// A device whose connection changed and nothing else: the same messages,
/// and the same queue but for the backoff.
pub open spec fn requeued(before: DemoDevice, after: DemoDevice) -> bool {
    &&& after.client.wf()
    &&& after.me == before.me
    &&& after.name == before.name
    &&& after.matrix_user == before.matrix_user
    &&& after.phone == before.phone
    &&& after.client.user() == before.client.user()
    &&& after.client.stored().messages == before.client.stored().messages
    &&& after.client.stored().index == before.client.stored().index
    &&& same_queue(before.client.stored().outbox, after.client.stored().outbox)
}

/// What syncing did to a device: every message stays under its id; with
/// room to pump, the entries Matrix had carried have left the outbox;
/// without it, nothing was sent and the queue is as it was.
pub open spec fn synced(before: DemoDevice, after: DemoDevice) -> bool {
    &&& after.client.wf()
    &&& after.me == before.me
    &&& after.name == before.name
    &&& after.matrix_user == before.matrix_user
    &&& after.phone == before.phone
    &&& after.client.user() == before.client.user()
    &&& ids_kept(before.client.stored().messages, after.client.stored().messages)
    &&& tags_resolve(before.client.stored()) ==> tags_resolve(after.client.stored())
    &&& kept_or_received(before.client.stored().messages, after.client.stored().messages)
    &&& pump_room(before.client.stored().outbox) ==> carried_retired(
        before.client.stored().outbox,
        after.client.stored().outbox,
    )
    &&& !pump_room(before.client.stored().outbox) ==> same_queue(
        before.client.stored().outbox,
        after.client.stored().outbox,
    )
}

/// `messages` hold a message under `id`.
pub open spec fn holds_id(messages: Seq<Message>, id: MessageId) -> bool {
    exists|k: int| 0 <= k < messages.len() && #[trigger] messages[k].id == id
}

/// `after` is `before` with its data switched on (`online`) or off: the
/// client believes so, and coming back online clears the backoff of every
/// queued entry, so Matrix is tried at once.
pub open spec fn switched(before: DemoDevice, after: DemoDevice, online: bool) -> bool {
    &&& requeued(before, after)
    &&& after.client.status() == if online {
        NetStatus::Online
    } else {
        NetStatus::Offline
    }
    &&& after.client.stored().outbox == if before.client.status() == NetStatus::Offline && online {
        before.client.stored().outbox.map_values(|e: OutboxEntry| reset_backoff(e))
    } else {
        before.client.stored().outbox
    }
}

/// What syncing received on a device: its store went through each Matrix
/// event waiting for it on the homeserver `hs`, then each SMS in its phone's
/// inbox on the carrier `net`; the pump that followed changed at most
/// deliveries and states.
pub open spec fn received(before: DemoDevice, after: DemoDevice, hs: HomeserverView, net: NetworkView) -> bool {
    exists|stores: Seq<StoreView>|
        received_in_turn(
            stores,
            waiting_for(hs, before.matrix_user@),
            inbox_of(net, crate::peer::normalise_phone(before.phone@)),
            before.client.known_contacts(),
            before.client.user()@,
        ) && stores[0] == before.client.stored() && same_messages(
            #[trigger] stores.last().messages,
            after.client.stored().messages,
        )
}

/// In `after`, the data link of `user` is `on`, for a user the homeserver
/// `before` knew.
pub open spec fn link_set(before: HomeserverView, after: HomeserverView, user: Seq<char>, on: bool) -> bool {
    first_index(before.sessions, session_of(user)) is Some ==> is_connected_in(after, user) == on
}

/// What a device believes once the homeserver `hs` went up (`up`) or down:
/// down, it is offline; up, a device whose link is on is online, another
/// believes what it did.
pub open spec fn status_on_server_change(hs: HomeserverView, d: DemoDevice, up: bool) -> NetStatus {
    if !up {
        NetStatus::Offline
    } else if is_connected_in(hs, d.matrix_user@) {
        NetStatus::Online
    } else {
        d.client.status()
    }
}

/// The device on `side` of the world `w`.
pub open spec fn device_at(w: DemoWorld, side: Side) -> DemoDevice {
    match side {
        Side::Alice => w.alice,
        Side::Bob => w.bob,
    }
}

/// The data link of `user` on the homeserver is in `after` as it was in
/// `before`, for a user the homeserver knew.
pub open spec fn link_kept(before: HomeserverView, after: HomeserverView, user: Seq<char>) -> bool {
    first_index(before.sessions, session_of(user)) is Some ==> is_connected_in(after, user)
        == is_connected_in(before, user)
}

/// A copy that arrived, written by the peer of its own conversation, is
/// stored under `id`.
pub open spec fn holds_received_under(messages: Seq<Message>, id: MessageId) -> bool {
    exists|k: int|
        0 <= k < messages.len() && #[trigger] messages[k].id == id && messages[k].author@
            == messages[k].conversation@
}

/// `messages` hold message `id` as `me` wrote it to `peer` with `body`,
/// unless a copy that arrived later was stored under the same id.
pub open spec fn written_or_replaced(
    messages: Seq<Message>,
    id: MessageId,
    me: PeerId,
    peer: Seq<char>,
    body: Seq<char>,
) -> bool {
    has_written(messages, id, me, peer, body) || holds_received_under(messages, id)
}

/// The side across from `side`.
pub open spec fn other_of(side: Side) -> Side {
    match side {
        Side::Alice => Side::Bob,
        Side::Bob => Side::Alice,
    }
}

/// What sending `body` from `side` did, from the world `before` to the
/// world `after`: the sender holds the message under `id`, as it wrote it
/// unless a copy that arrived later took the id; every message it held
/// stays under its id; its tags still resolve when the new tag was free in
/// the conversation; and, with room to pump and the peer among its
/// contacts, the message was handed to Matrix or, as an SMS with its tag,
/// to the carrier.
pub open spec fn sent_by(before: DemoWorld, after: DemoWorld, side: Side, id: MessageId, body: Seq<char>) -> bool {
    let d0 = device_at(before, side);
    let d1 = device_at(after, side);
    let peer = device_at(before, other_of(side)).me@;
    &&& holds_id(d1.client.stored().messages, id)
    &&& written_or_replaced(d1.client.stored().messages, id, d0.client.user(), peer, body)
    &&& ids_kept(d0.client.stored().messages, d1.client.stored().messages)
    &&& tags_resolve(d0.client.stored()) && spec_find_by_tag(d0.client.stored(), peer, tag_of(id)) is None
        ==> tags_resolve(d1.client.stored())
    &&& pump_room(d0.client.stored().outbox) && first_of(d0.client.known_contacts(), by_peer(peer)) is Some
        ==> handed_over(id, spec_encode(body, tag_of(id)), before.matrix_sent@, after.matrix_sent@, before.sms_sent@, after.sms_sent@)
}

/// The peer of `side` synced if `auto_sync_peer`, and was left alone
/// otherwise.
pub open spec fn peer_followed(before: DemoWorld, after: DemoWorld, side: Side, auto_sync_peer: bool) -> bool {
    &&& auto_sync_peer ==> synced(device_at(before, other_of(side)), device_at(after, other_of(side)))
    &&& !auto_sync_peer ==> device_at(after, other_of(side)) == device_at(before, other_of(side))
}

/// Requests handed over on their own stay handed over once appended to
/// what went before.
proof fn lemma_handed_over_appended<A, B>(
    id: MessageId,
    text: Seq<char>,
    mb: Seq<(MatrixSendRequest, A)>,
    ml: Seq<(MatrixSendRequest, A)>,
    sb: Seq<(PhoneNumber, Seq<char>, B)>,
    sl: Seq<(PhoneNumber, Seq<char>, B)>,
)
    ensures
        (exists|j: int| 0 <= j < ml.len() && #[trigger] ml[j].0.message_id == id) ==> exists|j: int|
            mb.len() <= j < (mb + ml).len() && #[trigger] (mb + ml)[j].0.message_id == id,
        (exists|j: int| 0 <= j < sl.len() && #[trigger] sl[j].1 == text) ==> exists|j: int|
            sb.len() <= j < (sb + sl).len() && #[trigger] (sb + sl)[j].1 == text,
{
    if exists|j: int| 0 <= j < ml.len() && #[trigger] ml[j].0.message_id == id {
        let j = choose|j: int| 0 <= j < ml.len() && #[trigger] ml[j].0.message_id == id;
        assert((mb + ml)[mb.len() + j] == ml[j]);
    }
    if exists|j: int| 0 <= j < sl.len() && #[trigger] sl[j].1 == text {
        let j = choose|j: int| 0 <= j < sl.len() && #[trigger] sl[j].1 == text;
        assert((sb + sl)[sb.len() + j] == sl[j]);
    }
}

/// A log that grew twice grew once.
proof fn lemma_extends_chain<A>(a: Seq<A>, b: Seq<A>, c: Seq<A>)
    requires
        extends(a, b),
        extends(b, c),
    ensures
        extends(a, c),
{
    assert forall|i: int| 0 <= i < a.len() implies #[trigger] c.take(a.len() as int)[i] == a[i] by {
        assert(c.take(b.len() as int)[i] == c[i]);
        assert(b.take(a.len() as int)[i] == b[i]);
    }
    assert(c.take(a.len() as int) =~= a);
}

/// What was handed over stays so while the logs only grow.
proof fn lemma_handed_over_extended(
    id: MessageId,
    text: Seq<char>,
    m0: Seq<(MatrixSendRequest, Result<MatrixDelivery, TransportError>)>,
    m1: Seq<(MatrixSendRequest, Result<MatrixDelivery, TransportError>)>,
    m2: Seq<(MatrixSendRequest, Result<MatrixDelivery, TransportError>)>,
    s0: Seq<(PhoneNumber, Seq<char>, Result<SmsRowId, TransportError>)>,
    s1: Seq<(PhoneNumber, Seq<char>, Result<SmsRowId, TransportError>)>,
    s2: Seq<(PhoneNumber, Seq<char>, Result<SmsRowId, TransportError>)>,
)
    requires
        handed_over(id, text, m0, m1, s0, s1) ==> m0.len() <= m1.len() && s0.len() <= s1.len(),
        extends(m1, m2),
        extends(s1, s2),
    ensures
        handed_over(id, text, m0, m1, s0, s1) ==> handed_over(id, text, m0, m2, s0, s2),
{
    if exists|j: int| m0.len() <= j < m1.len() && #[trigger] m1[j].0.message_id == id {
        let j = choose|j: int| m0.len() <= j < m1.len() && #[trigger] m1[j].0.message_id == id;
        assert(m2.take(m1.len() as int)[j] == m2[j]);
        assert(m2[j] == m1[j]);
    }
    if exists|j: int| s0.len() <= j < s1.len() && #[trigger] s1[j].1 == text {
        let j = choose|j: int| s0.len() <= j < s1.len() && #[trigger] s1[j].1 == text;
        assert(s2.take(s1.len() as int)[j] == s2[j]);
        assert(s2[j] == s1[j]);
    }
}

/// Tags resolve on both devices of `w`, so neither shows a message twice.
pub open spec fn tags_resolve_on_both(w: DemoWorld) -> bool {
    tags_resolve(w.alice.client.stored()) && tags_resolve(w.bob.client.stored())
}

/// A device whose connection changed resolves tags as it did.
proof fn lemma_requeued_resolves_alike(d0: DemoDevice, d1: DemoDevice)
    requires
        requeued(d0, d1),
    ensures
        tags_resolve(d0.client.stored()) == tags_resolve(d1.client.stored()),
{
    let v0 = d0.client.stored();
    let v1 = d1.client.stored();
    assert forall|c: Seq<char>, t: ShortTag| #[trigger] spec_find_by_tag(v1, c, t) == spec_find_by_tag(v0, c, t) by {}
}

/// On a device whose tags resolve, one conversation never shows a message
/// twice: two of its messages that carry the same tag are one.
pub proof fn law_device_shows_each_tag_once(d: DemoDevice, i: int, j: int)
    requires
        d.client.wf(),
        tags_resolve(d.client.stored()),
        0 <= i < d.client.stored().messages.len(),
        0 <= j < d.client.stored().messages.len(),
        d.client.stored().messages[i].conversation@ == d.client.stored().messages[j].conversation@,
        d.client.stored().messages[i].tag == d.client.stored().messages[j].tag,
    ensures
        i == j,
{
    crate::store::law_one_message_per_tag(d.client.stored(), i, j);
}

/// A sync after a change of connection is a sync from before the change.
proof fn lemma_requeued_then_synced(d0: DemoDevice, d1: DemoDevice, d2: DemoDevice)
    requires
        requeued(d0, d1),
        synced(d1, d2),
    ensures
        synced(d0, d2),
{
    let q0 = d0.client.stored().outbox;
    let q1 = d1.client.stored().outbox;
    let q2 = d2.client.stored().outbox;
    assert(pump_room(q0) == pump_room(q1)) by {
        if pump_room(q0) {
            assert forall|i: int| 0 <= i < q1.len() implies #[trigger] q1[i].matrix_attempts
                <= u32::MAX - crate::send::MAX_STEPS_PER_ENTRY by {
                assert(q1[i].matrix_attempts == q0[i].matrix_attempts);
            }
        }
        if pump_room(q1) {
            assert forall|i: int| 0 <= i < q0.len() implies #[trigger] q0[i].matrix_attempts
                <= u32::MAX - crate::send::MAX_STEPS_PER_ENTRY by {
                assert(q1[i].matrix_attempts == q0[i].matrix_attempts);
            }
        }
    }
    if pump_room(q0) {
        assert forall|a: int, b: int|
            0 <= a < q0.len() && q0[a].matrix == TransportState::Done && 0 <= b < q2.len()
                implies #[trigger] q2[b].id != #[trigger] q0[a].id by {
            assert(q1[a].id == q0[a].id && q1[a].matrix == q0[a].matrix);
        }
    } else {
        assert forall|i: int| 0 <= i < q0.len() implies (#[trigger] q2[i]).id == q0[i].id
            && q2[i].matrix == q0[i].matrix && q2[i].matrix_attempts == q0[i].matrix_attempts by {
            assert(q1[i].id == q0[i].id);
            assert(q2[i].id == q1[i].id);
        }
    }
}

impl Default for DemoWorld {
    fn default() -> (w: Self)
        ensures
            w.wf(),
    {
        DemoWorld::new()
    }
}

impl DemoWorld {
    pub open spec fn wf(&self) -> bool {
        &&& self.alice.client.wf()
        &&& self.bob.client.wf()
        &&& self.alice.matrix_user@ != self.bob.matrix_user@
    }

    /// Alice and Bob, online, with empty stores, on the system clock; each
    /// has a Matrix session with its data on and a phone in service.
    pub fn new() -> (w: DemoWorld)
        ensures
            w.wf(),
            w.alice.me@ == "alice"@,
            w.bob.me@ == "bob"@,
            w.alice.name@ == "Alice"@,
            w.bob.name@ == "Bob"@,
            w.alice.client.user()@ == "alice"@,
            w.bob.client.user()@ == "bob"@,
            w.alice.matrix_user@ == "@alice:matrix.org"@,
            w.bob.matrix_user@ == "@bob:matrix.org"@,
            w.alice.phone@ == crate::peer::normalise_phone(ALICE_PHONE@),
            w.bob.phone@ == crate::peer::normalise_phone(BOB_PHONE@),
            starts_fresh(w.alice),
            starts_fresh(w.bob),
            is_connected_in(w.homeserver@, w.alice.matrix_user@),
            is_connected_in(w.homeserver@, w.bob.matrix_user@),
            w.homeserver@.reachable,
            w.homeserver@.timeline.len() == 0,
            has_service(w.carrier@, w.alice.phone@),
            has_service(w.carrier@, w.bob.phone@),
    {
        let clock = SystemClock;
        let now = clock.now_ms();
        let mut homeserver = FakeHomeserver::new();
        let mut carrier = FakeSmsNetwork::new();
        let alice = build(
            "alice",
            "Alice",
            "@alice:matrix.org",
            ALICE_PHONE,
            &mut homeserver,
            &mut carrier,
            now,
        );
        let ghost hs1 = homeserver@;
        let ghost net1 = carrier@;
        proof {
            reveal_strlit("@alice:matrix.org");
            reveal_strlit("@bob:matrix.org");
            reveal_strlit("+33600000001");
            reveal_strlit("+33600000002");
            assert(ALICE_PHONE@ == "+33600000001"@);
            assert(BOB_PHONE@ == "+33600000002"@);
            assert(ALICE_PHONE@.drop_last() =~= BOB_PHONE@.drop_last());
            let na = crate::peer::normalise_phone(ALICE_PHONE@);
            let nb = crate::peer::normalise_phone(BOB_PHONE@);
            assert(na == crate::peer::normalise_phone(ALICE_PHONE@.drop_last()).push('1'));
            assert(nb == crate::peer::normalise_phone(BOB_PHONE@.drop_last()).push('2'));
            assert(na.last() != nb.last());
            assert(na != nb);
            lemma_first_index_facts(hs1.sessions, session_of("@alice:matrix.org"@));
            lemma_first_index_facts(hs1.sessions, session_of("@bob:matrix.org"@));
            assert(hs1.sessions[0].user@ == "@alice:matrix.org"@);
            assert(!session_of("@bob:matrix.org"@)(hs1.sessions[0]));
            lemma_first_index_none(hs1.sessions, session_of("@bob:matrix.org"@));
            lemma_first_index_facts(net1.devices, device_of(crate::peer::normalise_phone(ALICE_PHONE@)));
            assert(!device_of(crate::peer::normalise_phone(BOB_PHONE@))(net1.devices[0]));
            lemma_first_index_none(net1.devices, device_of(crate::peer::normalise_phone(BOB_PHONE@)));
        }
        let bob = build("bob", "Bob", "@bob:matrix.org", BOB_PHONE, &mut homeserver, &mut carrier, now);
        proof {
            reveal_strlit("alice");
            reveal_strlit("bob");
            reveal_strlit("Alice");
            reveal_strlit("Bob");
            let s = homeserver@.sessions;
            assert(s[0] == hs1.sessions[0]);
            lemma_first_index_step(s, session_of("@alice:matrix.org"@), 0);
            let d = carrier@.devices;
            assert(d[0] == net1.devices[0]);
            lemma_first_index_step(d, device_of(crate::peer::normalise_phone(ALICE_PHONE@)), 0);
        }
        DemoWorld {
            homeserver,
            carrier,
            clock,
            alice,
            bob,
            matrix_sent: Ghost(Seq::empty()),
            sms_sent: Ghost(Seq::empty()),
        }
    }

    /// The contacts Alice's screen lists: Bob.
    pub fn contacts(&self) -> (v: Vec<DemoContact>)
        ensures
            v@.len() == 1,
            v@[0].peer == self.bob.me,
            v@[0].display_name == self.bob.name,
            v@[0].phone@ == BOB_PHONE@,
    {
        let mut v: Vec<DemoContact> = Vec::new();
        v.push(
            DemoContact {
                peer: self.bob.me.clone(),
                display_name: self.bob.name.clone(),
                phone: String::from_str(BOB_PHONE),
            },
        );
        v
    }

    /// What one device's SMS app lists, older first, then by row id.
    pub fn sms_storage(&self, side: Side) -> (v: Vec<StoredSms>)
        ensures
            match first_of(
                self.carrier@.devices,
                device_of(
                    match side {
                        Side::Alice => self.alice.phone@,
                        Side::Bob => self.bob.phone@,
                    },
                ),
            ) {
                Some(h) => lists_rows(h.storage@, v@),
                None => v@.len() == 0,
            },
    {
        let device = side.device(self);
        self.carrier.stored_rows(&device.phone)
    }

    /// What the SMS app of `peer` lists: Bob's rows for Bob, nothing for
    /// anyone else.
    pub fn peer_sms_storage(&self, peer: &PeerId) -> (v: Vec<StoredSms>)
        ensures
            peer@ != self.bob.me@ ==> v@.len() == 0,
            peer@ == self.bob.me@ ==> match first_of(self.carrier@.devices, device_of(self.bob.phone@)) {
                Some(h) => lists_rows(h.storage@, v@),
                None => v@.len() == 0,
            },
    {
        if peer.same_as(&self.bob.me) {
            self.carrier.stored_rows(&self.bob.phone)
        } else {
            Vec::new()
        }
    }

    pub fn server_is_up(&self) -> (b: bool)
        ensures
            b == self.homeserver@.reachable,
    {
        self.homeserver.is_reachable()
    }

    /// Takes the homeserver down or brings it back. Down, both devices
    /// learn they are offline; back up, each device whose data is on learns
    /// it is online.
    pub fn set_server_up(&mut self, up: bool)
        requires
            old(self).wf(),
        ensures
            final(self).wf(),
            final(self).homeserver@.reachable == up,
            !up ==> final(self).alice.client.status() == NetStatus::Offline
                && final(self).bob.client.status() == NetStatus::Offline,
            requeued(old(self).alice, final(self).alice),
            requeued(old(self).bob, final(self).bob),
            tags_resolve_on_both(*old(self)) ==> tags_resolve_on_both(*final(self)),
            final(self).homeserver@.sessions == old(self).homeserver@.sessions,
            final(self).homeserver@.timeline == old(self).homeserver@.timeline,
            up ==> final(self).alice.client.status() == if is_connected_in(
                old(self).homeserver@,
                old(self).alice.matrix_user@,
            ) {
                NetStatus::Online
            } else {
                old(self).alice.client.status()
            },
            up ==> final(self).bob.client.status() == if is_connected_in(
                old(self).homeserver@,
                old(self).bob.matrix_user@,
            ) {
                NetStatus::Online
            } else {
                old(self).bob.client.status()
            },
    {
        self.homeserver.set_reachable(up);
        let ghost a0 = self.alice;
        let ghost b0 = self.bob;
        if !up {
            self.alice.client.set_connectivity(NetStatus::Offline);
            self.bob.client.set_connectivity(NetStatus::Offline);
        } else {
            if self.homeserver.is_connected(&self.alice.matrix_user) {
                self.alice.client.set_connectivity(NetStatus::Online);
            }
            if self.homeserver.is_connected(&self.bob.matrix_user) {
                self.bob.client.set_connectivity(NetStatus::Online);
            }
        }
        proof {
            lemma_requeued_resolves_alike(a0, self.alice);
            lemma_requeued_resolves_alike(b0, self.bob);
        }
    }

    /// Switches one device's data on or off, on the homeserver and in what
    /// the client believes.
    pub fn set_online(&mut self, side: Side, online: bool)
        requires
            old(self).wf(),
        ensures
            final(self).wf(),
            match side {
                Side::Alice => final(self).alice.client.status() == if online {
                    NetStatus::Online
                } else {
                    NetStatus::Offline
                },
                Side::Bob => final(self).bob.client.status() == if online {
                    NetStatus::Online
                } else {
                    NetStatus::Offline
                },
            },
            match side {
                Side::Alice => {
                    &&& switched(old(self).alice, final(self).alice, online)
                    &&& final(self).bob == old(self).bob
                    &&& first_index(old(self).homeserver@.sessions, session_of(old(self).alice.matrix_user@)) is Some
                        ==> is_connected_in(final(self).homeserver@, old(self).alice.matrix_user@) == online
                    &&& first_index(final(self).homeserver@.sessions, session_of(old(self).alice.matrix_user@))
                        == first_index(old(self).homeserver@.sessions, session_of(old(self).alice.matrix_user@))
                },
                Side::Bob => {
                    &&& switched(old(self).bob, final(self).bob, online)
                    &&& final(self).alice == old(self).alice
                    &&& first_index(old(self).homeserver@.sessions, session_of(old(self).bob.matrix_user@)) is Some
                        ==> is_connected_in(final(self).homeserver@, old(self).bob.matrix_user@) == online
                    &&& first_index(final(self).homeserver@.sessions, session_of(old(self).bob.matrix_user@))
                        == first_index(old(self).homeserver@.sessions, session_of(old(self).bob.matrix_user@))
                },
            },
            final(self).homeserver@.reachable == old(self).homeserver@.reachable,
            final(self).homeserver@.timeline == old(self).homeserver@.timeline,
            tags_resolve_on_both(*old(self)) ==> tags_resolve_on_both(*final(self)),
    {
        match side {
            Side::Alice => self.alice.set_online(&mut self.homeserver, online),
            Side::Bob => self.bob.set_online(&mut self.homeserver, online),
        }
        proof {
            lemma_requeued_resolves_alike(old(self).alice, self.alice);
            lemma_requeued_resolves_alike(old(self).bob, self.bob);
        }
    }

    pub fn event_count(&self) -> (n: usize)
        ensures
            n == self.homeserver@.timeline.len(),
    {
        self.homeserver.event_count()
    }

    /// Receives and pumps on one device; the other device is left alone.
    pub fn sync(&mut self, side: Side)
        requires
            old(self).wf(),
        ensures
            final(self).wf(),
            match side {
                Side::Alice => final(self).bob == old(self).bob && synced(
                    old(self).alice,
                    final(self).alice,
                ) && received(old(self).alice, final(self).alice, old(self).homeserver@, old(self).carrier@),
                Side::Bob => final(self).alice == old(self).alice && synced(
                    old(self).bob,
                    final(self).bob,
                ) && received(old(self).bob, final(self).bob, old(self).homeserver@, old(self).carrier@),
            },
            final(self).homeserver@.reachable == old(self).homeserver@.reachable,
            link_kept(old(self).homeserver@, final(self).homeserver@, device_at(*old(self), side).matrix_user@),
            tags_resolve_on_both(*old(self)) ==> tags_resolve_on_both(*final(self)),
            extends(old(self).matrix_sent@, final(self).matrix_sent@),
            extends(old(self).sms_sent@, final(self).sms_sent@),
            forall|a: Seq<char>| a != device_at(*old(self), side).matrix_user@ ==> #[trigger] is_connected_in(
                final(self).homeserver@,
                a,
            ) == is_connected_in(old(self).homeserver@, a),
            device_at(*old(self), side).client.status() == NetStatus::Offline ==> device_at(
                *final(self),
                side,
            ).client.status() == NetStatus::Offline,
            device_at(*old(self), side).client.status() == NetStatus::Online && is_connected_in(
                old(self).homeserver@,
                device_at(*old(self), side).matrix_user@,
            ) && old(self).homeserver@.reachable ==> device_at(*final(self), side).client.status()
                == NetStatus::Online,
    {
        let now = self.clock.now_ms();
        let (handed_matrix, handed_sms) = match side {
            Side::Alice => sync_device(&mut self.alice, &mut self.homeserver, &mut self.carrier, now),
            Side::Bob => sync_device(&mut self.bob, &mut self.homeserver, &mut self.carrier, now),
        };
        self.matrix_sent = Ghost(self.matrix_sent@ + handed_matrix@);
        self.sms_sent = Ghost(self.sms_sent@ + handed_sms@);
        proof {
            assert(self.matrix_sent@.take(old(self).matrix_sent@.len() as int) =~= old(self).matrix_sent@);
            assert(self.sms_sent@.take(old(self).sms_sent@.len() as int) =~= old(self).sms_sent@);
        }
    }

    /// Sends `body` from one device to the other, then the peer syncs if
    /// `auto_sync_peer`.
    fn send_from(&mut self, side: Side, body: &str, auto_sync_peer: bool) -> (id: MessageId)
        requires
            old(self).wf(),
        ensures
            final(self).wf(),
            sent_by(*old(self), *final(self), side, id, body@),
            has_written(
                device_at(*final(self), side).client.stored().messages,
                id,
                device_at(*old(self), side).client.user(),
                device_at(*old(self), other_of(side)).me@,
                body@,
            ),
            device_at(*final(self), side).me == device_at(*old(self), side).me,
            device_at(*final(self), side).name == device_at(*old(self), side).name,
            device_at(*final(self), side).matrix_user == device_at(*old(self), side).matrix_user,
            device_at(*final(self), side).phone == device_at(*old(self), side).phone,
            device_at(*final(self), side).client.user() == device_at(*old(self), side).client.user(),
            peer_followed(*old(self), *final(self), side, auto_sync_peer),
            tags_resolve_on_both(*old(self)) && spec_find_by_tag(
                device_at(*old(self), side).client.stored(),
                device_at(*old(self), other_of(side)).me@,
                tag_of(id),
            ) is None ==> tags_resolve_on_both(*final(self)),
            extends(old(self).matrix_sent@, final(self).matrix_sent@),
            extends(old(self).sms_sent@, final(self).sms_sent@),
    {
        let now = self.clock.now_ms();
        let (id, handed_matrix, handed_sms) = match side {
            Side::Alice => {
                let peer = self.bob.me.clone();
                send_device(&mut self.alice, &mut self.homeserver, &mut self.carrier, now, &peer, body)
            },
            Side::Bob => {
                let peer = self.alice.me.clone();
                send_device(&mut self.bob, &mut self.homeserver, &mut self.carrier, now, &peer, body)
            },
        };
        self.matrix_sent = Ghost(old(self).matrix_sent@ + handed_matrix@);
        self.sms_sent = Ghost(old(self).sms_sent@ + handed_sms@);
        proof {
            lemma_handed_over_appended(
                id,
                spec_encode(body@, tag_of(id)),
                old(self).matrix_sent@,
                handed_matrix@,
                old(self).sms_sent@,
                handed_sms@,
            );
        }
        let ghost mid = *self;
        proof {
            assert(mid.matrix_sent@.take(old(self).matrix_sent@.len() as int) =~= old(self).matrix_sent@);
            assert(mid.sms_sent@.take(old(self).sms_sent@.len() as int) =~= old(self).sms_sent@);
        }
        if auto_sync_peer {
            self.sync(other_side(side));
            proof {
                lemma_extends_chain(old(self).matrix_sent@, mid.matrix_sent@, self.matrix_sent@);
                lemma_extends_chain(old(self).sms_sent@, mid.sms_sent@, self.sms_sent@);
                lemma_handed_over_extended(
                    id,
                    spec_encode(body@, tag_of(id)),
                    old(self).matrix_sent@,
                    mid.matrix_sent@,
                    self.matrix_sent@,
                    old(self).sms_sent@,
                    mid.sms_sent@,
                    self.sms_sent@,
                );
            }
        }
        proof {
            let d = device_at(*self, side);
            let k = choose|k: int|
                0 <= k < d.client.stored().messages.len() && #[trigger] d.client.stored().messages[k].id == id
                    && d.client.stored().messages[k].author == device_at(*old(self), side).client.user()
                    && d.client.stored().messages[k].conversation@ == device_at(*old(self), other_of(side)).me@
                    && d.client.stored().messages[k].body@ == body@
                    && d.client.stored().messages[k].direction == Direction::Outgoing;
            assert(holds_id(d.client.stored().messages, id));
        }
        id
    }

    /// Sends `body` from one device to the other as the device's own screen
    /// does: the peer then syncs if `auto_sync_peer`, and the sender syncs
    /// too.
    pub fn send(&mut self, side: Side, body: &str, auto_sync_peer: bool) -> (id: MessageId)
        requires
            old(self).wf(),
        ensures
            final(self).wf(),
            sent_by(*old(self), *final(self), side, id, body@),
            peer_followed(*old(self), *final(self), side, auto_sync_peer),
            tags_resolve_on_both(*old(self)) && spec_find_by_tag(
                device_at(*old(self), side).client.stored(),
                device_at(*old(self), other_of(side)).me@,
                tag_of(id),
            ) is None ==> tags_resolve_on_both(*final(self)),
            extends(old(self).matrix_sent@, final(self).matrix_sent@),
            extends(old(self).sms_sent@, final(self).sms_sent@),
    {
        let id = self.send_from(side, body, auto_sync_peer);
        let ghost before = *self;
        let ghost sent = device_at(*self, side).client.stored().messages;
        self.sync(side);
        proof {
            let after = device_at(*self, side).client.stored().messages;
            let me = device_at(*old(self), side).client.user();
            let peer = device_at(*old(self), other_of(side)).me@;
            let w = choose|w: int|
                0 <= w < sent.len() && #[trigger] sent[w].id == id && sent[w].author == me
                    && sent[w].conversation@ == peer && sent[w].body@ == body@
                    && sent[w].direction == Direction::Outgoing;
            assert(after[w].id == id);
            assert(holds_id(after, id));
            if crate::send::same_message(sent[w], after[w]) {
                assert(has_written(after, id, me, peer, body@));
            } else {
                assert(holds_received_under(after, id));
            }
            let d0 = device_at(*old(self), side);
            assert(ids_kept(d0.client.stored().messages, after)) by {
                assert forall|i: int| 0 <= i < d0.client.stored().messages.len() implies #[trigger] after[i].id
                    == d0.client.stored().messages[i].id by {
                    assert(sent[i].id == d0.client.stored().messages[i].id);
                }
            }
            lemma_handed_over_extended(
                id,
                spec_encode(body@, tag_of(id)),
                old(self).matrix_sent@,
                before.matrix_sent@,
                self.matrix_sent@,
                old(self).sms_sent@,
                before.sms_sent@,
                self.sms_sent@,
            );
            assert(device_at(*self, other_of(side)) == device_at(before, other_of(side)));
            lemma_extends_chain(old(self).matrix_sent@, before.matrix_sent@, self.matrix_sent@);
            lemma_extends_chain(old(self).sms_sent@, before.sms_sent@, self.sms_sent@);
        }
        id
    }

    /// Sends a draft from one device to the other as the developer panel
    /// does: the draft without its surrounding white space, or the
    /// placeholder when nothing else is left; the peer then syncs if
    /// `auto_sync_peer`, and the sender does not.
    pub fn panel_send(&mut self, side: Side, draft: &str, auto_sync_peer: bool) -> (id: MessageId)
        requires
            old(self).wf(),
        ensures
            final(self).wf(),
            sent_by(
                *old(self),
                *final(self),
                side,
                id,
                if trimmed(draft@).len() == 0 {
                    DEFAULT_MESSAGE_PLACEHOLDER@
                } else {
                    trimmed(draft@)
                },
            ),
            has_written(
                device_at(*final(self), side).client.stored().messages,
                id,
                device_at(*old(self), side).client.user(),
                device_at(*old(self), other_of(side)).me@,
                if trimmed(draft@).len() == 0 {
                    DEFAULT_MESSAGE_PLACEHOLDER@
                } else {
                    trimmed(draft@)
                },
            ),
            peer_followed(*old(self), *final(self), side, auto_sync_peer),
            tags_resolve_on_both(*old(self)) && spec_find_by_tag(
                device_at(*old(self), side).client.stored(),
                device_at(*old(self), other_of(side)).me@,
                tag_of(id),
            ) is None ==> tags_resolve_on_both(*final(self)),
    {
        let text = panel_message(draft);
        self.send_from(side, text.as_str(), auto_sync_peer)
    }

    /// Switches one device's data to the other state, then syncs it, since
    /// coming back online is what triggers the backfill, and the peer too if
    /// `auto_sync_peer`.
    pub fn toggle_online(&mut self, side: Side, auto_sync_peer: bool)
        requires
            old(self).wf(),
        ensures
            final(self).wf(),
            match side {
                Side::Alice => {
                    &&& synced(old(self).alice, final(self).alice)
                    &&& auto_sync_peer ==> synced(old(self).bob, final(self).bob)
                    &&& !auto_sync_peer ==> final(self).bob == old(self).bob
                },
                Side::Bob => {
                    &&& synced(old(self).bob, final(self).bob)
                    &&& auto_sync_peer ==> synced(old(self).alice, final(self).alice)
                    &&& !auto_sync_peer ==> final(self).alice == old(self).alice
                },
            },
            exists|mid: DemoDevice|
                switched(
                    device_at(*old(self), side),
                    mid,
                    device_at(*old(self), side).client.status() == NetStatus::Offline,
                ) && #[trigger] synced(mid, device_at(*final(self), side)),
            link_set(
                old(self).homeserver@,
                final(self).homeserver@,
                device_at(*old(self), side).matrix_user@,
                device_at(*old(self), side).client.status() == NetStatus::Offline,
            ),
            device_at(*old(self), side).client.status() != NetStatus::Offline ==> device_at(
                *final(self),
                side,
            ).client.status() == NetStatus::Offline,
            device_at(*old(self), side).client.status() == NetStatus::Offline && old(self).homeserver@.reachable
                && first_index(old(self).homeserver@.sessions, session_of(device_at(*old(self), side).matrix_user@))
                is Some ==> device_at(*final(self), side).client.status() == NetStatus::Online,
            final(self).homeserver@.reachable == old(self).homeserver@.reachable,
            tags_resolve_on_both(*old(self)) ==> tags_resolve_on_both(*final(self)),
    {
        let target = !side.device(self).is_online();
        self.set_online(side, target);
        let ghost a1 = self.alice;
        let ghost b1 = self.bob;
        let ghost hs1 = self.homeserver@;
        self.sync(side);
        let ghost a2 = self.alice;
        let ghost b2 = self.bob;
        proof {
            match side {
                Side::Alice => lemma_requeued_then_synced(old(self).alice, a1, a2),
                Side::Bob => lemma_requeued_then_synced(old(self).bob, b1, b2),
            }
        }
        if auto_sync_peer {
            self.sync(other_side(side));
        }
        proof {
            let mid = device_at(DemoWorld { alice: a1, bob: b1, ..*old(self) }, side);
            assert(synced(mid, device_at(*self, side)));
        }
    }

    /// Takes the homeserver down or brings it back, then syncs both
    /// devices.
    pub fn toggle_server(&mut self)
        requires
            old(self).wf(),
        ensures
            final(self).wf(),
            synced(old(self).alice, final(self).alice),
            synced(old(self).bob, final(self).bob),
            final(self).homeserver@.reachable == !old(self).homeserver@.reachable,
            tags_resolve_on_both(*old(self)) ==> tags_resolve_on_both(*final(self)),
            exists|a1: DemoDevice|
                requeued(old(self).alice, a1) && a1.client.status() == status_on_server_change(
                    old(self).homeserver@,
                    old(self).alice,
                    !old(self).homeserver@.reachable,
                ) && #[trigger] synced(a1, final(self).alice),
            exists|b1: DemoDevice|
                requeued(old(self).bob, b1) && b1.client.status() == status_on_server_change(
                    old(self).homeserver@,
                    old(self).bob,
                    !old(self).homeserver@.reachable,
                ) && #[trigger] synced(b1, final(self).bob),
    {
        let target = !self.server_is_up();
        self.set_server_up(target);
        let ghost a1 = self.alice;
        let ghost b1 = self.bob;
        self.sync(Side::Alice);
        let ghost a2 = self.alice;
        self.sync(Side::Bob);
        proof {
            lemma_requeued_then_synced(old(self).alice, a1, a2);
            lemma_requeued_then_synced(old(self).bob, b1, self.bob);
            assert(synced(a1, self.alice));
            assert(synced(b1, self.bob));
        }
    }

    /// The newest activity of both devices, up to `limit` each, merged
    /// newest first, each line with who did it and when; lines of one time
    /// keep their order, Alice's before Bob's.
    pub fn activity_feed(&self, limit: usize) -> (v: Vec<FeedLine>)
        ensures
            exists|lines: Seq<FeedLine>|
                feed_lines(
                    lines,
                    newest_first(self.alice.client.logged(), limit as nat),
                    newest_first(self.bob.client.logged(), limit as nat),
                ) && v@ == #[trigger] newest_lines_first(lines),
    {
        let alice = self.alice.client.activity().recent(limit);
        let bob = self.bob.client.activity().recent(limit);
        proof {
            assert(alice@ =~= newest_first(self.alice.client.logged(), limit as nat));
            assert(bob@ =~= newest_first(self.bob.client.logged(), limit as nat));
        }
        merge_feed(&alice, &bob)
    }

    /// The newest activity of both devices as the developer panel lists it:
    /// up to `limit` of Alice's entries, newest first, then up to `limit` of
    /// Bob's, each line with who did it and when.
    pub fn panel_activity_feed(&self, limit: usize) -> (v: Vec<FeedLine>)
        ensures
            feed_lines(
                v@,
                newest_first(self.alice.client.logged(), limit as nat),
                newest_first(self.bob.client.logged(), limit as nat),
            ),
    {
        let alice = self.alice.client.activity().recent(limit);
        let bob = self.bob.client.activity().recent(limit);
        proof {
            assert(alice@ =~= newest_first(self.alice.client.logged(), limit as nat));
            assert(bob@ =~= newest_first(self.bob.client.logged(), limit as nat));
        }
        list_feed(&alice, &bob)
    }
}

/// Up to `limit` entries of `log`, newest first.
pub open spec fn newest_first(log: Seq<ActivityEntry>, limit: nat) -> Seq<ActivityEntry> {
    Seq::new(
        if limit < log.len() {
            limit
        } else {
            log.len()
        },
        |k: int| log[log.len() - 1 - k],
    )
}

impl Side {
    /// This side's device.
    pub fn device(self, world: &DemoWorld) -> (d: &DemoDevice)
        ensures
            *d == match self {
                Side::Alice => world.alice,
                Side::Bob => world.bob,
            },
    {
        match self {
            Side::Alice => &world.alice,
            Side::Bob => &world.bob,
        }
    }

    /// The device on the other side.
    pub fn other(self, world: &DemoWorld) -> (d: &DemoDevice)
        ensures
            *d == match self {
                Side::Alice => world.bob,
                Side::Bob => world.alice,
            },
    {
        match self {
            Side::Alice => &world.bob,
            Side::Bob => &world.alice,
        }
    }
}

/// The other device.
pub fn other_side(side: Side) -> (o: Side)
    ensures
        o != side,
{
    match side {
        Side::Alice => Side::Bob,
        Side::Bob => Side::Alice,
    }
}

/// What the developer panel sends when its draft is empty.
pub const DEFAULT_MESSAGE_PLACEHOLDER: &'static str = "Type message to send";

/// How many characters the first SMS segment holds.
pub const SMS_SEGMENT_CHARS: usize = 160;

/// What the composer sends for a draft: the draft without its surrounding
/// white space, or nothing when nothing else is left.
pub fn composer_submission(draft: &str) -> (r: Option<String>)
    ensures
        match r {
            Some(text) => text@ == trimmed(draft@) && text@.len() > 0,
            None => trimmed(draft@).len() == 0,
        },
{
    let text = trim_white_space(draft);
    if text.as_str().unicode_len() == 0 {
        None
    } else {
        Some(text)
    }
}

/// What the developer panel sends for a draft: the draft without its
/// surrounding white space, or the placeholder when nothing else is left.
pub fn panel_message(draft: &str) -> (r: String)
    ensures
        r@ == if trimmed(draft@).len() == 0 {
            DEFAULT_MESSAGE_PLACEHOLDER@
        } else {
            trimmed(draft@)
        },
{
    match composer_submission(draft) {
        Some(text) => text,
        None => String::from_str(DEFAULT_MESSAGE_PLACEHOLDER),
    }
}

/// How many characters are left in the first SMS segment once the draft
/// and the id trailer are in it; negative when the draft overflows it.
pub fn sms_chars_left(draft: &str) -> (n: isize)
    requires
        draft@.len() + TRAILER_CHARS <= isize::MAX,
    ensures
        n == SMS_SEGMENT_CHARS - (draft@.len() + TRAILER_CHARS),
{
    let used = draft.unicode_len() + TRAILER_CHARS;
    (SMS_SEGMENT_CHARS as isize) - (used as isize)
}

} // verus!
