use parakeet::client::{Client, ClientParts};
use parakeet::clock::{Clock, ManualClock};
use parakeet::connectivity::MemoryConnectivity;
use parakeet::directory::{Contact, MemoryDirectory};
use parakeet::id::MessageId;
use parakeet::ids::SequentialIdGen;
use parakeet::ingest::IngestReport;
use parakeet::matrix_fake::FakeHomeserver;
use parakeet::outbox::{NetStatus, MAX_SMS_ATTEMPTS};
use parakeet::peer::{ConversationId, MatrixUserId, PeerId, PhoneNumber};
use parakeet::send::PumpReport;
use parakeet::sms_fake::{FakeSmsNetwork, StoredSms};
use parakeet::store::MemoryStore;
use parakeet::transport::SmsTransport;
use parakeet::view::{MessageView, TransportBadge};

const ALICE_PHONE: &str = "+33600000001";
const BOB_PHONE: &str = "+33600000002";
const STRANGER_PHONE: &str = "+33600000009";

#[derive(Clone, Copy)]
enum Who {
    Alice,
    Bob,
}

struct Device {
    client: Client<MemoryStore, MemoryConnectivity, SequentialIdGen, MemoryDirectory>,
    user: MatrixUserId,
    phone: PhoneNumber,
}

struct World {
    homeserver: FakeHomeserver,
    carrier: FakeSmsNetwork,
    clock: ManualClock,
    alice: Device,
    bob: Device,
}

fn contacts() -> Vec<Contact> {
    vec![
        Contact::new("alice", "Alice", "@alice:matrix.org", ALICE_PHONE),
        Contact::new("bob", "Bob", "@bob:matrix.org", BOB_PHONE),
    ]
}

fn build_device(
    who: &str,
    matrix_id: &str,
    phone: &str,
    seed: u64,
    homeserver: &mut FakeHomeserver,
    carrier: &mut FakeSmsNetwork,
    now: u64,
) -> Device {
    homeserver.client(matrix_id, now);
    carrier.handset(phone, now);
    let client = Client::new(ClientParts {
        me: PeerId::new(who),
        store: MemoryStore::new(),
        net: MemoryConnectivity::new(NetStatus::Online),
        ids: SequentialIdGen::new(seed),
        directory: MemoryDirectory::new(contacts()),
    });
    Device {
        client,
        user: MatrixUserId::new(matrix_id),
        phone: PhoneNumber::new(phone),
    }
}

impl World {
    fn new() -> World {
        let clock = ManualClock::new(1_754_800_000_000);
        let now = clock.now_ms();
        let mut homeserver = FakeHomeserver::new();
        let mut carrier = FakeSmsNetwork::new();
        let alice = build_device(
            "alice",
            "@alice:matrix.org",
            ALICE_PHONE,
            1,
            &mut homeserver,
            &mut carrier,
            now,
        );
        let bob = build_device(
            "bob",
            "@bob:matrix.org",
            BOB_PHONE,
            2,
            &mut homeserver,
            &mut carrier,
            now,
        );
        World {
            homeserver,
            carrier,
            clock,
            alice,
            bob,
        }
    }

    fn parts(&mut self, who: Who) -> (&mut Device, &mut FakeHomeserver, &mut FakeSmsNetwork, u64) {
        let now = self.clock.now_ms();
        let World {
            homeserver,
            carrier,
            alice,
            bob,
            ..
        } = self;
        let device = match who {
            Who::Alice => alice,
            Who::Bob => bob,
        };
        (device, homeserver, carrier, now)
    }

    fn device(&self, who: Who) -> &Device {
        match who {
            Who::Alice => &self.alice,
            Who::Bob => &self.bob,
        }
    }

    fn send(&mut self, who: Who, peer: &str, body: &str) -> MessageId {
        let (device, homeserver, carrier, now) = self.parts(who);
        let mut matrix = homeserver.connection(device.user.as_str(), now);
        let mut sms = carrier.line(device.phone.as_str(), now);
        device
            .client
            .send(&mut matrix, &mut sms, now, &PeerId::new(peer), body)
    }

    fn sync(&mut self, who: Who) -> (IngestReport, PumpReport) {
        let (device, homeserver, carrier, now) = self.parts(who);
        let mut matrix = homeserver.connection(device.user.as_str(), now);
        let mut sms = carrier.line(device.phone.as_str(), now);
        device.client.sync(&mut matrix, &mut sms, now)
    }

    fn pump(&mut self, who: Who) -> PumpReport {
        let (device, homeserver, carrier, now) = self.parts(who);
        let mut matrix = homeserver.connection(device.user.as_str(), now);
        let mut sms = carrier.line(device.phone.as_str(), now);
        device.client.pump(&mut matrix, &mut sms, now)
    }

    fn lose_data(&mut self, who: Who) {
        let (device, homeserver, _, _) = self.parts(who);
        homeserver.set_connected(&device.user, false);
        device.client.set_connectivity(NetStatus::Offline);
    }

    fn regain_data(&mut self, who: Who) {
        let (device, homeserver, _, _) = self.parts(who);
        homeserver.set_connected(&device.user, true);
        device.client.set_connectivity(NetStatus::Online);
    }

    fn lose_all_service(&mut self, who: Who) {
        self.lose_data(who);
        let (device, _, carrier, _) = self.parts(who);
        carrier.set_reachable(&device.phone, false);
    }

    fn sms_storage(&self, who: Who) -> Vec<StoredSms> {
        self.carrier.stored_rows(&self.device(who).phone)
    }

    fn thread(&self, who: Who, with: &str) -> Vec<MessageView> {
        self.device(who).client.thread(&ConversationId::new(with))
    }

    fn stranger_sends(&mut self, to: &str, text: &str) {
        let now = self.clock.now_ms();
        let mut stranger = self.carrier.handset(STRANGER_PHONE, now);
        SmsTransport::send(&mut stranger, &PhoneNumber::new(to), text).unwrap();
    }
}

fn trailer_for(id: MessageId) -> String {
    format!("#pk:{}", id.short_tag().to_base32())
}

#[test]
fn online_sends_go_over_matrix_and_never_touch_sms() {
    let mut world = World::new();

    world.send(Who::Alice, "bob", "on my way");
    world.sync(Who::Bob);

    assert_eq!(world.homeserver.event_count(), 1);
    assert!(
        world.sms_storage(Who::Bob).is_empty(),
        "a normal send must not cost an SMS"
    );

    let thread = world.thread(Who::Bob, "alice");
    assert_eq!(thread.len(), 1);
    assert_eq!(thread[0].body, "on my way");
    assert_eq!(thread[0].badge, TransportBadge::Matrix);
    assert_eq!(world.alice.client.outbox_len(), 0);
}

#[test]
fn an_offline_send_falls_back_to_sms_carrying_its_id() {
    let mut world = World::new();
    world.lose_data(Who::Alice);

    let id = world.send(Who::Alice, "bob", "running late");

    assert_eq!(
        world.homeserver.event_count(),
        0,
        "nothing should have reached the homeserver"
    );

    let inbox = world.sms_storage(Who::Bob);
    assert_eq!(inbox.len(), 1);
    assert!(
        inbox[0].text.contains("running late"),
        "the human text must survive: {:?}",
        inbox[0].text
    );
    assert!(
        inbox[0].text.contains(&trailer_for(id)),
        "the id must ride along: {:?}",
        inbox[0].text
    );

    assert_eq!(world.alice.client.awaiting_backfill(), vec![id]);
    assert_eq!(
        world.thread(Who::Alice, "bob")[0].badge,
        TransportBadge::Sms,
        "the sender's own view should say it went out over the fallback"
    );
}

#[test]
fn the_full_journey_leaves_the_recipient_with_one_message() {
    let mut world = World::new();

    world.lose_data(Who::Alice);
    let id = world.send(Who::Alice, "bob", "dinner at eight?");

    world.sync(Who::Bob);
    let thread = world.thread(Who::Bob, "alice");
    assert_eq!(thread.len(), 1);
    assert_eq!(thread[0].badge, TransportBadge::Sms);
    assert_eq!(thread[0].body, "dinner at eight?", "trailer must be stripped");
    assert_eq!(
        world.sms_storage(Who::Bob).len(),
        1,
        "the SMS is really in Bob's SMS storage at this point"
    );

    world.clock.advance(120_000);
    world.regain_data(Who::Alice);
    let (_, pumped) = world.sync(Who::Alice);

    assert_eq!(pumped.backfilled, 1);
    assert_eq!(world.homeserver.event_count(), 1);
    assert_eq!(world.alice.client.outbox_len(), 0, "the entry is retired");

    let (ingested, _) = world.sync(Who::Bob);
    assert_eq!(ingested.superseded, 1);
    assert_eq!(ingested.inserted, 0);

    let thread = world.thread(Who::Bob, "alice");
    assert_eq!(thread.len(), 1, "one message, not two");
    assert_eq!(
        world.bob.client.store().len(),
        1,
        "and not filed under a second thread"
    );
    assert_eq!(thread[0].badge, TransportBadge::Reconciled);
    assert_eq!(thread[0].body, "dinner at eight?");
    assert!(
        world.sms_storage(Who::Bob).is_empty(),
        "the SMS must be gone from device storage, not merely hidden"
    );

    assert!(
        thread[0].origin_ts < world.clock.now_ms(),
        "a backfilled message keeps its place in the thread"
    );
    assert_eq!(thread[0].tag, id.short_tag().to_base32());
}

#[test]
fn an_incoming_message_reconciles_on_the_receiving_side_too() {
    let mut world = World::new();

    world.lose_data(Who::Bob);
    world.send(Who::Bob, "alice", "sure, see you then");
    world.sync(Who::Alice);

    let thread = world.thread(Who::Alice, "bob");
    assert_eq!(thread.len(), 1);
    assert_eq!(thread[0].badge, TransportBadge::Sms);
    assert_eq!(thread[0].body, "sure, see you then");
    assert_eq!(
        world.sms_storage(Who::Alice).len(),
        1,
        "Alice really has the SMS at this point"
    );

    world.clock.advance(60_000);
    world.regain_data(Who::Bob);
    world.sync(Who::Bob);

    let (ingested, _) = world.sync(Who::Alice);
    assert_eq!(ingested.superseded, 1);

    let thread = world.thread(Who::Alice, "bob");
    assert_eq!(thread.len(), 1, "one message, not two");
    assert_eq!(thread[0].badge, TransportBadge::Reconciled);
    assert!(
        world.sms_storage(Who::Alice).is_empty(),
        "Alice's SMS row must be gone from device storage"
    );
    assert_eq!(world.bob.client.outbox_len(), 0);
}

#[test]
fn a_matrix_event_that_overtakes_its_own_sms_still_dedupes() {
    let mut world = World::new();

    world.lose_data(Who::Alice);
    world.send(Who::Alice, "bob", "call me");
    world.clock.advance(60_000);
    world.regain_data(Who::Alice);
    world.sync(Who::Alice);

    let (ingested, _) = world.sync(Who::Bob);

    let thread = world.thread(Who::Bob, "alice");
    assert_eq!(thread.len(), 1, "one message, not two");
    assert_eq!(thread[0].badge, TransportBadge::Reconciled);
    assert_eq!(ingested.superseded, 1);
    assert!(world.sms_storage(Who::Bob).is_empty());
}

#[test]
fn repeated_syncs_never_duplicate_anything() {
    let mut world = World::new();

    world.lose_data(Who::Alice);
    world.send(Who::Alice, "bob", "still here");
    world.sync(Who::Bob);
    world.clock.advance(60_000);
    world.regain_data(Who::Alice);

    for _ in 0..5 {
        world.sync(Who::Alice);
        world.sync(Who::Bob);
    }

    assert_eq!(world.homeserver.event_count(), 1);
    assert_eq!(world.thread(Who::Bob, "alice").len(), 1);
    assert_eq!(world.thread(Who::Alice, "bob").len(), 1);
    assert!(world.sms_storage(Who::Bob).is_empty());
}

#[test]
fn a_plain_sms_from_a_stranger_is_left_exactly_as_it_arrived() {
    let mut world = World::new();

    world.stranger_sends(BOB_PHONE, "your parcel is out for delivery");
    world.sync(Who::Bob);

    let thread = world.thread(Who::Bob, STRANGER_PHONE);
    assert_eq!(thread.len(), 1);
    assert_eq!(thread[0].body, "your parcel is out for delivery");
    assert_eq!(thread[0].badge, TransportBadge::Sms);
    assert_eq!(
        world.sms_storage(Who::Bob).len(),
        1,
        "there is no Matrix event coming, so the SMS must stay"
    );
}

#[test]
fn losing_all_service_marks_the_message_failed_rather_than_pretending() {
    let mut world = World::new();
    world.lose_all_service(Who::Alice);

    world.send(Who::Alice, "bob", "anyone there?");
    for _ in 0..MAX_SMS_ATTEMPTS {
        world.pump(Who::Alice);
    }

    let thread = world.thread(Who::Alice, "bob");
    assert_eq!(thread.len(), 1);
    assert_eq!(thread[0].badge, TransportBadge::Failed);
    assert_eq!(world.alice.client.outbox_len(), 0);
    assert!(world.sms_storage(Who::Bob).is_empty());
}

#[test]
fn a_server_outage_falls_back_even_though_the_device_has_data() {
    let mut world = World::new();
    world.homeserver.set_reachable(false);
    assert_eq!(world.alice.client.connectivity(), NetStatus::Online);

    let id = world.send(Who::Alice, "bob", "server's down");

    assert_eq!(world.homeserver.event_count(), 0);
    assert_eq!(world.alice.client.awaiting_backfill(), vec![id]);
    assert_eq!(world.sms_storage(Who::Bob).len(), 1);
    assert_eq!(
        world.alice.client.connectivity(),
        NetStatus::Offline,
        "a failed send is evidence, and should stop the next one trying"
    );
}

#[test]
fn a_recovered_server_backfills_everything_in_the_order_it_was_written() {
    let mut world = World::new();
    world.lose_data(Who::Alice);

    let ids: Vec<_> = ["first", "second", "third"]
        .into_iter()
        .map(|body| {
            world.clock.advance(1_000);
            world.send(Who::Alice, "bob", body)
        })
        .collect();
    world.sync(Who::Bob);
    assert_eq!(world.thread(Who::Bob, "alice").len(), 3);

    world.clock.advance(60_000);
    world.regain_data(Who::Alice);
    world.sync(Who::Alice);
    world.sync(Who::Bob);

    let thread = world.thread(Who::Bob, "alice");
    assert_eq!(thread.len(), 3, "three messages, none duplicated");
    assert_eq!(
        thread.iter().map(|m| m.body.as_str()).collect::<Vec<_>>(),
        vec!["first", "second", "third"],
        "compose order must survive the backfill"
    );
    for (view, id) in thread.iter().zip(&ids) {
        assert_eq!(view.badge, TransportBadge::Reconciled);
        assert_eq!(view.tag, id.short_tag().to_base32());
    }
    assert!(world.sms_storage(Who::Bob).is_empty());
}

#[test]
fn both_directions_work_while_one_side_is_offline() {
    let mut world = World::new();
    world.lose_data(Who::Alice);

    world.send(Who::Alice, "bob", "you around?");
    world.sync(Who::Bob);
    world.send(Who::Bob, "alice", "yes, here");

    world.sync(Who::Alice);
    assert_eq!(world.thread(Who::Alice, "bob").len(), 1);

    world.clock.advance(60_000);
    world.regain_data(Who::Alice);
    world.sync(Who::Alice);
    world.sync(Who::Bob);

    let alice_thread = world.thread(Who::Alice, "bob");
    assert_eq!(alice_thread.len(), 2);
    assert_eq!(alice_thread[0].badge, TransportBadge::Reconciled);
    assert_eq!(alice_thread[1].body, "yes, here");
    assert_eq!(alice_thread[1].badge, TransportBadge::Matrix);

    assert_eq!(world.thread(Who::Bob, "alice").len(), 2);
    assert!(world.sms_storage(Who::Bob).is_empty());
}

#[test]
fn a_sync_takes_everything_waiting_so_the_next_finds_nothing() {
    let mut world = World::new();
    world.send(Who::Alice, "bob", "first");
    world.send(Who::Alice, "bob", "second");

    let (ingested, _) = world.sync(Who::Bob);
    assert_eq!(ingested.inserted, 2);
    assert_eq!(ingested.superseded, 0);
    assert_eq!(ingested.ignored, 0);

    let (again, _) = world.sync(Who::Bob);
    assert_eq!(again.inserted, 0);
    assert_eq!(again.superseded, 0);
    assert_eq!(again.ignored, 0);
    assert_eq!(world.thread(Who::Bob, "alice").len(), 2);
}
