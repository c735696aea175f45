use parakeet::client::{Client, ClientParts};
use parakeet::matrix_fake::FakeHomeserver;
use parakeet::outbox::OutboxEntry;
use parakeet::sms_fake::FakeSmsNetwork;
use parakeet::connectivity::MemoryConnectivity;
use parakeet::demo::{
    composer_submission, panel_message, sms_chars_left, DemoWorld, Side,
    DEFAULT_MESSAGE_PLACEHOLDER,
};
use parakeet::sms_frame::TRAILER_CHARS;
use parakeet::text::trim_white_space;
use parakeet::directory::{Contact, MemoryDirectory};
use parakeet::error::TransportError;
use parakeet::id::MessageId;
use parakeet::ids::SequentialIdGen;
use parakeet::message::{MatrixDelivery, MessageState, SmsDelivery, SmsLocalCopy};
use parakeet::outbox::{NetStatus, TransportState};
use parakeet::peer::{ConversationId, PeerId, SmsRowId};
use parakeet::ports::MessageStore;
use parakeet::send::PumpReport;
use parakeet::store::MemoryStore;
use parakeet::text::zero_padded_decimal;
use parakeet::view::{badge_explanation, clock_time, TransportBadge};

type TestClient = Client<MemoryStore, MemoryConnectivity, SequentialIdGen, MemoryDirectory>;

fn client() -> TestClient {
    Client::new(ClientParts {
        me: PeerId::new("alice"),
        store: MemoryStore::new(),
        net: MemoryConnectivity::new(NetStatus::Online),
        ids: SequentialIdGen::new(7),
        directory: MemoryDirectory::new(vec![Contact::new(
            "bob",
            "Bob",
            "@bob:matrix.org",
            "+33600000002",
        )]),
    })
}

#[test]
fn composing_stores_a_pending_message_and_queues_it() {
    let mut c = client();
    let id = c.compose(5_000, &PeerId::new("bob"), "hello");

    assert_eq!(id.timestamp_ms(), 5_000);
    let message = c.store().get(&id).unwrap();
    assert_eq!(message.body, "hello");
    assert_eq!(message.origin_ts, 5_000);
    assert_eq!(message.state, MessageState::Pending);
    assert_eq!(message.conversation, ConversationId::new("bob"));
    assert_eq!(message.tag, id.short_tag());

    let outbox = c.store().outbox();
    assert_eq!(outbox.len(), 1);
    assert_eq!(outbox[0].id, id);
    assert_eq!(outbox[0].matrix, TransportState::Pending);
    assert_eq!(c.outbox_len(), 1);
    assert!(c.awaiting_backfill().is_empty());
    assert_eq!(c.thread(&ConversationId::new("bob"))[0].badge, TransportBadge::Pending);
}

#[test]
fn a_matrix_success_marks_the_message_sent_and_the_connection_up() {
    let mut c = client();
    c.set_connectivity(NetStatus::Degraded);
    let id = c.compose(5_000, &PeerId::new("bob"), "hello");
    let mut entry = c.store().outbox()[0].clone();
    entry.begin_matrix();
    let mut report = PumpReport::default();

    c.record_matrix_outcome(
        &mut entry,
        false,
        Ok(MatrixDelivery {
            event_id: "$000000000000".into(),
            server_ts: 6_000,
        }),
        6_000,
        &mut report,
    );

    assert_eq!(entry.matrix, TransportState::Done);
    assert_eq!(report.sent_via_matrix, 1);
    assert_eq!(report.backfilled, 0);
    assert_eq!(c.connectivity(), NetStatus::Online);
    let message = c.store().get(&id).unwrap();
    assert_eq!(message.state, MessageState::Sent);
    assert_eq!(message.delivery.matrix.unwrap().event_id, "$000000000000");
    assert_eq!(c.store().outbox()[0].matrix, TransportState::Done);
}

#[test]
fn an_unreachable_homeserver_puts_matrix_off_and_the_device_offline() {
    let mut c = client();
    c.compose(5_000, &PeerId::new("bob"), "hello");
    let mut entry = c.store().outbox()[0].clone();
    entry.begin_matrix();
    let mut report = PumpReport::default();

    c.record_matrix_outcome(
        &mut entry,
        false,
        Err(TransportError::unreachable("homeserver not reachable")),
        6_000,
        &mut report,
    );

    assert_eq!(entry.matrix, TransportState::Failed);
    assert_eq!(entry.next_matrix_attempt_ms, 6_000 + 2_000);
    assert_eq!(c.connectivity(), NetStatus::Offline);
    assert_eq!(report, PumpReport::default());
}

#[test]
fn a_refused_matrix_send_leaves_the_connection_as_it_was() {
    let mut c = client();
    c.compose(5_000, &PeerId::new("bob"), "hello");
    let mut entry = c.store().outbox()[0].clone();
    entry.begin_matrix();
    let mut report = PumpReport::default();

    c.record_matrix_outcome(
        &mut entry,
        true,
        Err(TransportError::rejected("no matrix id for this contact")),
        6_000,
        &mut report,
    );

    assert_eq!(entry.matrix, TransportState::Failed);
    assert_eq!(c.connectivity(), NetStatus::Online);
}

#[test]
fn an_sms_success_is_counted_as_a_fallback() {
    let mut c = client();
    let id = c.compose(5_000, &PeerId::new("bob"), "hello");
    let mut entry = c.store().outbox()[0].clone();
    entry.begin_sms();
    let mut report = PumpReport::default();

    c.record_sms_outcome(
        &mut entry,
        Ok(SmsDelivery {
            row: SmsRowId::new("sms-000000000000"),
            ts: 6_000,
            local_copy: SmsLocalCopy::Present,
        }),
        6_000,
        &mut report,
    );

    assert_eq!(entry.sms, TransportState::Done);
    assert_eq!(report.fell_back_to_sms, 1);
    assert_eq!(c.awaiting_backfill(), vec![id]);
    assert_eq!(c.thread(&ConversationId::new("bob"))[0].badge, TransportBadge::Sms);
    let log = c.activity().entries();
    assert_eq!(
        log.last().unwrap().summary(),
        format!("fell back to sms for {} (matrix unavailable)", id.short_tag().to_base32())
    );
}

#[test]
fn a_failed_sms_is_logged_with_its_reason() {
    let mut c = client();
    c.compose(5_000, &PeerId::new("bob"), "hello");
    let mut entry = c.store().outbox()[0].clone();
    entry.begin_sms();
    let mut report = PumpReport::default();

    c.record_sms_outcome(
        &mut entry,
        Err(TransportError::unreachable("no cell service")),
        6_000,
        &mut report,
    );

    assert_eq!(entry.sms, TransportState::Failed);
    assert_eq!(entry.sms_attempts, 1);
    assert_eq!(report.fell_back_to_sms, 0);
    assert!(c.awaiting_backfill().is_empty());
}

#[test]
fn coming_back_online_clears_every_backoff() {
    let mut c = client();
    c.compose(5_000, &PeerId::new("bob"), "hello");
    let mut entry = c.store().outbox()[0].clone();
    entry.begin_matrix();
    let mut report = PumpReport::default();
    c.record_matrix_outcome(
        &mut entry,
        false,
        Err(TransportError::unreachable("homeserver not reachable")),
        6_000,
        &mut report,
    );
    assert_eq!(c.store().outbox()[0].next_matrix_attempt_ms, 8_000);

    c.set_connectivity(NetStatus::Degraded);
    assert_eq!(c.store().outbox()[0].next_matrix_attempt_ms, 0);
}

#[test]
fn staying_online_keeps_the_backoff() {
    let mut c = client();
    c.compose(5_000, &PeerId::new("bob"), "hello");
    let mut entry = c.store().outbox()[0].clone();
    entry.begin_matrix();
    entry.matrix_failed(6_000);
    c.set_connectivity(NetStatus::Degraded);
    let before = c.store().outbox();
    c.set_connectivity(NetStatus::Online);
    assert_eq!(c.store().outbox(), before);
}

#[test]
fn the_conversation_list_names_the_peer_and_counts_what_is_pending() {
    let mut c = client();
    c.compose(5_000, &PeerId::new("bob"), "first");
    c.compose(6_000, &PeerId::new("bob"), "second");
    c.compose(4_000, &PeerId::new("carol"), "hi carol");

    let list = c.conversations();
    assert_eq!(list.len(), 2);
    assert_eq!(list[0].id, ConversationId::new("bob"));
    assert_eq!(list[0].display_name, "Bob");
    assert_eq!(list[0].last_body, "second");
    assert_eq!(list[0].last_ts, 6_000);
    assert_eq!(list[0].pending, 2);
    assert_eq!(list[1].peer, PeerId::new("carol"));
    assert_eq!(list[1].display_name, "carol", "an unknown peer shows as its id");
}

#[test]
fn the_conversation_of_a_peer_carries_its_id() {
    let c = client();
    assert_eq!(c.conversation_with(&PeerId::new("bob")), ConversationId::new("bob"));
}

#[test]
fn timestamps_show_as_hours_and_minutes() {
    assert_eq!(clock_time(0), "00:00");
    assert_eq!(clock_time(1_754_800_000_000), "04:26");
    assert_eq!(clock_time((13 * 3_600 + 7 * 60 + 59) * 1_000), "13:07");
}

#[test]
fn every_badge_has_an_explanation() {
    assert_eq!(badge_explanation(TransportBadge::Matrix), "delivered over Matrix");
    assert_eq!(
        badge_explanation(TransportBadge::Reconciled),
        "arrived as an SMS, then replaced by the Matrix event"
    );
    assert_eq!(badge_explanation(TransportBadge::Failed), "no transport could deliver it");
}

#[test]
fn numbers_are_zero_padded() {
    assert_eq!(zero_padded_decimal(0, 12), "000000000000");
    assert_eq!(zero_padded_decimal(42, 3), "042");
    assert_eq!(zero_padded_decimal(12_345, 2), "12345");
    assert_eq!(zero_padded_decimal(u64::MAX, 0), "18446744073709551615");
}

#[test]
fn the_demo_world_delivers_over_matrix_then_falls_back_when_data_is_off() {
    let mut world = DemoWorld::new();
    assert!(world.server_is_up());
    assert!(world.alice.is_online());

    world.send(Side::Alice, "over matrix", true);
    assert_eq!(world.event_count(), 1);
    let bob_view = world.bob.messages(&world.alice.me);
    assert_eq!(bob_view.len(), 1);
    assert_eq!(bob_view[0].badge, TransportBadge::Matrix);

    world.toggle_online(Side::Alice, true);
    assert!(!world.alice.is_online());
    world.send(Side::Alice, "over sms", true);
    assert_eq!(world.event_count(), 1);
    assert_eq!(world.sms_storage(Side::Bob).len(), 1);
    assert_eq!(world.peer_sms_storage(&PeerId::new("bob")).len(), 1);
    assert!(world.peer_sms_storage(&PeerId::new("alice")).is_empty());

    world.toggle_online(Side::Alice, true);
    assert!(world.alice.is_online());
    assert_eq!(world.event_count(), 2);
    assert!(world.sms_storage(Side::Bob).is_empty());
    let bob_view = world.bob.messages(&world.alice.me);
    assert_eq!(bob_view.len(), 2);
    let backfilled = bob_view.iter().find(|m| m.body == "over sms").unwrap();
    assert_eq!(backfilled.badge, TransportBadge::Reconciled);
    let direct = bob_view.iter().find(|m| m.body == "over matrix").unwrap();
    assert_eq!(direct.badge, TransportBadge::Matrix);

    let feed = world.activity_feed(12);
    assert!(!feed.is_empty());
    assert_eq!(feed[0].who, "Alice");
}

#[test]
fn taking_the_server_down_puts_both_devices_offline() {
    let mut world = DemoWorld::new();
    world.toggle_server();
    assert!(!world.server_is_up());
    assert!(!world.alice.is_online());
    assert!(!world.bob.is_online());
    world.toggle_server();
    assert!(world.server_is_up());
    assert!(world.alice.is_online());
    assert!(world.bob.is_online());
    assert_eq!(world.contacts().len(), 1);
    assert_eq!(world.contacts()[0].display_name, "Bob");
}

#[test]
fn a_message_id_timestamp_is_its_compose_time() {
    let id = MessageId::from_parts(5_000, 1);
    assert_eq!(id.timestamp_ms(), 5_000);
}

#[test]
fn white_space_is_trimmed_at_both_ends_only() {
    assert_eq!(trim_white_space("\u{3000} x  y\t\n"), "x  y");
    assert_eq!(trim_white_space(" \u{2003} "), "");
    assert_eq!(trim_white_space("plain"), "plain");
}

#[test]
fn the_composer_sends_nothing_for_a_blank_draft() {
    assert_eq!(composer_submission("  see you  "), Some("see you".to_owned()));
    assert_eq!(composer_submission(" \t "), None);
}

#[test]
fn the_panel_sends_a_placeholder_for_a_blank_draft() {
    assert_eq!(panel_message("   "), DEFAULT_MESSAGE_PLACEHOLDER);
    assert_eq!(panel_message(" hello "), "hello");
}

#[test]
fn the_first_segment_counts_the_trailer() {
    assert_eq!(sms_chars_left("hello"), 160 - 5 - TRAILER_CHARS as isize);
    assert_eq!(sms_chars_left(""), 160 - TRAILER_CHARS as isize);
    assert!(sms_chars_left(&"x".repeat(200)) < 0);
}

#[test]
fn the_activity_feed_merges_both_devices_newest_first() {
    let mut world = parakeet::demo::DemoWorld::new();
    world.send(parakeet::demo::Side::Alice, "first", true);
    world.send(parakeet::demo::Side::Bob, "second", true);
    let feed = world.activity_feed(12);
    assert!(feed.iter().any(|line| line.who == "Alice"));
    assert!(feed.iter().any(|line| line.who == "Bob"));
    for pair in feed.windows(2) {
        assert!(pair[0].ts >= pair[1].ts);
    }
}

#[test]
fn toggling_the_server_flips_it() {
    let mut world = parakeet::demo::DemoWorld::new();
    assert!(world.server_is_up());
    world.toggle_server();
    assert!(!world.server_is_up());
    world.toggle_server();
    assert!(world.server_is_up());
}

#[test]
fn the_demo_world_starts_online_with_nothing_stored() {
    let world = DemoWorld::new();
    assert!(world.alice.is_online());
    assert!(world.bob.is_online());
    assert!(world.server_is_up());
    assert_eq!(world.event_count(), 0);
    assert!(world.alice.messages(&world.bob.me).is_empty());
    assert!(world.bob.messages(&world.alice.me).is_empty());
    assert!(world.sms_storage(Side::Alice).is_empty());
    assert!(world.sms_storage(Side::Bob).is_empty());
    assert!(world.activity_feed(12).is_empty());
}

#[test]
fn the_panel_sends_the_placeholder_for_a_blank_draft() {
    let mut world = DemoWorld::new();
    world.panel_send(Side::Alice, "   ", true);
    let bob_view = world.bob.messages(&world.alice.me);
    assert_eq!(bob_view.len(), 1);
    assert_eq!(bob_view[0].body, DEFAULT_MESSAGE_PLACEHOLDER);
    let alice_view = world.alice.messages(&world.bob.me);
    assert_eq!(alice_view.len(), 1);
    assert_eq!(alice_view[0].body, DEFAULT_MESSAGE_PLACEHOLDER);
}

#[test]
fn the_panel_leaves_the_peer_alone_without_auto_sync() {
    let mut world = DemoWorld::new();
    world.panel_send(Side::Bob, "  hi there ", false);
    assert!(world.alice.messages(&world.bob.me).is_empty());
    assert_eq!(world.event_count(), 1);
    world.sync(Side::Alice);
    let alice_view = world.alice.messages(&world.bob.me);
    assert_eq!(alice_view.len(), 1);
    assert_eq!(alice_view[0].body, "hi there");
}

#[test]
fn toggling_a_device_twice_brings_it_back_online() {
    let mut world = DemoWorld::new();
    world.toggle_online(Side::Bob, true);
    assert!(!world.bob.is_online());
    assert!(world.alice.is_online());
    world.toggle_online(Side::Bob, true);
    assert!(world.bob.is_online());
    assert!(world.alice.is_online());
}

#[test]
fn repeated_demo_sends_show_each_message_once() {
    let mut world = DemoWorld::new();
    world.send(Side::Alice, "one", true);
    world.toggle_online(Side::Alice, true);
    world.send(Side::Alice, "two", true);
    world.toggle_online(Side::Alice, true);
    world.send(Side::Bob, "three", true);
    for side in [Side::Alice, Side::Bob] {
        let view = side.device(&world).messages(&side.other(&world).me);
        assert_eq!(view.len(), 3);
        for (i, a) in view.iter().enumerate() {
            for b in view.iter().skip(i + 1) {
                assert_ne!(a.id, b.id);
            }
        }
    }
}

#[test]
fn an_entry_past_its_sms_attempts_is_abandoned() {
    let id = MessageId::from_parts(5_000, 9);
    let mut entry = OutboxEntry::new(
        id,
        ConversationId::new("bob"),
        PeerId::new("bob"),
        "late".to_owned(),
        5_000,
    );
    entry.matrix = TransportState::Failed;
    entry.sms = TransportState::Failed;
    entry.sms_attempts = 7;
    let mut store = MemoryStore::new();
    store.enqueue(entry);
    let mut c: TestClient = Client::new(ClientParts {
        me: PeerId::new("alice"),
        store,
        net: MemoryConnectivity::new(NetStatus::Offline),
        ids: SequentialIdGen::new(7),
        directory: MemoryDirectory::new(vec![Contact::new(
            "bob",
            "Bob",
            "@bob:matrix.org",
            "+33600000002",
        )]),
    });
    let mut homeserver = FakeHomeserver::new();
    let mut carrier = FakeSmsNetwork::new();
    let mut matrix = homeserver.connection("@alice:matrix.org", 6_000);
    let mut sms = carrier.line("+33600000001", 6_000);
    let report = c.pump(&mut matrix, &mut sms, 6_000);
    assert_eq!(report.failed, 1);
    assert_eq!(report.fell_back_to_sms, 0);
    assert!(c.store().outbox().is_empty());
}

#[test]
fn the_panel_feed_lists_alice_then_bob() {
    let mut world = DemoWorld::new();
    world.send(Side::Bob, "first", true);
    world.send(Side::Alice, "second", true);
    let feed = world.panel_activity_feed(12);
    assert!(!feed.is_empty());
    let first_bob = feed.iter().position(|line| line.who == "Bob").unwrap();
    assert!(feed[..first_bob].iter().all(|line| line.who == "Alice"));
    assert!(feed[first_bob..].iter().all(|line| line.who == "Bob"));
    assert!(first_bob > 0);
}
