use parakeet::id::MessageId;
use parakeet::matrix_fake::FakeHomeserver;
use parakeet::peer::{ConversationId, MatrixUserId, PhoneNumber, SmsRowId};
use parakeet::schema::{txn_id_for, Via};
use parakeet::sms_fake::FakeSmsNetwork;
use parakeet::transport::{MatrixSendRequest, MatrixTransport, SmsTransport};

const ALICE: &str = "@alice:matrix.org";
const BOB: &str = "@bob:matrix.org";

fn request(id: MessageId, to: &str, via_sms_fallback: bool) -> MatrixSendRequest {
    MatrixSendRequest {
        conversation: ConversationId::new(to),
        to: MatrixUserId::new(to),
        body: "hi".into(),
        message_id: id,
        origin_ts: 1_000,
        via_sms_fallback,
        txn_id: txn_id_for(id),
    }
}

fn pair() -> FakeHomeserver {
    let mut hs = FakeHomeserver::new();
    hs.client(ALICE, 0);
    hs.client(BOB, 0);
    hs
}

#[test]
fn a_sent_event_reaches_the_other_client() {
    let mut hs = pair();
    let id = MessageId::from_parts(1_000, 7);
    hs.client(ALICE, 5).send(request(id, BOB, false)).unwrap();

    let inbound = hs.client(BOB, 5).drain_inbound();
    assert_eq!(inbound.len(), 1);
    let content = inbound[0].content.clone().unwrap();
    assert_eq!(content.body, "hi");
    assert_eq!(content.message_id(), Some(id));
    assert_eq!(inbound[0].sender, MatrixUserId::new(ALICE));
}

#[test]
fn the_sender_does_not_receive_its_own_echo() {
    let mut hs = pair();
    hs.client(ALICE, 5)
        .send(request(MessageId::from_parts(1_000, 7), BOB, false))
        .unwrap();
    assert!(hs.client(ALICE, 5).drain_inbound().is_empty());
}

#[test]
fn an_unreachable_homeserver_fails_recoverably() {
    let mut hs = pair();
    hs.set_reachable(false);
    let err = hs
        .client(ALICE, 5)
        .send(request(MessageId::from_parts(1_000, 7), BOB, false))
        .unwrap_err();
    assert!(err.is_recoverable(), "a fallback needs a recoverable error");
    assert_eq!(hs.event_count(), 0);
}

#[test]
fn resending_the_same_transaction_id_does_not_duplicate() {
    let mut hs = pair();
    let id = MessageId::from_parts(1_000, 7);

    let first = hs.client(ALICE, 5).send(request(id, BOB, false)).unwrap();
    let second = hs.client(ALICE, 9).send(request(id, BOB, true)).unwrap();

    assert_eq!(first.event_id, second.event_id);
    assert_eq!(hs.event_count(), 1);
    assert_eq!(hs.client(BOB, 9).drain_inbound().len(), 1);
}

#[test]
fn recovering_from_an_outage_lets_the_same_message_through() {
    let mut hs = pair();
    let id = MessageId::from_parts(1_000, 7);

    hs.set_reachable(false);
    assert!(hs.client(ALICE, 5).send(request(id, BOB, false)).is_err());

    hs.set_reachable(true);
    hs.client(ALICE, 9).send(request(id, BOB, true)).unwrap();

    let inbound = hs.client(BOB, 9).drain_inbound();
    assert_eq!(inbound.len(), 1);
    let content = inbound[0].content.clone().unwrap();
    assert_eq!(content.via(), Via::SmsFallback);
    assert_eq!(
        content.parakeet_origin_ts,
        Some(1_000),
        "a backfill keeps its compose time"
    );
}

#[test]
fn both_participants_agree_on_the_room_name() {
    let a = MatrixUserId::new("@alice:hs");
    let b = MatrixUserId::new("@bob:hs");
    assert_eq!(
        FakeHomeserver::room_for(&a, &b),
        FakeHomeserver::room_for(&b, &a)
    );
}

#[test]
fn the_room_lists_the_smaller_id_first() {
    let a = MatrixUserId::new("@alice:hs");
    let b = MatrixUserId::new("@bob:hs");
    assert_eq!(FakeHomeserver::room_for(&b, &a), "!@alice:hs~@bob:hs");
}

#[test]
fn event_ids_count_up_in_twelve_digits() {
    let mut hs = pair();
    let first = hs
        .client(ALICE, 5)
        .send(request(MessageId::from_parts(1_000, 7), BOB, false))
        .unwrap();
    let second = hs
        .client(ALICE, 6)
        .send(request(MessageId::from_parts(1_000, 8), BOB, false))
        .unwrap();
    assert_eq!(first.event_id, "$000000000000");
    assert_eq!(second.event_id, "$000000000001");
    assert_eq!(second.server_ts, 6);
    let timeline = hs.timeline();
    assert_eq!(timeline.len(), 2);
    assert_eq!(timeline[0].room, "!@alice:matrix.org~@bob:matrix.org");
}

#[test]
fn a_disconnected_user_neither_sends_nor_receives() {
    let mut hs = pair();
    hs.client(ALICE, 5)
        .send(request(MessageId::from_parts(1_000, 7), BOB, false))
        .unwrap();
    let mut bob = hs.client(BOB, 5);
    bob.set_connected(false);
    assert!(bob.drain_inbound().is_empty());
    let err = bob
        .send(request(MessageId::from_parts(1_000, 9), ALICE, false))
        .unwrap_err();
    assert!(err.is_recoverable());
    bob.set_connected(true);
    assert_eq!(bob.drain_inbound().len(), 1, "the event waited");
}

fn network() -> FakeSmsNetwork {
    let mut net = FakeSmsNetwork::new();
    net.handset("+33600000001", 0);
    net.handset("+33600000002", 0);
    net
}

#[test]
fn a_sent_message_lands_in_the_peers_inbox_and_storage() {
    let mut net = network();
    net.handset("+33600000001", 5)
        .send(&PhoneNumber::new("+33600000002"), "hello")
        .unwrap();

    let inbound = net.handset("+33600000002", 5).drain_inbound();
    assert_eq!(inbound.len(), 1);
    assert_eq!(inbound[0].text, "hello");
    assert_eq!(inbound[0].from, PhoneNumber::new("+33600000001"));
    assert_eq!(net.handset("+33600000002", 5).stored_rows().len(), 1);
}

#[test]
fn draining_is_destructive() {
    let mut net = network();
    net.handset("+33600000001", 5)
        .send(&PhoneNumber::new("+33600000002"), "hello")
        .unwrap();
    assert_eq!(net.handset("+33600000002", 5).drain_inbound().len(), 1);
    assert!(net.handset("+33600000002", 5).drain_inbound().is_empty());
}

#[test]
fn deleting_a_row_removes_it_from_storage_only_on_that_device() {
    let mut net = network();
    net.handset("+33600000001", 5)
        .send(&PhoneNumber::new("+33600000002"), "hello")
        .unwrap();
    let row = net.handset("+33600000002", 5).drain_inbound()[0].row.clone();

    net.handset("+33600000002", 5).delete_local(&row).unwrap();

    assert!(
        net.handset("+33600000002", 5).stored_rows().is_empty(),
        "the recipient's row must go"
    );
    assert_eq!(
        net.handset("+33600000001", 5).stored_rows().len(),
        1,
        "the sender keeps its own copy"
    );
}

#[test]
fn deleting_an_absent_row_succeeds() {
    let mut net = network();
    assert!(net
        .handset("+33600000002", 5)
        .delete_local(&SmsRowId::new("nope"))
        .is_ok());
}

#[test]
fn no_cell_service_fails_the_send() {
    let mut net = network();
    let mut alice = net.handset("+33600000001", 5);
    alice.set_reachable(false);
    let err = alice
        .send(&PhoneNumber::new("+33600000002"), "hello")
        .unwrap_err();
    assert!(err.is_recoverable());
    assert!(net.handset("+33600000002", 5).drain_inbound().is_empty());
}

#[test]
fn rows_are_listed_oldest_first_with_their_ids() {
    let mut net = network();
    net.handset("+33600000001", 9)
        .send(&PhoneNumber::new("+33600000002"), "later")
        .unwrap();
    net.handset("+33600000001", 3)
        .send(&PhoneNumber::new("+33600000002"), "earlier")
        .unwrap();
    let rows = net.handset("+33600000001", 9).stored_rows();
    assert_eq!(rows.len(), 2);
    assert_eq!(rows[0].text, "earlier");
    assert_eq!(rows[0].row, SmsRowId::new("sms-000000000002"));
    assert_eq!(rows[1].row, SmsRowId::new("sms-000000000000"));
    assert!(rows[0].outgoing);
    let received = net.handset("+33600000002", 9).stored_rows();
    assert_eq!(received[1].row, SmsRowId::new("sms-000000000001"));
    assert!(!received[1].outgoing);
}

#[test]
fn a_new_client_is_connected_and_keeps_what_waits() {
    let mut hs = pair();
    hs.client(ALICE, 5)
        .send(request(MessageId::from_parts(1_000, 7), BOB, false))
        .unwrap();
    hs.set_connected(&MatrixUserId::new(BOB), false);
    assert!(!hs.connection(BOB, 5).is_connected(), "the old connection stays down");
    let mut bob = hs.client(BOB, 6);
    assert!(bob.is_connected());
    assert_eq!(bob.drain_inbound().len(), 1, "the event waited");
}

#[test]
fn a_new_handset_has_service_and_keeps_its_rows() {
    let mut net = network();
    net.handset("+33600000001", 5)
        .send(&PhoneNumber::new("+33600000002"), "hello")
        .unwrap();
    net.set_reachable(&PhoneNumber::new("+33600000001"), false);
    assert!(net
        .line("+33600000001", 6)
        .send(&PhoneNumber::new("+33600000002"), "again")
        .is_err());
    let mut alice = net.handset("+33600000001", 7);
    assert_eq!(alice.stored_rows().len(), 1);
    assert!(alice
        .send(&PhoneNumber::new("+33600000002"), "once more")
        .is_ok());
}
