use parakeet::id::{MessageId, ShortTag};
use parakeet::message::{
    DeliverySet, Direction, MatrixDelivery, Message, MessageState, SmsDelivery, SmsLocalCopy,
};
use parakeet::peer::{ConversationId, PeerId, SmsRowId};
use parakeet::reconcile::{reconcile, Incoming, IncomingMatrix, IncomingSms, Reconciliation};

fn conversation() -> ConversationId {
    ConversationId::new("bob")
}

fn tag() -> ShortTag {
    ShortTag::from_u64(0xDEAD_BEEF_CAFE_F00D)
}

fn local_id() -> MessageId {
    MessageId::from_parts(9_000, 1)
}

fn matrix_delivery() -> MatrixDelivery {
    MatrixDelivery {
        event_id: "$evt".into(),
        server_ts: 9_000,
    }
}

fn sms_delivery() -> SmsDelivery {
    SmsDelivery {
        row: SmsRowId::new("row-1"),
        ts: 1_000,
        local_copy: SmsLocalCopy::Present,
    }
}

fn incoming_matrix() -> Incoming {
    Incoming::Matrix(IncomingMatrix {
        conversation: conversation(),
        author: PeerId::new("bob"),
        body: "hi".into(),
        origin_ts: 1_000,
        tag: tag(),
        delivery: matrix_delivery(),
    })
}

fn incoming_sms() -> Incoming {
    Incoming::Sms(IncomingSms {
        conversation: conversation(),
        author: PeerId::new("bob"),
        body: "hi".into(),
        origin_ts: 1_000,
        tag: tag(),
        delivery: sms_delivery(),
    })
}

fn stored(delivery: DeliverySet) -> Message {
    Message {
        id: MessageId::from_parts(1_000, 42),
        tag: tag(),
        conversation: conversation(),
        author: PeerId::new("bob"),
        direction: Direction::Incoming,
        body: "hi".into(),
        origin_ts: 1_000,
        delivery,
        state: MessageState::Delivered,
    }
}

#[test]
fn an_unknown_tag_inserts_a_new_message() {
    let r = reconcile(&incoming_sms(), None, local_id(), Direction::Incoming);
    let Reconciliation::Insert(m) = r else {
        panic!("expected Insert, got {r:?}");
    };
    assert_eq!(m.id, local_id());
    assert_eq!(m.tag, tag());
    assert_eq!(m.body, "hi");
    assert_eq!(m.delivery.sms.map(|s| s.row), Some(SmsRowId::new("row-1")));
}

#[test]
fn matrix_after_sms_supersedes_and_drops_the_row() {
    let known = stored(DeliverySet::sms_only(sms_delivery()));
    let r = reconcile(
        &incoming_matrix(),
        Some(&known),
        local_id(),
        Direction::Incoming,
    );
    assert_eq!(
        r,
        Reconciliation::Supersede {
            keep: known.id,
            matrix: matrix_delivery(),
            drop_sms: SmsRowId::new("row-1"),
        }
    );
}

#[test]
fn sms_after_matrix_attaches_and_asks_for_the_row_to_go() {
    let known = stored(DeliverySet::matrix_only(matrix_delivery()));
    let r = reconcile(&incoming_sms(), Some(&known), local_id(), Direction::Incoming);
    let Reconciliation::AttachSms { keep, sms } = r else {
        panic!("expected AttachSms, got {r:?}");
    };
    assert_eq!(keep, known.id);
    assert_eq!(sms.local_copy, SmsLocalCopy::Removed);
    assert_eq!(sms.row, SmsRowId::new("row-1"));
}

#[test]
fn a_repeated_matrix_event_is_ignored() {
    let known = stored(DeliverySet::matrix_only(matrix_delivery()));
    let r = reconcile(
        &incoming_matrix(),
        Some(&known),
        local_id(),
        Direction::Incoming,
    );
    assert_eq!(r, Reconciliation::Ignore);
}

#[test]
fn a_repeated_sms_is_ignored() {
    let known = stored(DeliverySet::sms_only(sms_delivery()));
    let r = reconcile(&incoming_sms(), Some(&known), local_id(), Direction::Incoming);
    assert_eq!(r, Reconciliation::Ignore);
}

#[test]
fn a_reconciled_message_ignores_further_arrivals_on_both_transports() {
    let known = stored(DeliverySet {
        matrix: Some(matrix_delivery()),
        sms: Some(SmsDelivery {
            local_copy: SmsLocalCopy::Removed,
            ..sms_delivery()
        }),
    });
    for incoming in [incoming_matrix(), incoming_sms()] {
        let r = reconcile(&incoming, Some(&known), local_id(), Direction::Incoming);
        assert_eq!(r, Reconciliation::Ignore);
    }
}

#[test]
fn a_sync_echo_attaches_to_our_own_pending_message() {
    let mut pending = stored(DeliverySet::default());
    pending.direction = Direction::Outgoing;
    pending.state = MessageState::Pending;
    let r = reconcile(
        &incoming_matrix(),
        Some(&pending),
        local_id(),
        Direction::Outgoing,
    );
    assert_eq!(
        r,
        Reconciliation::AttachMatrix {
            keep: pending.id,
            matrix: matrix_delivery(),
        }
    );
}

#[test]
fn the_same_tag_in_another_thread_is_a_different_message() {
    let mut elsewhere = stored(DeliverySet::sms_only(sms_delivery()));
    elsewhere.conversation = ConversationId::new("carol");
    let r = reconcile(
        &incoming_matrix(),
        Some(&elsewhere),
        local_id(),
        Direction::Incoming,
    );
    assert!(matches!(r, Reconciliation::Insert(_)));
}

#[test]
fn a_plain_sms_with_a_minted_tag_just_inserts() {
    let Incoming::Sms(mut s) = incoming_sms() else {
        unreachable!()
    };
    s.tag = ShortTag::from_u64(0x1234_5678_9ABC_DEF0);
    let r = reconcile(&Incoming::Sms(s), None, local_id(), Direction::Incoming);
    assert!(matches!(r, Reconciliation::Insert(_)));
}

#[test]
fn an_sms_for_a_pending_message_keeps_its_row() {
    let pending = stored(DeliverySet::default());
    let r = reconcile(&incoming_sms(), Some(&pending), local_id(), Direction::Incoming);
    let Reconciliation::AttachSms { keep, sms } = r else {
        panic!("expected AttachSms, got {r:?}");
    };
    assert_eq!(keep, pending.id);
    assert_eq!(sms.local_copy, SmsLocalCopy::Present);
}

#[test]
fn a_new_matrix_message_is_stored_as_delivered_over_matrix() {
    let r = reconcile(&incoming_matrix(), None, local_id(), Direction::Outgoing);
    let Reconciliation::Insert(m) = r else {
        panic!("expected Insert, got {r:?}");
    };
    assert_eq!(m.direction, Direction::Outgoing);
    assert_eq!(m.delivery.matrix, Some(matrix_delivery()));
    assert!(m.delivery.sms.is_none());
    assert_eq!(m.state, MessageState::Delivered);
    assert_eq!(incoming_matrix().tag(), tag());
    assert_eq!(incoming_sms().conversation(), &conversation());
}
