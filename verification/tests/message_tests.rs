use parakeet::id::MessageId;
use parakeet::message::{
    DeliverySet, Direction, MatrixDelivery, Message, MessageState, SmsDelivery, SmsLocalCopy,
    Transport,
};
use parakeet::peer::{ConversationId, PeerId, SmsRowId};

fn message(delivery: DeliverySet) -> Message {
    let id = MessageId::from_parts(1_000, 7);
    Message {
        id,
        tag: id.short_tag(),
        conversation: ConversationId::new("bob"),
        author: PeerId::new("bob"),
        direction: Direction::Incoming,
        body: "hi".into(),
        origin_ts: 1_000,
        delivery,
        state: MessageState::Delivered,
    }
}

fn matrix() -> MatrixDelivery {
    MatrixDelivery {
        event_id: "$evt".into(),
        server_ts: 2_000,
    }
}

fn sms(local_copy: SmsLocalCopy) -> SmsDelivery {
    SmsDelivery {
        row: SmsRowId::new("row-1"),
        ts: 1_000,
        local_copy,
    }
}

#[test]
fn matrix_outranks_sms_when_both_are_present() {
    let m = message(DeliverySet {
        matrix: Some(matrix()),
        sms: Some(sms(SmsLocalCopy::Removed)),
    });
    assert_eq!(m.canonical_transport(), Some(Transport::Matrix));
    assert!(m.was_reconciled());
}

#[test]
fn sms_is_canonical_on_its_own() {
    let m = message(DeliverySet::sms_only(sms(SmsLocalCopy::Present)));
    assert_eq!(m.canonical_transport(), Some(Transport::Sms));
    assert!(!m.was_reconciled());
    assert!(m.has_local_sms_copy());
}

#[test]
fn a_pending_message_has_no_canonical_transport() {
    let m = message(DeliverySet::default());
    assert_eq!(m.canonical_transport(), None);
    assert!(m.delivery.is_empty());
}

#[test]
fn a_removed_row_no_longer_counts_as_a_local_copy() {
    let m = message(DeliverySet {
        matrix: Some(matrix()),
        sms: Some(sms(SmsLocalCopy::Removed)),
    });
    assert!(!m.has_local_sms_copy());
}

#[test]
fn matrix_alone_is_canonical_and_not_reconciled() {
    let m = message(DeliverySet::matrix_only(matrix()));
    assert_eq!(m.canonical_transport(), Some(Transport::Matrix));
    assert!(!m.was_reconciled());
    assert!(!m.has_local_sms_copy());
    assert!(!m.delivery.is_empty());
}

#[test]
fn a_cloned_message_is_equal() {
    let m = message(DeliverySet::sms_only(sms(SmsLocalCopy::Present)));
    assert_eq!(m.clone(), m);
}
