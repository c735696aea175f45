use parakeet::id::{MessageId, ShortTag};
use parakeet::message::{
    DeliverySet, Direction, MatrixDelivery, Message, MessageState, SmsDelivery, SmsLocalCopy,
};
use parakeet::peer::{ConversationId, PeerId, SmsRowId};
use parakeet::view::{MessageView, TransportBadge};

fn message(delivery: DeliverySet, state: MessageState) -> Message {
    let id = MessageId::from_parts(1_000, 7);
    Message {
        id,
        tag: id.short_tag(),
        conversation: ConversationId::new("bob"),
        author: PeerId::new("bob"),
        direction: Direction::Incoming,
        body: "hi".into(),
        origin_ts: 1_000,
        delivery,
        state,
    }
}

fn matrix() -> MatrixDelivery {
    MatrixDelivery {
        event_id: "$e".into(),
        server_ts: 2_000,
    }
}

fn sms(local_copy: SmsLocalCopy) -> SmsDelivery {
    SmsDelivery {
        row: SmsRowId::new("row-1"),
        ts: 1_000,
        local_copy,
    }
}

#[test]
fn badges_follow_the_delivery_set() {
    let cases = [
        (DeliverySet::default(), TransportBadge::Pending),
        (DeliverySet::matrix_only(matrix()), TransportBadge::Matrix),
        (
            DeliverySet::sms_only(sms(SmsLocalCopy::Present)),
            TransportBadge::Sms,
        ),
        (
            DeliverySet {
                matrix: Some(matrix()),
                sms: Some(sms(SmsLocalCopy::Removed)),
            },
            TransportBadge::Reconciled,
        ),
    ];
    for (delivery, expected) in cases {
        let view = MessageView::of(&message(delivery, MessageState::Delivered));
        assert_eq!(view.badge, expected);
    }
}

#[test]
fn a_failed_message_shows_its_reason_whatever_the_delivery_set_says() {
    let view = MessageView::of(&message(
        DeliverySet::default(),
        MessageState::Failed("no cell service".into()),
    ));
    assert_eq!(view.badge, TransportBadge::Failed);
    assert_eq!(view.failure.as_deref(), Some("no cell service"));
}

#[test]
fn the_view_carries_the_tag_in_its_sms_form() {
    let m = message(DeliverySet::default(), MessageState::Pending);
    let view = MessageView::of(&m);
    assert_eq!(view.tag, m.tag.to_base32());
    assert_eq!(view.tag.len(), ShortTag::from_u64(0).to_base32().len());
}

#[test]
fn badge_labels_and_classes() {
    assert_eq!(TransportBadge::Pending.label(), "pending");
    assert_eq!(TransportBadge::Matrix.label(), "matrix");
    assert_eq!(TransportBadge::Sms.label(), "sms");
    assert_eq!(TransportBadge::Reconciled.label(), "reconciled");
    assert_eq!(TransportBadge::Failed.css_class(), "failed");
}

#[test]
fn a_view_copies_the_message_fields() {
    let m = message(DeliverySet::matrix_only(matrix()), MessageState::Sent);
    let view = MessageView::of(&m);
    assert_eq!(view.id, m.id);
    assert_eq!(view.body, "hi");
    assert_eq!(view.origin_ts, 1_000);
    assert_eq!(view.direction, Direction::Incoming);
    assert_eq!(view.failure, None);
    assert_eq!(view.tag, "0000000000007");
}
