use parakeet::id::{MessageId, ShortTag};
use parakeet::message::{
    DeliverySet, Direction, MatrixDelivery, Message, MessageState, SmsDelivery, SmsLocalCopy,
};
use parakeet::outbox::{OutboxEntry, TransportState};
use parakeet::peer::{ConversationId, PeerId, SmsRowId};
use parakeet::store::MemoryStore;

fn message(id: u128, conversation: &str, origin_ts: u64) -> Message {
    let id = MessageId::from_parts(origin_ts, id);
    Message {
        id,
        tag: id.short_tag(),
        conversation: ConversationId::new(conversation),
        author: PeerId::new(conversation),
        direction: Direction::Incoming,
        body: format!("message {origin_ts}"),
        origin_ts,
        delivery: DeliverySet::default(),
        state: MessageState::Delivered,
    }
}

#[test]
fn a_message_is_findable_by_id_and_by_tag() {
    let mut store = MemoryStore::new();
    let m = message(1, "bob", 1_000);
    store.upsert(m.clone());

    assert_eq!(store.get(&m.id), Some(m.clone()));
    assert_eq!(store.find_by_tag(&m.conversation, m.tag), Some(m));
}

#[test]
fn a_tag_from_another_conversation_does_not_match() {
    let mut store = MemoryStore::new();
    let m = message(1, "bob", 1_000);
    store.upsert(m.clone());
    assert_eq!(store.find_by_tag(&ConversationId::new("carol"), m.tag), None);
}

#[test]
fn threads_are_ordered_by_compose_time_not_arrival() {
    let mut store = MemoryStore::new();
    let late_arrival = {
        let mut m = message(1, "bob", 1_000);
        m.delivery = DeliverySet::matrix_only(MatrixDelivery {
            event_id: "$late".into(),
            server_ts: 9_999_999,
        });
        m
    };
    store.upsert(message(2, "bob", 3_000));
    store.upsert(late_arrival);
    store.upsert(message(3, "bob", 2_000));

    let bodies: Vec<_> = store
        .thread(&ConversationId::new("bob"))
        .into_iter()
        .map(|m| m.origin_ts)
        .collect();
    assert_eq!(bodies, vec![1_000, 2_000, 3_000]);
}

#[test]
fn upserting_replaces_rather_than_duplicates() {
    let mut store = MemoryStore::new();
    let mut m = message(1, "bob", 1_000);
    store.upsert(m.clone());

    m.delivery = DeliverySet::sms_only(SmsDelivery {
        row: SmsRowId::new("row-1"),
        ts: 1_000,
        local_copy: SmsLocalCopy::Present,
    });
    store.upsert(m.clone());

    assert_eq!(store.len(), 1);
    assert_eq!(store.thread(&m.conversation).len(), 1);
    assert!(store.get(&m.id).unwrap().has_local_sms_copy());
}

#[test]
fn conversations_are_listed_most_recent_first() {
    let mut store = MemoryStore::new();
    store.upsert(message(1, "bob", 1_000));
    store.upsert(message(2, "carol", 5_000));
    store.upsert(message(3, "dave", 3_000));

    assert_eq!(
        store.conversations(),
        vec![
            ConversationId::new("carol"),
            ConversationId::new("dave"),
            ConversationId::new("bob"),
        ]
    );
}

#[test]
fn the_outbox_keeps_insertion_order_and_deduplicates() {
    let mut store = MemoryStore::new();
    let entries: Vec<_> = (0..3)
        .map(|i| {
            OutboxEntry::new(
                MessageId::from_parts(1_000 + i, 7),
                ConversationId::new("bob"),
                PeerId::new("bob"),
                format!("m{i}"),
                1_000 + i,
            )
        })
        .collect();
    for e in &entries {
        store.enqueue(e.clone());
    }
    store.enqueue(entries[0].clone());

    let queued: Vec<_> = store.outbox().into_iter().map(|e| e.body).collect();
    assert_eq!(queued, vec!["m0", "m1", "m2"]);
}

#[test]
fn updating_an_entry_preserves_its_position() {
    let mut store = MemoryStore::new();
    let mut first = OutboxEntry::new(
        MessageId::from_parts(1_000, 7),
        ConversationId::new("bob"),
        PeerId::new("bob"),
        "first".into(),
        1_000,
    );
    let second = OutboxEntry::new(
        MessageId::from_parts(2_000, 7),
        ConversationId::new("bob"),
        PeerId::new("bob"),
        "second".into(),
        2_000,
    );
    store.enqueue(first.clone());
    store.enqueue(second);

    first.begin_matrix();
    first.matrix_failed(1_000);
    store.update_outbox(first.clone());

    let queue = store.outbox();
    assert_eq!(queue[0].body, "first");
    assert_eq!(queue[0].matrix, TransportState::Failed);
}

#[test]
fn retiring_removes_only_the_named_entry() {
    let mut store = MemoryStore::new();
    let a = OutboxEntry::new(
        MessageId::from_parts(1_000, 7),
        ConversationId::new("bob"),
        PeerId::new("bob"),
        "a".into(),
        1_000,
    );
    let b = OutboxEntry::new(
        MessageId::from_parts(2_000, 7),
        ConversationId::new("bob"),
        PeerId::new("bob"),
        "b".into(),
        2_000,
    );
    store.enqueue(a.clone());
    store.enqueue(b.clone());

    store.retire(&a.id);

    assert_eq!(store.outbox().len(), 1);
    assert_eq!(store.outbox()[0].id, b.id);
}

#[test]
fn changing_a_records_tag_drops_the_stale_index_entry() {
    let mut store = MemoryStore::new();
    let mut m = message(1, "bob", 1_000);
    let old_tag = m.tag;
    store.upsert(m.clone());

    m.tag = ShortTag::from_u64(0xFFFF_FFFF_FFFF_FFFF);
    store.upsert(m.clone());

    assert_eq!(store.find_by_tag(&m.conversation, old_tag), None);
    assert_eq!(store.find_by_tag(&m.conversation, m.tag), Some(m));
}

// Further cases.

#[test]
fn ties_in_compose_time_are_ordered_by_id() {
    let mut store = MemoryStore::new();
    store.upsert(message(9, "bob", 1_000));
    store.upsert(message(3, "bob", 1_000));
    store.upsert(message(5, "carol", 1_000));
    let ids: Vec<_> = store
        .thread(&ConversationId::new("bob"))
        .into_iter()
        .map(|m| m.id)
        .collect();
    assert_eq!(ids, vec![MessageId::from_parts(1_000, 3), MessageId::from_parts(1_000, 9)]);
}

#[test]
fn conversations_with_equal_times_are_in_name_order() {
    let mut store = MemoryStore::new();
    store.upsert(message(1, "dave", 2_000));
    store.upsert(message(2, "bob", 2_000));
    store.upsert(message(3, "bob", 500));
    store.upsert(message(4, "carol", 1_000));
    assert_eq!(
        store.conversations(),
        vec![
            ConversationId::new("bob"),
            ConversationId::new("dave"),
            ConversationId::new("carol"),
        ]
    );
}

#[test]
fn an_empty_store() {
    let store = MemoryStore::new();
    assert!(store.is_empty());
    assert!(store.conversations().is_empty());
    assert!(store.outbox().is_empty());
    assert_eq!(store.get(&MessageId::from_u128(1)), None);
}

#[test]
fn updating_an_entry_not_queued_adds_nothing() {
    let mut store = MemoryStore::new();
    store.update_outbox(OutboxEntry::new(
        MessageId::from_parts(1_000, 7),
        ConversationId::new("bob"),
        PeerId::new("bob"),
        "x".into(),
        1_000,
    ));
    assert!(store.outbox().is_empty());
}
