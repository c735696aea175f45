use parakeet::async_state::AsyncState;
use parakeet::clock::{Clock, ManualClock, SystemClock};
use parakeet::connectivity::MemoryConnectivity;
use parakeet::error::TransportError;
use parakeet::id::MessageId;
use parakeet::outbox::NetStatus;
use parakeet::schema::{txn_id_for, MessageContent, Via, TXN_PREFIX};

#[test]
fn async_state_disallow_absurd_states() {
    let s: AsyncState<u8, String> = AsyncState::Loading;
    assert!(s.is_loading());
    assert!(s.ready().is_none());

    let s = AsyncState::<u8, String>::from_result(Ok(7));
    assert_eq!(s.ready(), Some(&7));
    assert!(!s.is_loading());
}

#[test]
fn a_failed_result_is_failed() {
    let s = AsyncState::<u8, String>::from_result(Err("no".into()));
    assert_eq!(s, AsyncState::Failed("no".to_string()));
    assert!(AsyncState::<u8, String>::default() == AsyncState::Idle);
}

fn id() -> MessageId {
    MessageId::from_parts(1_754_800_000_000, 0xDEAD_BEEF_CAFE_F00D_1234)
}

#[test]
fn a_malformed_id_is_treated_as_absent() {
    let mut content = MessageContent::new("hi", id(), 42, Via::Direct);
    content.parakeet_id = Some("not-an-id".to_owned());
    assert_eq!(content.message_id(), None);
}

#[test]
fn origin_ts_beats_the_server_timestamp() {
    let content = MessageContent::new("hi", id(), 1_000, Via::SmsFallback);
    assert_eq!(content.origin_ts_or(9_999_999), 1_000);
}

#[test]
fn the_transaction_id_is_stable_for_an_id() {
    assert_eq!(txn_id_for(id()), txn_id_for(id()));
    assert!(txn_id_for(id()).starts_with(TXN_PREFIX));
    assert_ne!(txn_id_for(id()), txn_id_for(MessageId::from_parts(1, 1)));
}

#[test]
fn new_content_carries_id_time_and_marker() {
    let content = MessageContent::new("hi", id(), 42, Via::SmsFallback);
    assert_eq!(content.msgtype, "m.text");
    assert_eq!(content.body, "hi");
    assert_eq!(content.message_id(), Some(id()));
    assert_eq!(content.via(), Via::SmsFallback);
    assert_eq!(content.parakeet_via.as_deref(), Some("sms_fallback"));
    let direct = MessageContent::new("hi", id(), 42, Via::Direct);
    assert_eq!(direct.parakeet_via, None);
    assert_eq!(direct.via(), Via::Direct);
    assert_eq!(txn_id_for(MessageId::from_u128(1)), "pk-00000000000000000000000001");
}

#[test]
fn content_from_another_client_falls_back_to_server_time() {
    let content = MessageContent {
        msgtype: "m.text".into(),
        body: "sent from Element".into(),
        parakeet_id: None,
        parakeet_origin_ts: None,
        parakeet_via: Some("carrier pigeon".into()),
    };
    assert_eq!(content.message_id(), None);
    assert_eq!(content.via(), Via::Direct);
    assert_eq!(content.origin_ts_or(1_234), 1_234);
}

#[test]
fn a_manual_clock_only_moves_when_told_to() {
    let mut clock = ManualClock::new(1_000);
    assert_eq!(clock.now_ms(), 1_000);
    assert_eq!(clock.now_ms(), 1_000);
    assert_eq!(clock.advance(500), 1_500);
    assert_eq!(clock.now_ms(), 1_500);
}

#[test]
fn the_system_clock_is_after_the_epoch() {
    assert!(SystemClock.now_ms() > 1_700_000_000_000);
}

#[test]
fn every_status_round_trips() {
    for status in [NetStatus::Online, NetStatus::Offline, NetStatus::Degraded] {
        let net = MemoryConnectivity::new(status);
        assert_eq!(net.status(), status);
    }
}

#[test]
fn a_transport_observation_updates_the_flag() {
    let mut net = MemoryConnectivity::default();
    net.observe(NetStatus::Offline);
    assert_eq!(net.status(), NetStatus::Offline);
}

#[test]
fn transport_errors_read_as_text() {
    let e = TransportError::unreachable("no cell service");
    assert!(e.is_recoverable());
    assert_eq!(e.text(), "unreachable: no cell service");
    let r = TransportError::rejected("no phone number for this contact");
    assert!(!r.is_recoverable());
    assert_eq!(r.text(), "rejected: no phone number for this contact");
    assert_eq!(TransportError::Other("boom".into()).text(), "boom");
}
