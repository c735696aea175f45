use parakeet::id::MessageId;
use parakeet::outbox::{
    backoff_ms, next_action, NetStatus, OutboxEntry, SendDecision, TransportState,
    MAX_SMS_ATTEMPTS, OFFLINE_POLL_MS,
};
use parakeet::peer::{ConversationId, PeerId};

fn entry() -> OutboxEntry {
    OutboxEntry::new(
        MessageId::from_parts(1_000, 7),
        ConversationId::new("bob"),
        PeerId::new("bob"),
        "hi".into(),
        1_000,
    )
}

#[test]
fn online_sends_over_matrix() {
    assert_eq!(
        next_action(&entry(), NetStatus::Online, 1_000),
        SendDecision::TryMatrix
    );
}

#[test]
fn offline_falls_back_without_even_trying_matrix() {
    assert_eq!(
        next_action(&entry(), NetStatus::Offline, 1_000),
        SendDecision::FallbackToSms
    );
}

#[test]
fn a_matrix_failure_falls_back_rather_than_retrying() {
    let mut e = entry();
    e.begin_matrix();
    e.matrix_failed(1_000);
    assert_eq!(
        next_action(&e, NetStatus::Online, 1_000),
        SendDecision::FallbackToSms
    );
}

#[test]
fn an_in_flight_attempt_is_left_alone() {
    let mut e = entry();
    e.begin_matrix();
    assert_eq!(
        next_action(&e, NetStatus::Online, 1_000),
        SendDecision::Wait { retry_after_ms: 0 }
    );
}

#[test]
fn after_falling_back_the_entry_survives_and_waits_for_connectivity() {
    let mut e = entry();
    e.begin_matrix();
    e.matrix_failed(1_000);
    e.begin_sms();
    e.sms_succeeded();

    assert_eq!(
        next_action(&e, NetStatus::Offline, 2_000),
        SendDecision::Wait {
            retry_after_ms: OFFLINE_POLL_MS
        }
    );
}

#[test]
fn coming_back_online_backfills_matrix() {
    let mut e = entry();
    e.begin_matrix();
    e.matrix_failed(1_000);
    e.begin_sms();
    e.sms_succeeded();

    let backoff = backoff_ms(1);
    assert_eq!(
        next_action(&e, NetStatus::Online, 1_000),
        SendDecision::Wait {
            retry_after_ms: backoff
        }
    );

    assert_eq!(
        next_action(&e, NetStatus::Online, 1_000 + backoff),
        SendDecision::BackfillMatrix
    );
}

#[test]
fn the_backfill_id_is_the_id_that_went_out_over_sms() {
    let e = entry();
    let sent_id = e.id;
    let mut e = e;
    e.begin_matrix();
    e.matrix_failed(0);
    e.begin_sms();
    e.sms_succeeded();
    assert_eq!(e.id, sent_id, "the id must survive the fallback untouched");
}

#[test]
fn matrix_success_retires_the_entry() {
    let mut e = entry();
    e.begin_matrix();
    e.matrix_succeeded();
    assert_eq!(next_action(&e, NetStatus::Online, 1_000), SendDecision::Done);
}

#[test]
fn a_backfilled_entry_retires_even_though_sms_also_carried_it() {
    let mut e = entry();
    e.begin_matrix();
    e.matrix_failed(0);
    e.begin_sms();
    e.sms_succeeded();
    e.begin_matrix();
    e.matrix_succeeded();
    assert_eq!(next_action(&e, NetStatus::Online, 9_999), SendDecision::Done);
    assert!(e.reached_recipient());
}

#[test]
fn a_degraded_link_still_tries_matrix_first() {
    assert_eq!(
        next_action(&entry(), NetStatus::Degraded, 1_000),
        SendDecision::TryMatrix
    );
}

#[test]
fn repeated_sms_failure_is_abandoned() {
    let mut e = entry();
    for _ in 0..MAX_SMS_ATTEMPTS {
        assert_eq!(
            next_action(&e, NetStatus::Offline, 1_000),
            SendDecision::FallbackToSms
        );
        e.begin_sms();
        e.sms_failed();
    }
    assert_eq!(
        next_action(&e, NetStatus::Offline, 1_000),
        SendDecision::Abandon
    );
}

#[test]
fn backoff_grows_then_caps() {
    assert_eq!(backoff_ms(0), 1_000);
    assert_eq!(backoff_ms(1), 2_000);
    assert_eq!(backoff_ms(2), 4_000);
    assert_eq!(backoff_ms(50), 60_000);
}

// Further cases.

#[test]
fn backoff_values_between() {
    assert_eq!(backoff_ms(5), 32_000);
    assert_eq!(backoff_ms(6), 60_000);
    assert_eq!(backoff_ms(u32::MAX), 60_000);
}

#[test]
fn a_failed_matrix_attempt_sets_the_next_attempt_time() {
    let mut e = entry();
    e.begin_matrix();
    e.begin_matrix();
    e.matrix_failed(10_000);
    assert_eq!(e.matrix, TransportState::Failed);
    assert_eq!(e.matrix_attempts, 2);
    assert_eq!(e.next_matrix_attempt_ms, 14_000);
    let mut late = entry();
    late.begin_matrix();
    late.matrix_failed(u64::MAX - 1);
    assert_eq!(late.next_matrix_attempt_ms, u64::MAX);
}

#[test]
fn a_degraded_link_backfills_once_the_backoff_passed() {
    let mut e = entry();
    e.begin_matrix();
    e.matrix_failed(0);
    e.begin_sms();
    e.sms_succeeded();
    assert_eq!(next_action(&e, NetStatus::Degraded, 2_000), SendDecision::BackfillMatrix);
    assert_eq!(
        next_action(&e, NetStatus::Degraded, 500),
        SendDecision::Wait { retry_after_ms: 1_500 }
    );
}

#[test]
fn an_sms_in_flight_is_left_alone_too() {
    let mut e = entry();
    e.begin_sms();
    assert_eq!(e.sms_attempts, 1);
    assert_eq!(next_action(&e, NetStatus::Offline, 0), SendDecision::Wait { retry_after_ms: 0 });
    assert!(!e.reached_recipient());
}
