use parakeet::activity::{Activity, ActivityEntry, ActivityLog, CAPACITY};
use parakeet::clock::ManualClock;
use parakeet::id::{MessageId, ShortTag};
use parakeet::peer::SmsRowId;

#[test]
fn the_log_keeps_the_newest_entries() {
    let clock = ManualClock::new(0);
    let mut log = ActivityLog::new();
    for i in 0..CAPACITY + 10 {
        log.record(
            clock.read(),
            Activity::ReceivedMatrix {
                tag: ShortTag::from_u64(i as u64),
            },
        );
    }
    let entries = log.entries();
    assert_eq!(entries.len(), CAPACITY);
    assert_eq!(
        entries[0].activity,
        Activity::ReceivedMatrix {
            tag: ShortTag::from_u64(10)
        }
    );
}

#[test]
fn recent_returns_newest_first() {
    let clock = ManualClock::new(0);
    let mut log = ActivityLog::new();
    for i in 0..3 {
        log.record(
            clock.read(),
            Activity::ReceivedMatrix {
                tag: ShortTag::from_u64(i),
            },
        );
    }
    assert_eq!(
        log.recent(2)
            .into_iter()
            .map(|entry| entry.activity)
            .collect::<Vec<_>>(),
        vec![
            Activity::ReceivedMatrix {
                tag: ShortTag::from_u64(2)
            },
            Activity::ReceivedMatrix {
                tag: ShortTag::from_u64(1)
            },
        ]
    );
}

#[test]
fn summaries_read_as_sentences() {
    let id = MessageId::from_parts(1, 5);
    assert_eq!(
        Activity::Composed { id, body: "hi".into() }.summary(),
        "composed \"hi\" as 0000000000005"
    );
    assert_eq!(Activity::SentViaMatrix { id }.summary(), "sent 0000000000005 over matrix");
    assert_eq!(
        Activity::FellBackToSms { id, reason: "matrix unavailable".into() }.summary(),
        "fell back to sms for 0000000000005 (matrix unavailable)"
    );
    assert_eq!(
        Activity::Backfilled { id }.summary(),
        "backfilled 0000000000005 to matrix under its original id"
    );
    assert_eq!(
        Activity::SendFailed { id, reason: "no".into() }.summary(),
        "gave up on 0000000000005: no"
    );
    assert_eq!(
        Activity::ReceivedSms { tag: ShortTag::from_u64(1), from_app: true }.summary(),
        "received sms carrying id 0000000000001"
    );
    assert_eq!(
        Activity::ReceivedSms { tag: ShortTag::from_u64(1), from_app: false }.summary(),
        "received a plain sms with no id"
    );
    assert_eq!(
        Activity::ReceivedMatrix { tag: ShortTag::from_u64(1) }.summary(),
        "received matrix event for 0000000000001"
    );
    assert_eq!(
        Activity::Superseded { id, dropped_row: SmsRowId::new("sms-1") }.summary(),
        "matrix event superseded the sms for 0000000000005 — deleted row sms-1"
    );
    assert_eq!(
        Activity::SupersedeIncomplete { id, reason: "busy".into() }.summary(),
        "kept the matrix event for 0000000000005 but could not delete the sms: busy"
    );
    assert_eq!(
        ActivityEntry { ts: 3, activity: Activity::Ignored { tag: ShortTag::from_u64(2) } }.summary(),
        "ignored a duplicate of 0000000000002"
    );
}

#[test]
fn recent_is_bounded_by_what_was_recorded_and_clear_empties() {
    let mut log = ActivityLog::new();
    log.record(7, Activity::ReceivedMatrix { tag: ShortTag::from_u64(0) });
    let recent = log.recent(10);
    assert_eq!(recent.len(), 1);
    assert_eq!(recent[0].ts, 7);
    log.clear();
    assert!(log.entries().is_empty());
}
