//! The activity log: what the client did and saw, newest last, bounded.

use vstd::prelude::*;
use crate::id::{base32_digits, tag_span, MessageId, ShortTag, SHORT_TAG_LEN};
use crate::peer::SmsRowId;

verus! {

/// Something the client did or saw.
#[derive(Debug, PartialEq, Eq)]
pub enum Activity {
    Composed { id: MessageId, body: String },
    SentViaMatrix { id: MessageId },
    FellBackToSms { id: MessageId, reason: String },
    Backfilled { id: MessageId },
    SendFailed { id: MessageId, reason: String },
    ReceivedSms { tag: ShortTag, from_app: bool },
    ReceivedMatrix { tag: ShortTag },
    Superseded { id: MessageId, dropped_row: SmsRowId },
    SupersedeIncomplete { id: MessageId, reason: String },
    Ignored { tag: ShortTag },
}

impl Clone for Activity {
    fn clone(&self) -> (r: Self)
        ensures
            r == *self,
    {
        match self {
            Activity::Composed { id, body } => Activity::Composed { id: *id, body: body.clone() },
            Activity::SentViaMatrix { id } => Activity::SentViaMatrix { id: *id },
            Activity::FellBackToSms { id, reason } => Activity::FellBackToSms {
                id: *id,
                reason: reason.clone(),
            },
            Activity::Backfilled { id } => Activity::Backfilled { id: *id },
            Activity::SendFailed { id, reason } => Activity::SendFailed {
                id: *id,
                reason: reason.clone(),
            },
            Activity::ReceivedSms { tag, from_app } => Activity::ReceivedSms {
                tag: *tag,
                from_app: *from_app,
            },
            Activity::ReceivedMatrix { tag } => Activity::ReceivedMatrix { tag: *tag },
            Activity::Superseded { id, dropped_row } => Activity::Superseded {
                id: *id,
                dropped_row: dropped_row.clone(),
            },
            Activity::SupersedeIncomplete { id, reason } => Activity::SupersedeIncomplete {
                id: *id,
                reason: reason.clone(),
            },
            Activity::Ignored { tag } => Activity::Ignored { tag: *tag },
        }
    }
}

/// A tag as written in the log: its base-32 form.
pub open spec fn tag_text(tag: ShortTag) -> Seq<char> {
    base32_digits(tag.0 as nat, SHORT_TAG_LEN as nat)
}

/// The tag of an id as written in the log.
pub open spec fn id_text(id: MessageId) -> Seq<char> {
    base32_digits((id.0 as int % tag_span()) as nat, SHORT_TAG_LEN as nat)
}

/// The one-line summary of an activity.
pub open spec fn spec_summary(a: Activity) -> Seq<char> {
    match a {
        Activity::Composed { id, body } => "composed \""@ + body@ + "\" as "@ + id_text(id),
        Activity::SentViaMatrix { id } => "sent "@ + id_text(id) + " over matrix"@,
        Activity::FellBackToSms { id, reason } => "fell back to sms for "@ + id_text(id) + " ("@
            + reason@ + ")"@,
        Activity::Backfilled { id } => "backfilled "@ + id_text(id)
            + " to matrix under its original id"@,
        Activity::SendFailed { id, reason } => "gave up on "@ + id_text(id) + ": "@ + reason@,
        Activity::ReceivedSms { tag, from_app } => if from_app {
            "received sms carrying id "@ + tag_text(tag)
        } else {
            "received a plain sms with no id"@
        },
        Activity::ReceivedMatrix { tag } => "received matrix event for "@ + tag_text(tag),
        Activity::Superseded { id, dropped_row } => "matrix event superseded the sms for "@
            + id_text(id) + " — deleted row "@ + dropped_row@,
        Activity::SupersedeIncomplete { id, reason } => "kept the matrix event for "@ + id_text(
            id,
        ) + " but could not delete the sms: "@ + reason@,
        Activity::Ignored { tag } => "ignored a duplicate of "@ + tag_text(tag),
    }
}

impl Activity {
    /// The activity as one line of text.
    pub fn summary(&self) -> (s: String)
        ensures
            s@ == spec_summary(*self),
    {
        match self {
            Activity::Composed { id, body } => {
                let t = id.short_tag().to_base32();
                let mut s = String::from_str("composed \"");
                s.append(body.as_str());
                s.append("\" as ");
                s.append(t.as_str());
                s
            },
            Activity::SentViaMatrix { id } => {
                let t = id.short_tag().to_base32();
                let mut s = String::from_str("sent ");
                s.append(t.as_str());
                s.append(" over matrix");
                s
            },
            Activity::FellBackToSms { id, reason } => {
                let t = id.short_tag().to_base32();
                let mut s = String::from_str("fell back to sms for ");
                s.append(t.as_str());
                s.append(" (");
                s.append(reason.as_str());
                s.append(")");
                s
            },
            Activity::Backfilled { id } => {
                let t = id.short_tag().to_base32();
                let mut s = String::from_str("backfilled ");
                s.append(t.as_str());
                s.append(" to matrix under its original id");
                s
            },
            Activity::SendFailed { id, reason } => {
                let t = id.short_tag().to_base32();
                let mut s = String::from_str("gave up on ");
                s.append(t.as_str());
                s.append(": ");
                s.append(reason.as_str());
                s
            },
            Activity::ReceivedSms { tag, from_app } => {
                if *from_app {
                    let t = tag.to_base32();
                    let mut s = String::from_str("received sms carrying id ");
                    s.append(t.as_str());
                    s
                } else {
                    String::from_str("received a plain sms with no id")
                }
            },
            Activity::ReceivedMatrix { tag } => {
                let t = tag.to_base32();
                let mut s = String::from_str("received matrix event for ");
                s.append(t.as_str());
                s
            },
            Activity::Superseded { id, dropped_row } => {
                let t = id.short_tag().to_base32();
                let mut s = String::from_str("matrix event superseded the sms for ");
                s.append(t.as_str());
                s.append(" — deleted row ");
                s.append(dropped_row.as_str());
                s
            },
            Activity::SupersedeIncomplete { id, reason } => {
                let t = id.short_tag().to_base32();
                let mut s = String::from_str("kept the matrix event for ");
                s.append(t.as_str());
                s.append(" but could not delete the sms: ");
                s.append(reason.as_str());
                s
            },
            Activity::Ignored { tag } => {
                let t = tag.to_base32();
                let mut s = String::from_str("ignored a duplicate of ");
                s.append(t.as_str());
                s
            },
        }
    }
}

/// An activity and when it was recorded.
#[derive(Debug, PartialEq, Eq)]
pub struct ActivityEntry {
    pub ts: u64,
    pub activity: Activity,
}

impl Clone for ActivityEntry {
    fn clone(&self) -> (r: Self)
        ensures
            r == *self,
    {
        ActivityEntry { ts: self.ts, activity: self.activity.clone() }
    }
}

impl ActivityEntry {
    pub fn summary(&self) -> (s: String)
        ensures
            s@ == spec_summary(self.activity),
    {
        self.activity.summary()
    }
}

/// How many entries the log keeps.
pub const CAPACITY: usize = 200;

/// The newest `CAPACITY` entries of `s`.
pub open spec fn keep_newest(s: Seq<ActivityEntry>) -> Seq<ActivityEntry> {
    if s.len() > CAPACITY {
        s.subrange(s.len() - CAPACITY, s.len() as int)
    } else {
        s
    }
}

/// `after` is the log `before` with one entry more, at time `ts`: the
/// newest, the oldest falling off when the log is full.
pub open spec fn logged_next(before: Seq<ActivityEntry>, after: Seq<ActivityEntry>, ts: u64) -> bool {
    &&& after.len() > 0
    &&& after == keep_newest(before.push(after.last()))
    &&& after.last().ts == ts
}

/// Every entry of `after` was in `before`, or was logged at time `ts`.
pub open spec fn logged_at(before: Seq<ActivityEntry>, after: Seq<ActivityEntry>, ts: u64) -> bool {
    forall|e: ActivityEntry| #[trigger] after.contains(e) ==> before.contains(e) || e.ts == ts
}

/// Logging entries at one time adds only entries of that time.
pub proof fn lemma_logged_at()
    ensures
        forall|s: Seq<ActivityEntry>, x: ActivityEntry, ts: u64|
            x.ts == ts ==> #[trigger] logged_at(s, keep_newest(s.push(x)), ts),
        forall|a: Seq<ActivityEntry>, b: Seq<ActivityEntry>, c: Seq<ActivityEntry>, ts: u64|
            #[trigger] logged_at(a, b, ts) && #[trigger] logged_at(b, c, ts) ==> logged_at(a, c, ts),
        forall|s: Seq<ActivityEntry>, ts: u64| #[trigger] logged_at(s, s, ts),
{
    assert forall|s: Seq<ActivityEntry>, x: ActivityEntry, ts: u64| x.ts == ts implies #[trigger] logged_at(
        s,
        keep_newest(s.push(x)),
        ts,
    ) by {
        let t = s.push(x);
        let k = keep_newest(t);
        assert forall|e: ActivityEntry| #[trigger] k.contains(e) implies s.contains(e) || e.ts == ts by {
            let j = choose|j: int| 0 <= j < k.len() && k[j] == e;
            let j2 = if t.len() > CAPACITY { j + t.len() - CAPACITY } else { j };
            assert(k[j] == t[j2]);
            if j2 < s.len() {
                assert(t[j2] == s[j2]);
            }
        }
    }
}

/// Keeping the newest entries keeps the newest one.
pub proof fn lemma_keep_newest_last()
    ensures
        forall|s: Seq<ActivityEntry>|
            s.len() > 0 ==> (#[trigger] keep_newest(s)).len() > 0 && keep_newest(s).last() == s.last(),
{
}

/// The activity log, oldest entry first.
#[derive(Debug, Default)]
pub struct ActivityLog {
    entries: Vec<ActivityEntry>,
}

impl View for ActivityLog {
    type V = Seq<ActivityEntry>;

    closed spec fn view(&self) -> Seq<ActivityEntry> {
        self.entries@
    }
}

impl ActivityLog {
    pub fn new() -> (log: ActivityLog)
        ensures
            log@ == Seq::<ActivityEntry>::empty(),
    {
        ActivityLog { entries: Vec::new() }
    }

    /// Records an activity at time `now_ms`; beyond `CAPACITY` entries the
    /// oldest are dropped.
    pub fn record(&mut self, now_ms: u64, activity: Activity)
        ensures
            final(self)@ == keep_newest(old(self)@.push(ActivityEntry { ts: now_ms, activity })),
    {
        self.entries.push(ActivityEntry { ts: now_ms, activity });
        let n = self.entries.len();
        if n > CAPACITY {
            let overflow = n - CAPACITY;
            let tail = self.entries.split_off(overflow);
            self.entries = tail;
        }
    }

    /// All entries, oldest first.
    pub fn entries(&self) -> (v: Vec<ActivityEntry>)
        ensures
            v@ == self@,
    {
        self.entries.clone()
    }

    /// Up to `limit` entries, newest first, by recording order.
    pub fn recent(&self, limit: usize) -> (v: Vec<ActivityEntry>)
        ensures
            v@.len() == if limit < self@.len() {
                limit as int
            } else {
                self@.len() as int
            },
            forall|i: int| 0 <= i < v@.len() ==> #[trigger] v@[i] == self@[self@.len() - 1 - i],
    {
        let n = self.entries.len();
        let mut out: Vec<ActivityEntry> = Vec::new();
        let mut i: usize = 0;
        while i < limit && i < n
            invariant
                n == self.entries@.len(),
                i <= n,
                i <= limit,
                out@.len() == i,
                forall|j: int| 0 <= j < i ==> #[trigger] out@[j] == self.entries@[n - 1 - j],
            decreases n - i,
        {
            out.push(self.entries[n - 1 - i].clone());
            i += 1;
        }
        out
    }

    pub fn clear(&mut self)
        ensures
            final(self)@ == Seq::<ActivityEntry>::empty(),
    {
        self.entries.clear();
    }
}

/// The log never holds more than `CAPACITY` entries, and the entry just
/// recorded is always the newest one kept.
pub proof fn law_log_is_bounded_and_keeps_the_newest(s: Seq<ActivityEntry>, e: ActivityEntry)
    ensures
        keep_newest(s.push(e)).len() <= CAPACITY,
        keep_newest(s.push(e)).last() == e,
{
}

} // verus!
