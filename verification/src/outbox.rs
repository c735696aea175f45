//! The outbox: one entry per message being sent, and the decision of what to
//! do next with it. Matrix is tried first; when it cannot be reached the
//! message falls back to SMS, and once data returns it is backfilled to
//! Matrix under the same id.

use vstd::prelude::*;
use crate::id::MessageId;
use crate::peer::{ConversationId, PeerId};

verus! {

/// What the device knows of its data connection.
#[derive(Debug, Clone, Copy, PartialEq, Eq, Structural)]
pub enum NetStatus {
    Online,
    Offline,
    Degraded,
}

/// Where one transport stands for one outbox entry.
#[derive(Debug, Clone, Copy, PartialEq, Eq, Structural)]
pub enum TransportState {
    Pending,
    InFlight,
    Done,
    Failed,
}

impl Default for TransportState {
    fn default() -> (s: Self)
        ensures
            s == TransportState::Pending,
    {
        TransportState::Pending
    }
}

/// A message on its way out.
#[derive(Debug, PartialEq, Eq)]
pub struct OutboxEntry {
    pub id: MessageId,
    pub conversation: ConversationId,
    pub peer: PeerId,
    pub body: String,
    pub origin_ts: u64,
    pub matrix: TransportState,
    pub sms: TransportState,
    pub matrix_attempts: u32,
    pub sms_attempts: u32,
    pub next_matrix_attempt_ms: u64,
}

impl Clone for OutboxEntry {
    fn clone(&self) -> (r: Self)
        ensures
            r == *self,
    {
        OutboxEntry {
            id: self.id,
            conversation: self.conversation.clone(),
            peer: self.peer.clone(),
            body: self.body.clone(),
            origin_ts: self.origin_ts,
            matrix: self.matrix,
            sms: self.sms,
            matrix_attempts: self.matrix_attempts,
            sms_attempts: self.sms_attempts,
            next_matrix_attempt_ms: self.next_matrix_attempt_ms,
        }
    }
}

/// What to do next with an outbox entry.
#[derive(Debug, Clone, Copy, PartialEq, Eq, Structural)]
pub enum SendDecision {
    TryMatrix,
    FallbackToSms,
    BackfillMatrix,
    Wait { retry_after_ms: u64 },
    Done,
    Abandon,
}

/// How many SMS attempts a message gets before it is given up.
pub const MAX_SMS_ATTEMPTS: u32 = 3;

/// How long to wait before looking again while offline.
pub const OFFLINE_POLL_MS: u64 = 5_000;

/// The delay before Matrix is tried again after `attempts` attempts: one
/// second, doubling with each attempt, capped at one minute.
pub open spec fn spec_backoff_ms(attempts: u32) -> u64 {
    if attempts == 0 {
        1_000
    } else if attempts == 1 {
        2_000
    } else if attempts == 2 {
        4_000
    } else if attempts == 3 {
        8_000
    } else if attempts == 4 {
        16_000
    } else if attempts == 5 {
        32_000
    } else {
        60_000
    }
}

pub fn backoff_ms(attempts: u32) -> (ms: u64)
    ensures
        ms == spec_backoff_ms(attempts),
{
    let base_ms: u64 = 1_000;
    let cap_ms: u64 = 60_000;
    let k: u32 = if attempts < 6 { attempts } else { 6 };
    let factor: u64 = 1u64 << k;
    proof {
        if k == 0 {
            assert(1u64 << 0u32 == 1) by (bit_vector);
        } else if k == 1 {
            assert(1u64 << 1u32 == 2) by (bit_vector);
        } else if k == 2 {
            assert(1u64 << 2u32 == 4) by (bit_vector);
        } else if k == 3 {
            assert(1u64 << 3u32 == 8) by (bit_vector);
        } else if k == 4 {
            assert(1u64 << 4u32 == 16) by (bit_vector);
        } else if k == 5 {
            assert(1u64 << 5u32 == 32) by (bit_vector);
        } else {
            assert(1u64 << 6u32 == 64) by (bit_vector);
        }
    }
    let scaled = base_ms * factor;
    if scaled < cap_ms {
        scaled
    } else {
        cap_ms
    }
}

/// The delay grows with the number of attempts and never passes one minute.
pub proof fn law_backoff_grows_then_caps(a: u32, b: u32)
    requires
        a <= b,
    ensures
        spec_backoff_ms(a) <= spec_backoff_ms(b),
        spec_backoff_ms(b) <= 60_000,
        1_000 <= spec_backoff_ms(a),
{
}

impl OutboxEntry {
    /// The entry's own consistency: SMS attempts are only counted once an SMS
    /// send has begun.
    pub open spec fn wf(&self) -> bool {
        self.sms == TransportState::Pending ==> self.sms_attempts == 0
    }

    pub fn new(
        id: MessageId,
        conversation: ConversationId,
        peer: PeerId,
        body: String,
        origin_ts: u64,
    ) -> (e: OutboxEntry)
        ensures
            e.id == id,
            e.conversation == conversation,
            e.peer == peer,
            e.body == body,
            e.origin_ts == origin_ts,
            e.matrix == TransportState::Pending,
            e.sms == TransportState::Pending,
            e.matrix_attempts == 0,
            e.sms_attempts == 0,
            e.next_matrix_attempt_ms == 0,
            e.wf(),
    {
        OutboxEntry {
            id,
            conversation,
            peer,
            body,
            origin_ts,
            matrix: TransportState::Pending,
            sms: TransportState::Pending,
            matrix_attempts: 0,
            sms_attempts: 0,
            next_matrix_attempt_ms: 0,
        }
    }

    /// A Matrix send begins: one more attempt, now in flight.
    pub fn begin_matrix(&mut self)
        requires
            old(self).matrix_attempts < u32::MAX,
        ensures
            *final(self) == (OutboxEntry {
                matrix: TransportState::InFlight,
                matrix_attempts: (old(self).matrix_attempts + 1) as u32,
                ..*old(self)
            }),
    {
        self.matrix = TransportState::InFlight;
        self.matrix_attempts += 1;
    }

    pub fn matrix_succeeded(&mut self)
        ensures
            *final(self) == (OutboxEntry { matrix: TransportState::Done, ..*old(self) }),
    {
        self.matrix = TransportState::Done;
    }

    /// A Matrix send failed: Matrix is not tried again before the backoff for
    /// the attempts made so far has passed.
    pub fn matrix_failed(&mut self, now_ms: u64)
        ensures
            *final(self) == (OutboxEntry {
                matrix: TransportState::Failed,
                next_matrix_attempt_ms: if now_ms + spec_backoff_ms(old(self).matrix_attempts)
                    <= u64::MAX {
                    (now_ms + spec_backoff_ms(old(self).matrix_attempts)) as u64
                } else {
                    u64::MAX
                },
                ..*old(self)
            }),
    {
        self.matrix = TransportState::Failed;
        self.next_matrix_attempt_ms = now_ms.saturating_add(backoff_ms(self.matrix_attempts));
    }

    /// An SMS send begins: one more attempt, now in flight.
    pub fn begin_sms(&mut self)
        requires
            old(self).sms_attempts < u32::MAX,
        ensures
            *final(self) == (OutboxEntry {
                sms: TransportState::InFlight,
                sms_attempts: (old(self).sms_attempts + 1) as u32,
                ..*old(self)
            }),
            final(self).wf(),
    {
        self.sms = TransportState::InFlight;
        self.sms_attempts += 1;
    }

    pub fn sms_succeeded(&mut self)
        ensures
            *final(self) == (OutboxEntry { sms: TransportState::Done, ..*old(self) }),
            final(self).wf(),
    {
        self.sms = TransportState::Done;
    }

    pub fn sms_failed(&mut self)
        ensures
            *final(self) == (OutboxEntry { sms: TransportState::Failed, ..*old(self) }),
            final(self).wf(),
    {
        self.sms = TransportState::Failed;
    }

    /// Some transport has carried the message to its recipient.
    pub fn reached_recipient(&self) -> (b: bool)
        ensures
            b == (self.matrix == TransportState::Done || self.sms == TransportState::Done),
    {
        self.matrix == TransportState::Done || self.sms == TransportState::Done
    }
}

/// The decision for an entry, given the connection and the time.
///
/// A message Matrix has carried is done. Nothing is started while an attempt
/// is in flight. A message SMS has carried waits for data and for its Matrix
/// backoff, then is backfilled to Matrix. Otherwise Matrix is tried first
/// unless the device is offline or Matrix has already failed, in which case
/// the message falls back to SMS, until the SMS attempts are used up.
pub open spec fn spec_next_action(entry: OutboxEntry, net: NetStatus, now_ms: u64) -> SendDecision {
    if entry.matrix == TransportState::Done {
        SendDecision::Done
    } else if entry.matrix == TransportState::InFlight || entry.sms == TransportState::InFlight {
        SendDecision::Wait { retry_after_ms: 0 }
    } else if entry.sms == TransportState::Done {
        if net == NetStatus::Offline {
            SendDecision::Wait { retry_after_ms: OFFLINE_POLL_MS }
        } else if now_ms < entry.next_matrix_attempt_ms {
            SendDecision::Wait { retry_after_ms: (entry.next_matrix_attempt_ms - now_ms) as u64 }
        } else {
            SendDecision::BackfillMatrix
        }
    } else if entry.matrix == TransportState::Pending && net != NetStatus::Offline {
        SendDecision::TryMatrix
    } else if entry.sms_attempts >= MAX_SMS_ATTEMPTS {
        SendDecision::Abandon
    } else {
        SendDecision::FallbackToSms
    }
}

/// The entries on which the decision is defined: when the SMS attempts are
/// used up and the decision comes down to them, the last SMS attempt failed.
pub open spec fn next_action_accepts(entry: OutboxEntry, net: NetStatus) -> bool {
    (entry.matrix != TransportState::Done && entry.matrix != TransportState::InFlight
        && entry.sms != TransportState::InFlight && entry.sms != TransportState::Done && !(
    entry.matrix == TransportState::Pending && net != NetStatus::Offline) && entry.sms_attempts
        >= MAX_SMS_ATTEMPTS) ==> entry.sms == TransportState::Failed
}

pub fn next_action(entry: &OutboxEntry, net: NetStatus, now_ms: u64) -> (d: SendDecision)
    requires
        next_action_accepts(*entry, net),
    ensures
        d == spec_next_action(*entry, net, now_ms),
{
    if entry.matrix == TransportState::Done {
        return SendDecision::Done;
    }
    if entry.matrix == TransportState::InFlight || entry.sms == TransportState::InFlight {
        return SendDecision::Wait { retry_after_ms: 0 };
    }
    if entry.sms == TransportState::Done {
        return match net {
            NetStatus::Offline => SendDecision::Wait { retry_after_ms: OFFLINE_POLL_MS },
            _ => {
                if now_ms < entry.next_matrix_attempt_ms {
                    SendDecision::Wait { retry_after_ms: entry.next_matrix_attempt_ms - now_ms }
                } else {
                    SendDecision::BackfillMatrix
                }
            },
        };
    }
    if entry.matrix == TransportState::Pending && net != NetStatus::Offline {
        return SendDecision::TryMatrix;
    }
    if entry.sms_attempts >= MAX_SMS_ATTEMPTS {
        return SendDecision::Abandon;
    }
    SendDecision::FallbackToSms
}

/// Every well-formed entry is accepted by `next_action`, whatever the
/// connection.
pub proof fn law_well_formed_entries_are_decidable(entry: OutboxEntry, net: NetStatus)
    requires
        entry.wf(),
    ensures
        next_action_accepts(entry, net),
{
}

/// While offline, nothing is sent over Matrix.
pub proof fn law_offline_never_uses_matrix(entry: OutboxEntry, now_ms: u64)
    ensures
        spec_next_action(entry, NetStatus::Offline, now_ms) != SendDecision::TryMatrix,
        spec_next_action(entry, NetStatus::Offline, now_ms) != SendDecision::BackfillMatrix,
{
}

/// A message SMS has carried is never sent over SMS again: it only waits for
/// Matrix, is backfilled, or is done.
pub proof fn law_sms_carried_is_not_resent(entry: OutboxEntry, net: NetStatus, now_ms: u64)
    requires
        entry.sms == TransportState::Done,
    ensures
        spec_next_action(entry, net, now_ms) != SendDecision::FallbackToSms,
        spec_next_action(entry, net, now_ms) != SendDecision::Abandon,
        spec_next_action(entry, net, now_ms) != SendDecision::TryMatrix,
{
}

/// A message is given up only after the SMS attempts are used up, and never
/// once any transport has carried it.
pub proof fn law_abandon_only_when_exhausted(entry: OutboxEntry, net: NetStatus, now_ms: u64)
    requires
        spec_next_action(entry, net, now_ms) == SendDecision::Abandon,
    ensures
        entry.sms_attempts >= MAX_SMS_ATTEMPTS,
        entry.matrix != TransportState::Done,
        entry.sms != TransportState::Done,
{
}

} // verus!
