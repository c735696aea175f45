//! What the screen shows of a message: its body, time, direction, and a
//! badge saying which transports carried it.

use vstd::prelude::*;
use crate::id::{base32_digits, MessageId, SHORT_TAG_LEN};
use crate::message::{Direction, Message, MessageState};
use crate::peer::{ConversationId, PeerId};
use crate::text::{push_char, zero_padded, zero_padded_decimal};

verus! {

/// Which transports carried a message, as a badge.
#[derive(Debug, Clone, Copy, PartialEq, Eq, Structural)]
pub enum TransportBadge {
    Pending,
    Matrix,
    Sms,
    Reconciled,
    Failed,
}

/// The text of a badge.
pub open spec fn spec_badge_label(b: TransportBadge) -> Seq<char> {
    match b {
        TransportBadge::Pending => "pending"@,
        TransportBadge::Matrix => "matrix"@,
        TransportBadge::Sms => "sms"@,
        TransportBadge::Reconciled => "reconciled"@,
        TransportBadge::Failed => "failed"@,
    }
}

impl TransportBadge {
    pub fn label(self) -> (s: &'static str)
        ensures
            s@ == spec_badge_label(self),
    {
        match self {
            TransportBadge::Pending => "pending",
            TransportBadge::Matrix => "matrix",
            TransportBadge::Sms => "sms",
            TransportBadge::Reconciled => "reconciled",
            TransportBadge::Failed => "failed",
        }
    }

    /// The style class of a badge is its label.
    pub fn css_class(self) -> (s: &'static str)
        ensures
            s@ == spec_badge_label(self),
    {
        self.label()
    }
}

/// The badge of a message: a failure shows whatever the deliveries say;
/// otherwise both transports make it reconciled, one its own, none pending.
pub open spec fn spec_badge(m: Message) -> TransportBadge {
    if m.state is Failed {
        TransportBadge::Failed
    } else {
        match (m.delivery.matrix, m.delivery.sms) {
            (Some(_), Some(_)) => TransportBadge::Reconciled,
            (Some(_), None) => TransportBadge::Matrix,
            (None, Some(_)) => TransportBadge::Sms,
            (None, None) => TransportBadge::Pending,
        }
    }
}

fn badge_for(message: &Message) -> (b: TransportBadge)
    ensures
        b == spec_badge(*message),
{
    if let MessageState::Failed(_) = message.state {
        return TransportBadge::Failed;
    }
    match (&message.delivery.matrix, &message.delivery.sms) {
        (Some(_), Some(_)) => TransportBadge::Reconciled,
        (Some(_), None) => TransportBadge::Matrix,
        (None, Some(_)) => TransportBadge::Sms,
        (None, None) => TransportBadge::Pending,
    }
}

/// A message as the screen shows it.
#[derive(Debug, PartialEq, Eq)]
pub struct MessageView {
    pub id: MessageId,
    pub body: String,
    pub origin_ts: u64,
    pub direction: Direction,
    pub badge: TransportBadge,
    /// The short tag, written as in the SMS trailer.
    pub tag: String,
    /// Why the message failed, if it did.
    pub failure: Option<String>,
}

impl Clone for MessageView {
    fn clone(&self) -> (r: Self)
        ensures
            r == *self,
    {
        MessageView {
            id: self.id,
            body: self.body.clone(),
            origin_ts: self.origin_ts,
            direction: self.direction,
            badge: self.badge,
            tag: self.tag.clone(),
            failure: match &self.failure {
                Some(s) => Some(s.clone()),
                None => None,
            },
        }
    }
}

/// Whether `v` shows `m`.
pub open spec fn shows(v: MessageView, m: Message) -> bool {
    &&& v.id == m.id
    &&& v.body@ == m.body@
    &&& v.origin_ts == m.origin_ts
    &&& v.direction == m.direction
    &&& v.badge == spec_badge(m)
    &&& v.tag@ == base32_digits(m.tag.0 as nat, SHORT_TAG_LEN as nat)
    &&& match m.state {
        MessageState::Failed(reason) => v.failure matches Some(f) && f@ == reason@,
        _ => v.failure is None,
    }
}

impl MessageView {
    pub fn of(message: &Message) -> (v: MessageView)
        ensures
            shows(v, *message),
    {
        MessageView {
            id: message.id,
            body: message.body.clone(),
            origin_ts: message.origin_ts,
            direction: message.direction,
            badge: badge_for(message),
            tag: message.tag.to_base32(),
            failure: match &message.state {
                MessageState::Failed(reason) => Some(reason.clone()),
                _ => None,
            },
        }
    }
}

/// A conversation as the list of conversations shows it.
#[derive(Debug, PartialEq, Eq)]
pub struct ConversationSummary {
    pub id: ConversationId,
    pub peer: PeerId,
    pub display_name: String,
    pub last_body: String,
    pub last_ts: u64,
    /// How many of its messages no transport has carried yet.
    pub pending: usize,
}

/// What a badge means, as the legend explains it.
pub open spec fn spec_badge_explanation(b: TransportBadge) -> Seq<char> {
    match b {
        TransportBadge::Pending => "queued, no transport has carried it yet"@,
        TransportBadge::Matrix => "delivered over Matrix"@,
        TransportBadge::Sms => "the fallback carried it; no Matrix event yet"@,
        TransportBadge::Reconciled => "arrived as an SMS, then replaced by the Matrix event"@,
        TransportBadge::Failed => "no transport could deliver it"@,
    }
}

pub fn badge_explanation(badge: TransportBadge) -> (s: &'static str)
    ensures
        s@ == spec_badge_explanation(badge),
{
    match badge {
        TransportBadge::Pending => "queued, no transport has carried it yet",
        TransportBadge::Matrix => "delivered over Matrix",
        TransportBadge::Sms => "the fallback carried it; no Matrix event yet",
        TransportBadge::Reconciled => "arrived as an SMS, then replaced by the Matrix event",
        TransportBadge::Failed => "no transport could deliver it",
    }
}

/// The time of day, in UTC, of a timestamp in milliseconds: hours and
/// minutes, two digits each.
pub open spec fn spec_clock_time(ts_ms: u64) -> Seq<char> {
    let seconds = ts_ms / 1000;
    zero_padded(((seconds / 3600) % 24) as nat, 2) + seq![':'] + zero_padded(
        ((seconds / 60) % 60) as nat,
        2,
    )
}

pub fn clock_time(ts_ms: u64) -> (s: String)
    ensures
        s@ == spec_clock_time(ts_ms),
{
    let seconds = ts_ms / 1_000;
    let mut s = zero_padded_decimal((seconds / 3_600) % 24, 2);
    push_char(&mut s, ':');
    let minutes = zero_padded_decimal((seconds / 60) % 60, 2);
    s.append(minutes.as_str());
    s
}

} // verus!
