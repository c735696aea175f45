//! The content of a Matrix message event as Parakeet writes it: a plain
//! `m.text` body, plus namespaced keys carrying the message id, its compose
//! time and, for a backfill, the fact that SMS carried it first. Clients that
//! know nothing of Parakeet still read the body.

use vstd::prelude::*;
use crate::id::{base32_digits, decode_spec, MessageId, MESSAGE_ID_LEN};

verus! {

/// The namespace of Parakeet's own content keys.
pub const NAMESPACE: &'static str = "im.polarys.parakeet";

/// What every transaction id Parakeet sends starts with.
pub const TXN_PREFIX: &'static str = "pk-";

/// The value of the `via` key for a message SMS carried first.
pub const VIA_SMS_FALLBACK: &'static str = "sms_fallback";

/// How a Matrix event came to be sent.
#[derive(Debug, Clone, Copy, PartialEq, Eq, Structural)]
pub enum Via {
    Direct,
    SmsFallback,
}

impl Default for Via {
    fn default() -> (v: Self)
        ensures
            v == Via::Direct,
    {
        Via::Direct
    }
}

/// The content of a message event. On the wire the three optional fields are
/// `im.polarys.parakeet.id`, `.origin_ts` and `.via`, left out when absent.
#[derive(Debug, PartialEq, Eq)]
pub struct MessageContent {
    pub msgtype: String,
    pub body: String,
    pub parakeet_id: Option<String>,
    pub parakeet_origin_ts: Option<u64>,
    pub parakeet_via: Option<String>,
}

impl Clone for MessageContent {
    fn clone(&self) -> (r: Self)
        ensures
            r == *self,
    {
        MessageContent {
            msgtype: self.msgtype.clone(),
            body: self.body.clone(),
            parakeet_id: match &self.parakeet_id {
                Some(s) => Some(s.clone()),
                None => None,
            },
            parakeet_origin_ts: self.parakeet_origin_ts,
            parakeet_via: match &self.parakeet_via {
                Some(s) => Some(s.clone()),
                None => None,
            },
        }
    }
}

/// The `via` a content claims: only the exact fallback marker counts.
pub open spec fn spec_via(c: MessageContent) -> Via {
    match c.parakeet_via {
        Some(v) => if v@ == VIA_SMS_FALLBACK@ {
            Via::SmsFallback
        } else {
            Via::Direct
        },
        None => Via::Direct,
    }
}

/// The message id a content carries, if it carries a well-formed one.
pub open spec fn spec_content_message_id(c: MessageContent) -> Option<MessageId> {
    match c.parakeet_id {
        Some(text) => match decode_spec(text@, MESSAGE_ID_LEN as nat) {
            Ok(v) => Some(MessageId(v as u128)),
            Err(_) => None,
        },
        None => None,
    }
}

impl MessageContent {
    /// The content Parakeet sends for a message: `m.text`, the body, the id
    /// in base 32, the compose time, and the fallback marker for a backfill.
    pub fn new(body: &str, id: MessageId, origin_ts: u64, via: Via) -> (c: MessageContent)
        ensures
            c.msgtype@ == "m.text"@,
            c.body@ == body@,
            c.parakeet_id matches Some(s) && s@ == base32_digits(id.0 as nat, MESSAGE_ID_LEN as nat),
            c.parakeet_origin_ts == Some(origin_ts),
            match via {
                Via::Direct => c.parakeet_via is None,
                Via::SmsFallback => c.parakeet_via matches Some(v) && v@ == VIA_SMS_FALLBACK@,
            },
    {
        MessageContent {
            msgtype: String::from_str("m.text"),
            body: body.to_owned(),
            parakeet_id: Some(id.to_base32()),
            parakeet_origin_ts: Some(origin_ts),
            parakeet_via: match via {
                Via::Direct => None,
                Via::SmsFallback => Some(String::from_str(VIA_SMS_FALLBACK)),
            },
        }
    }

    /// The message id carried, if well formed; a malformed one counts as
    /// absent.
    pub fn message_id(&self) -> (id: Option<MessageId>)
        ensures
            id == spec_content_message_id(*self),
    {
        match &self.parakeet_id {
            Some(text) => match MessageId::parse(text.as_str()) {
                Ok(id) => Some(id),
                Err(_) => None,
            },
            None => None,
        }
    }

    /// The compose time carried, or the server's timestamp for content from
    /// another client.
    pub fn origin_ts_or(&self, server_ts: u64) -> (ts: u64)
        ensures
            ts == match self.parakeet_origin_ts {
                Some(t) => t,
                None => server_ts,
            },
    {
        match self.parakeet_origin_ts {
            Some(t) => t,
            None => server_ts,
        }
    }

    pub fn via(&self) -> (v: Via)
        ensures
            v == spec_via(*self),
    {
        match &self.parakeet_via {
            Some(text) => {
                let marker = String::from_str(VIA_SMS_FALLBACK);
                if *text == marker {
                    Via::SmsFallback
                } else {
                    Via::Direct
                }
            },
            None => Via::Direct,
        }
    }
}

/// The transaction id under which a message is sent to the homeserver: the
/// same for every attempt at the same message, so a retry is not a second
/// event.
pub fn txn_id_for(id: MessageId) -> (t: String)
    ensures
        t@ == TXN_PREFIX@ + base32_digits(id.0 as nat, MESSAGE_ID_LEN as nat),
{
    let mut t = String::from_str(TXN_PREFIX);
    let digits = id.to_base32();
    t.append(digits.as_str());
    t
}

/// Different messages get different transaction ids.
pub proof fn law_txn_ids_are_distinct(a: MessageId, b: MessageId)
    requires
        a != b,
    ensures
        TXN_PREFIX@ + base32_digits(a.0 as nat, MESSAGE_ID_LEN as nat) != TXN_PREFIX@
            + base32_digits(b.0 as nat, MESSAGE_ID_LEN as nat),
{
    crate::id::law_message_id_round_trip(a);
    crate::id::law_message_id_round_trip(b);
    let sa = TXN_PREFIX@ + base32_digits(a.0 as nat, MESSAGE_ID_LEN as nat);
    let sb = TXN_PREFIX@ + base32_digits(b.0 as nat, MESSAGE_ID_LEN as nat);
    if sa == sb {
        let n = TXN_PREFIX@.len() as int;
        assert(sa.subrange(n, sa.len() as int) =~= base32_digits(a.0 as nat, MESSAGE_ID_LEN as nat));
        assert(sb.subrange(n, sb.len() as int) =~= base32_digits(b.0 as nat, MESSAGE_ID_LEN as nat));
    }
}

} // verus!
