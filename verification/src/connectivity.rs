//! The device's view of its data connection, kept in one byte.

use vstd::prelude::*;
use crate::outbox::NetStatus;

verus! {

const ONLINE: u8 = 0;
const OFFLINE: u8 = 1;
const DEGRADED: u8 = 2;

/// The byte a status is kept as.
pub open spec fn spec_encode_status(s: NetStatus) -> u8 {
    match s {
        NetStatus::Online => 0,
        NetStatus::Offline => 1,
        NetStatus::Degraded => 2,
    }
}

/// The status a byte stands for; an unknown byte reads as online.
pub open spec fn spec_decode_status(raw: u8) -> NetStatus {
    if raw == 1 {
        NetStatus::Offline
    } else if raw == 2 {
        NetStatus::Degraded
    } else {
        NetStatus::Online
    }
}

fn encode(status: NetStatus) -> (raw: u8)
    ensures
        raw == spec_encode_status(status),
{
    match status {
        NetStatus::Online => ONLINE,
        NetStatus::Offline => OFFLINE,
        NetStatus::Degraded => DEGRADED,
    }
}

fn decode(raw: u8) -> (s: NetStatus)
    ensures
        s == spec_decode_status(raw),
{
    if raw == OFFLINE {
        NetStatus::Offline
    } else if raw == DEGRADED {
        NetStatus::Degraded
    } else {
        NetStatus::Online
    }
}

/// Every status survives being kept as a byte.
pub proof fn law_status_round_trips(s: NetStatus)
    ensures
        spec_decode_status(spec_encode_status(s)) == s,
{
}

/// The connectivity flag held in memory.
#[derive(Debug)]
pub struct MemoryConnectivity {
    status: u8,
}

impl Default for MemoryConnectivity {
    fn default() -> (c: Self)
        ensures
            c.current() == NetStatus::Online,
    {
        MemoryConnectivity::new(NetStatus::Online)
    }
}

impl MemoryConnectivity {
    /// The status the flag holds.
    pub closed spec fn current(&self) -> NetStatus {
        spec_decode_status(self.status)
    }

    pub fn new(status: NetStatus) -> (c: MemoryConnectivity)
        ensures
            c.current() == status,
    {
        MemoryConnectivity { status: encode(status) }
    }

    pub fn set(&mut self, status: NetStatus)
        ensures
            final(self).current() == status,
    {
        self.status = encode(status);
    }

    pub fn status(&self) -> (s: NetStatus)
        ensures
            s == self.current(),
    {
        decode(self.status)
    }

    /// A transport reported what it saw of the connection.
    pub fn observe(&mut self, status: NetStatus)
        ensures
            final(self).current() == status,
    {
        self.set(status);
    }
}

} // verus!
