//! Errors a transport reports.

use vstd::prelude::*;

verus! {

/// Why a transport could not do what it was asked.
#[derive(Debug, PartialEq, Eq)]
pub enum TransportError {
    /// The other end could not be reached; trying another way makes sense.
    Unreachable(String),
    /// The other end refused.
    Rejected(String),
    Other(String),
}

impl Clone for TransportError {
    fn clone(&self) -> (r: Self)
        ensures
            r == *self,
    {
        match self {
            TransportError::Unreachable(s) => TransportError::Unreachable(s.clone()),
            TransportError::Rejected(s) => TransportError::Rejected(s.clone()),
            TransportError::Other(s) => TransportError::Other(s.clone()),
        }
    }
}

/// The text an error is shown as.
pub open spec fn spec_error_text(e: TransportError) -> Seq<char> {
    match e {
        TransportError::Unreachable(why) => "unreachable: "@ + why@,
        TransportError::Rejected(why) => "rejected: "@ + why@,
        TransportError::Other(why) => why@,
    }
}

impl TransportError {
    /// Only an unreachable peer is worth a fallback.
    pub fn is_recoverable(&self) -> (b: bool)
        ensures
            b == (*self is Unreachable),
    {
        match self {
            TransportError::Unreachable(_) => true,
            _ => false,
        }
    }

    pub fn unreachable(reason: &str) -> (e: TransportError)
        ensures
            e matches TransportError::Unreachable(why) && why@ == reason@,
    {
        TransportError::Unreachable(reason.to_owned())
    }

    pub fn rejected(reason: &str) -> (e: TransportError)
        ensures
            e matches TransportError::Rejected(why) && why@ == reason@,
    {
        TransportError::Rejected(reason.to_owned())
    }

    /// The error as text: `unreachable: <why>`, `rejected: <why>`, or the
    /// reason alone.
    pub fn text(&self) -> (s: String)
        ensures
            s@ == spec_error_text(*self),
    {
        match self {
            TransportError::Unreachable(why) => {
                let mut s = String::from_str("unreachable: ");
                s.append(why.as_str());
                s
            },
            TransportError::Rejected(why) => {
                let mut s = String::from_str("rejected: ");
                s.append(why.as_str());
                s
            },
            TransportError::Other(why) => why.clone(),
        }
    }
}

} // verus!
