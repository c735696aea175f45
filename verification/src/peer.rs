//! Identities: peers, Matrix users, phone numbers, conversations, SMS rows.

use vstd::prelude::*;
use crate::text::{chars_of, push_char};

verus! {

/// A person the user talks to, as the app names them.
#[derive(Debug, PartialEq, Eq, PartialOrd, Ord, Hash)]
pub struct PeerId(String);

impl View for PeerId {
    type V = Seq<char>;

    closed spec fn view(&self) -> Seq<char> {
        self.0@
    }
}

impl Clone for PeerId {
    fn clone(&self) -> (r: Self)
        ensures
            r == *self,
    {
        PeerId(self.0.clone())
    }
}

impl PeerId {
    pub fn new(value: &str) -> (p: PeerId)
        ensures
            p@ == value@,
    {
        PeerId(value.to_owned())
    }

    pub fn as_str(&self) -> (s: &str)
        ensures
            s@ == self@,
    {
        self.0.as_str()
    }

    /// Whether two peer ids name the same peer.
    pub fn same_as(&self, other: &PeerId) -> (b: bool)
        ensures
            b == (self@ == other@),
    {
        self.0 == other.0
    }
}

/// A Matrix user id such as `@bob:matrix.org`.
#[derive(Debug, PartialEq, Eq, PartialOrd, Ord, Hash)]
pub struct MatrixUserId(String);

impl View for MatrixUserId {
    type V = Seq<char>;

    closed spec fn view(&self) -> Seq<char> {
        self.0@
    }
}

impl Clone for MatrixUserId {
    fn clone(&self) -> (r: Self)
        ensures
            r == *self,
    {
        MatrixUserId(self.0.clone())
    }
}

impl MatrixUserId {
    pub fn new(value: &str) -> (m: MatrixUserId)
        ensures
            m@ == value@,
    {
        MatrixUserId(value.to_owned())
    }

    pub fn as_str(&self) -> (s: &str)
        ensures
            s@ == self@,
    {
        self.0.as_str()
    }

    /// Whether two Matrix ids name the same user: letters compare without
    /// regard to ASCII case, as server names do.
    pub fn same_as(&self, other: &MatrixUserId) -> (b: bool)
        ensures
            b == (fold_ascii_case(self@) == fold_ascii_case(other@)),
    {
        let x = chars_of(self.0.as_str());
        let y = chars_of(other.0.as_str());
        if x.len() != y.len() {
            proof {
                assert(fold_ascii_case(self@).len() != fold_ascii_case(other@).len());
            }
            return false;
        }
        let mut i: usize = 0;
        while i < x.len()
            invariant
                x@ == self@,
                y@ == other@,
                x@.len() == y@.len(),
                i <= x@.len(),
                forall|j: int| 0 <= j < i ==> #[trigger] fold_char(x@[j]) == fold_char(y@[j]),
            decreases x@.len() - i,
        {
            if fold_char_exec(x[i]) != fold_char_exec(y[i]) {
                proof {
                    assert(fold_ascii_case(self@)[i as int] != fold_ascii_case(other@)[i as int]);
                }
                return false;
            }
            i += 1;
        }
        proof {
            assert(fold_ascii_case(self@) =~= fold_ascii_case(other@));
        }
        true
    }
}

/// A character with ASCII upper case letters made lower case.
pub open spec fn fold_char(c: char) -> char {
    if 'A' <= c && c <= 'Z' {
        ((c as u32) + 32) as char
    } else {
        c
    }
}

/// A text with ASCII upper case letters made lower case.
pub open spec fn fold_ascii_case(s: Seq<char>) -> Seq<char> {
    s.map_values(|c: char| fold_char(c))
}

fn fold_char_exec(c: char) -> (r: char)
    ensures
        r == fold_char(c),
{
    match c {
        'A' => 'a',
        'B' => 'b',
        'C' => 'c',
        'D' => 'd',
        'E' => 'e',
        'F' => 'f',
        'G' => 'g',
        'H' => 'h',
        'I' => 'i',
        'J' => 'j',
        'K' => 'k',
        'L' => 'l',
        'M' => 'm',
        'N' => 'n',
        'O' => 'o',
        'P' => 'p',
        'Q' => 'q',
        'R' => 'r',
        'S' => 's',
        'T' => 't',
        'U' => 'u',
        'V' => 'v',
        'W' => 'w',
        'X' => 'x',
        'Y' => 'y',
        'Z' => 'z',
        _ => c,
    }
}

/// Whether `c`, at position `i` of a typed number, survives normalisation:
/// ASCII digits always do, and a `+` only in leading position.
pub open spec fn keeps_phone_char(c: char, i: int) -> bool {
    ('0' <= c && c <= '9') || (c == '+' && i == 0)
}

/// A phone number as typed or as a carrier wrote it, reduced to a comparable
/// form: its digits, and a `+` if it came first.
pub open spec fn normalise_phone(s: Seq<char>) -> Seq<char>
    decreases s.len(),
{
    if s.len() == 0 {
        Seq::empty()
    } else {
        let kept = normalise_phone(s.drop_last());
        if keeps_phone_char(s.last(), s.len() - 1) {
            kept.push(s.last())
        } else {
            kept
        }
    }
}

/// A normalised phone number.
#[derive(Debug, PartialEq, Eq, PartialOrd, Ord, Hash)]
pub struct PhoneNumber(String);

impl View for PhoneNumber {
    type V = Seq<char>;

    closed spec fn view(&self) -> Seq<char> {
        self.0@
    }
}

impl Clone for PhoneNumber {
    fn clone(&self) -> (r: Self)
        ensures
            r == *self,
    {
        PhoneNumber(self.0.clone())
    }
}

impl PhoneNumber {
    /// Normalises a typed number: spaces, dashes, dots and the like are
    /// dropped, and a `+` is kept only in leading position.
    pub fn new(value: &str) -> (p: PhoneNumber)
        ensures
            p@ == normalise_phone(value@),
    {
        let n = value.unicode_len();
        let mut out = String::new();
        let mut i: usize = 0;
        while i < n
            invariant
                n == value@.len(),
                i <= n,
                out@ == normalise_phone(value@.subrange(0, i as int)),
            decreases n - i,
        {
            let c = value.get_char(i);
            let ghost pre = value@.subrange(0, i + 1);
            proof {
                assert(pre.drop_last() =~= value@.subrange(0, i as int));
                assert(pre.last() == c);
            }
            if ('0' <= c && c <= '9') || (c == '+' && i == 0) {
                push_char(&mut out, c);
            }
            i += 1;
        }
        proof {
            assert(value@.subrange(0, n as int) =~= value@);
        }
        PhoneNumber(out)
    }

    pub fn as_str(&self) -> (s: &str)
        ensures
            s@ == self@,
    {
        self.0.as_str()
    }

    pub fn same_as(&self, other: &PhoneNumber) -> (b: bool)
        ensures
            b == (self@ == other@),
    {
        self.0 == other.0
    }
}

proof fn lemma_normalised_shape(s: Seq<char>)
    ensures
        forall|j: int|
            0 <= j < normalise_phone(s).len() ==> keeps_phone_char(
                #[trigger] normalise_phone(s)[j],
                j,
            ),
    decreases s.len(),
{
    if s.len() > 0 {
        let p = s.drop_last();
        lemma_normalised_shape(p);
        let kept = normalise_phone(p);
        if s.len() == 1 {
            assert(p.len() == 0);
            assert(kept.len() == 0);
        }
        assert forall|j: int| 0 <= j < normalise_phone(s).len() implies keeps_phone_char(
            #[trigger] normalise_phone(s)[j],
            j,
        ) by {
            if j < kept.len() {
                assert(normalise_phone(s)[j] == kept[j]);
            }
        }
    }
}

proof fn lemma_normalise_fixed_point(t: Seq<char>)
    requires
        forall|j: int| 0 <= j < t.len() ==> keeps_phone_char(#[trigger] t[j], j),
    ensures
        normalise_phone(t) == t,
    decreases t.len(),
{
    if t.len() > 0 {
        let p = t.drop_last();
        assert forall|j: int| 0 <= j < p.len() implies keeps_phone_char(#[trigger] p[j], j) by {
            assert(p[j] == t[j]);
        }
        lemma_normalise_fixed_point(p);
        assert(keeps_phone_char(t[t.len() - 1], t.len() - 1));
        assert(p.push(t.last()) =~= t);
    }
}

/// Normalising a phone number twice gives the same as normalising it once,
/// so a stored number compares equal to the same number typed again.
pub proof fn law_phone_normalisation_idempotent(s: Seq<char>)
    ensures
        normalise_phone(normalise_phone(s)) == normalise_phone(s),
{
    lemma_normalised_shape(s);
    lemma_normalise_fixed_point(normalise_phone(s));
}

/// A conversation thread, named after the peer it is with.
#[derive(Debug, PartialEq, Eq, PartialOrd, Ord, Hash)]
pub struct ConversationId(String);

impl View for ConversationId {
    type V = Seq<char>;

    closed spec fn view(&self) -> Seq<char> {
        self.0@
    }
}

impl Clone for ConversationId {
    fn clone(&self) -> (r: Self)
        ensures
            r == *self,
    {
        ConversationId(self.0.clone())
    }
}

impl ConversationId {
    pub fn new(value: &str) -> (c: ConversationId)
        ensures
            c@ == value@,
    {
        ConversationId(value.to_owned())
    }

    /// The conversation held with a peer carries the peer's id.
    pub fn with_peer(peer: &PeerId) -> (c: ConversationId)
        ensures
            c@ == peer@,
    {
        ConversationId(peer.as_str().to_owned())
    }

    pub fn as_str(&self) -> (s: &str)
        ensures
            s@ == self@,
    {
        self.0.as_str()
    }

    pub fn same_as(&self, other: &ConversationId) -> (b: bool)
        ensures
            b == (self@ == other@),
    {
        self.0 == other.0
    }
}

/// The id of a row in the device's SMS storage.
#[derive(Debug, PartialEq, Eq, PartialOrd, Ord, Hash)]
pub struct SmsRowId(String);

impl View for SmsRowId {
    type V = Seq<char>;

    closed spec fn view(&self) -> Seq<char> {
        self.0@
    }
}

impl Clone for SmsRowId {
    fn clone(&self) -> (r: Self)
        ensures
            r == *self,
    {
        SmsRowId(self.0.clone())
    }
}

impl SmsRowId {
    pub fn new(value: &str) -> (r: SmsRowId)
        ensures
            r@ == value@,
    {
        SmsRowId(value.to_owned())
    }

    pub fn as_str(&self) -> (s: &str)
        ensures
            s@ == self@,
    {
        self.0.as_str()
    }

    pub fn same_as(&self, other: &SmsRowId) -> (b: bool)
        ensures
            b == (self@ == other@),
    {
        self.0 == other.0
    }
}

} // verus!
