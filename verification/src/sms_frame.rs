//! The SMS trailer: a fallback SMS carries its message's short tag on a last
//! line of its own, `#pk:` followed by the tag in base 32, so the receiving
//! app can match it with the Matrix event that may follow.

use vstd::prelude::*;
use crate::id::{
    base32_digits, decode_spec, law_short_tag_round_trip, tag_span, ShortTag, SHORT_TAG_LEN,
};
use crate::text::{chars_of, push_char, string_from_range};

verus! {

/// What opens the trailer line.
pub const TRAILER_PREFIX: &'static str = "#pk:";

/// What the trailer costs in characters: the newline, the prefix, the tag.
pub const TRAILER_CHARS: usize = 1 + 4 + SHORT_TAG_LEN;

/// The characters of `TRAILER_PREFIX`.
pub open spec fn trailer_prefix() -> Seq<char> {
    seq!['#', 'p', 'k', ':']
}

/// An SMS text split into the human body and the tag it carried, if any.
#[derive(Debug, PartialEq, Eq)]
pub struct Framed {
    pub body: String,
    pub tag: Option<ShortTag>,
}

/// The text sent for `body` tagged with `tag`.
pub open spec fn spec_encode(body: Seq<char>, tag: ShortTag) -> Seq<char> {
    body.push('\n') + trailer_prefix() + base32_digits(tag.0 as nat, SHORT_TAG_LEN as nat)
}

/// The position of the last newline in `s`, if any.
pub open spec fn last_newline(s: Seq<char>) -> Option<int>
    decreases s.len(),
{
    if s.len() == 0 {
        None
    } else if s.last() == '\n' {
        Some(s.len() - 1)
    } else {
        last_newline(s.drop_last())
    }
}

/// The text before the last line, and the last line. A text without a
/// newline is all last line, with nothing before it.
pub open spec fn split_last_line(s: Seq<char>) -> (Seq<char>, Seq<char>) {
    match last_newline(s) {
        Some(i) => (s.subrange(0, i), s.subrange(i + 1, s.len() as int)),
        None => (Seq::empty(), s),
    }
}

/// The tag a line stands for if it is exactly a trailer: the prefix, then a
/// well-formed tag of `SHORT_TAG_LEN` characters.
pub open spec fn trailer_tag(line: Seq<char>) -> Option<ShortTag> {
    if line.len() >= 4 && line.subrange(0, 4) == trailer_prefix() {
        match decode_spec(line.subrange(4, line.len() as int), SHORT_TAG_LEN as nat) {
            Ok(v) => Some(ShortTag((v % (tag_span() as nat)) as u64)),
            Err(_) => None,
        }
    } else {
        None
    }
}

/// Decoding: when the last line is a trailer, the body is what precedes it
/// and the tag is the trailer's; otherwise the whole text is the body.
pub open spec fn spec_decode(s: Seq<char>) -> (Seq<char>, Option<ShortTag>) {
    let (body, line) = split_last_line(s);
    match trailer_tag(line) {
        Some(t) => (body, Some(t)),
        None => (s, None),
    }
}

/// The SMS text for a message body: the body, a newline, then the trailer.
pub fn encode(body: &str, tag: ShortTag) -> (text: String)
    ensures
        text@ == spec_encode(body@, tag),
{
    let mut text = body.to_owned();
    push_char(&mut text, '\n');
    proof {
        reveal_strlit("#pk:");
    }
    text.append(TRAILER_PREFIX);
    let digits = tag.to_base32();
    text.append(digits.as_str());
    text
}

/// Splits a received SMS text into its body and the tag its trailer carries.
/// A text whose last line is not exactly a trailer is left whole.
pub fn decode(text: &str) -> (framed: Framed)
    ensures
        framed.body@ == spec_decode(text@).0,
        framed.tag == spec_decode(text@).1,
{
    let chars = chars_of(text);
    let n = chars.len();
    let ghost s = text@;
    // Find the last newline, scanning from the end.
    let mut k: usize = n;
    proof {
        assert(s.subrange(0, n as int) =~= s);
    }
    while k > 0 && chars[k - 1] != '\n'
        invariant
            k <= n,
            n == s.len(),
            chars@ == s,
            last_newline(s) == last_newline(s.subrange(0, k as int)),
        decreases k,
    {
        proof {
            let pre = s.subrange(0, k as int);
            assert(pre.drop_last() =~= s.subrange(0, k - 1));
        }
        k -= 1;
    }
    proof {
        assert(s.subrange(0, n as int) =~= s);
        if k > 0 {
            let pre = s.subrange(0, k as int);
            assert(pre.last() == '\n');
        } else {
            assert(s.subrange(0, 0) =~= Seq::<char>::empty());
        }
    }
    // `start` is where the last line begins; `body_end` where the body ends.
    let start: usize = k;
    let body_end: usize = if k > 0 { k - 1 } else { 0 };
    let ghost line = s.subrange(start as int, n as int);
    let ghost body = s.subrange(0, body_end as int);
    proof {
        if k == 0 {
            assert(line =~= s);
            assert(body =~= Seq::<char>::empty());
        }
        assert(split_last_line(s) == (body, line));
    }
    if n - start >= 4 && chars[start] == '#' && chars[start + 1] == 'p' && chars[start + 2] == 'k'
        && chars[start + 3] == ':' {
        proof {
            assert(line.subrange(0, 4) =~= trailer_prefix());
            assert(line.subrange(4, line.len() as int) =~= s.subrange(start + 4, n as int));
        }
        let tag_text = string_from_range(&chars, start + 4, n);
        match ShortTag::parse(tag_text.as_str()) {
            Ok(tag) => {
                let body_text = string_from_range(&chars, 0, body_end);
                return Framed { body: body_text, tag: Some(tag) };
            },
            Err(_) => {},
        }
    } else {
        proof {
            if line.len() >= 4 && line.subrange(0, 4) == trailer_prefix() {
                assert(line.subrange(0, 4)[0] == '#');
                assert(line.subrange(0, 4)[1] == 'p');
                assert(line.subrange(0, 4)[2] == 'k');
                assert(line.subrange(0, 4)[3] == ':');
            }
        }
    }
    Framed { body: text.to_owned(), tag: None }
}

proof fn lemma_last_newline_of_encoded(x: Seq<char>, y: Seq<char>)
    requires
        x.len() > 0,
        x.last() == '\n',
        forall|j: int| 0 <= j < y.len() ==> #[trigger] y[j] != '\n',
    ensures
        last_newline(x + y) == Some(x.len() - 1),
    decreases y.len(),
{
    if y.len() == 0 {
        assert(x + y =~= x);
    } else {
        let y2 = y.drop_last();
        assert forall|j: int| 0 <= j < y2.len() implies #[trigger] y2[j] != '\n' by {
            assert(y2[j] == y[j]);
        }
        lemma_last_newline_of_encoded(x, y2);
        assert((x + y).drop_last() =~= x + y2);
        assert((x + y).last() == y[y.len() - 1]);
    }
}

proof fn lemma_digits_not_newline(v: nat, n: nat)
    ensures
        forall|j: int|
            0 <= j < base32_digits(v, n).len() ==> #[trigger] base32_digits(v, n)[j] != '\n',
    decreases n,
{
    if n > 0 {
        lemma_digits_not_newline(v / 32, (n - 1) as nat);
        let d = base32_digits(v / 32, (n - 1) as nat);
        assert forall|j: int| 0 <= j < base32_digits(v, n).len() implies #[trigger] base32_digits(
            v,
            n,
        )[j] != '\n' by {
            if j < d.len() {
                assert(base32_digits(v, n)[j] == d[j]);
            }
        }
    }
}

/// What an encoded SMS decodes to is the body and tag it was encoded from,
/// whatever the body holds, newlines included.
pub proof fn law_decode_inverts_encode(body: Seq<char>, tag: ShortTag)
    ensures
        spec_decode(spec_encode(body, tag)) == (body, Some(tag)),
{
    let x = body.push('\n');
    let digits = base32_digits(tag.0 as nat, SHORT_TAG_LEN as nat);
    let y = trailer_prefix() + digits;
    lemma_digits_not_newline(tag.0 as nat, SHORT_TAG_LEN as nat);
    assert forall|j: int| 0 <= j < y.len() implies #[trigger] y[j] != '\n' by {
        if j >= 4 {
            assert(y[j] == digits[j - 4]);
        }
    }
    let s = spec_encode(body, tag);
    assert(s =~= x + y);
    lemma_last_newline_of_encoded(x, y);
    let i = body.len() as int;
    assert(s.subrange(0, i) =~= body);
    let line = s.subrange(i + 1, s.len() as int);
    assert(line =~= y);
    assert(line.subrange(0, 4) =~= trailer_prefix());
    assert(line.subrange(4, line.len() as int) =~= digits);
    law_short_tag_round_trip(tag);
}

} // verus!
