//! Message identifiers and the short tags that travel in SMS trailers.
//!
//! A `MessageId` is 128 bits: a 48-bit compose timestamp (milliseconds) above
//! 80 random bits, so ids sort by compose time. Its low 64 bits form the
//! `ShortTag`. Both are written in Crockford-style base 32 (digits and upper
//! case letters without I, L, O, U), most significant digit first.

use vstd::prelude::*;
use vstd::arithmetic::div_mod::{lemma_div_denominator, lemma_mod_breakdown, lemma_small_mod};
use crate::text::string_from_chars;

verus! {

/// Number of base-32 characters in a written `MessageId`.
pub const MESSAGE_ID_LEN: usize = 26;

/// Number of base-32 characters in a written `ShortTag`.
pub const SHORT_TAG_LEN: usize = 13;

/// Largest timestamp (milliseconds) that fits in the 48-bit timestamp field.
pub const MAX_TIMESTAMP_MS: u64 = 0xffff_ffff_ffff;

/// 2^80: the weight of the timestamp field inside a `MessageId`.
pub open spec fn random_span() -> int {
    0x1_0000_0000_0000_0000_0000
}

/// 2^128: the number of distinct `MessageId` values.
pub open spec fn id_span() -> int {
    0x1_0000_0000_0000_0000_0000_0000_0000_0000int
}

/// 2^64: the number of distinct `ShortTag` values.
pub open spec fn tag_span() -> int {
    0x1_0000_0000_0000_0000
}

/// Why a written id or tag could not be read back.
#[derive(Debug, Clone, PartialEq, Eq)]
pub enum IdParseError {
    BadLength { expected: usize, found: usize },
    BadCharacter(char),
}

/// How Rust's `Debug` writes a character: quoted, with escapes.
pub uninterp spec fn char_debug_text(c: char) -> Seq<char>;

/// The character as Rust's `Debug` writes it, quotes and escapes included.
///
/// Trusted: formats `c` with `{:?}`; the text is named by
/// `char_debug_text`, a function of `c` alone.
#[verifier::external_body]
fn char_debug(c: char) -> (s: String)
    ensures
        s@ == char_debug_text(c),
{
    format!("{c:?}")
}

/// The text of a parse error.
pub open spec fn spec_parse_error_text(e: IdParseError) -> Seq<char> {
    match e {
        IdParseError::BadLength { expected, found } => "expected "@ + crate::text::decimal_digits(
            expected as nat,
        ) + " characters, found "@ + crate::text::decimal_digits(found as nat),
        IdParseError::BadCharacter(c) => "invalid base32 character "@ + char_debug_text(c),
    }
}

impl IdParseError {
    /// The error as a line of text.
    pub fn text(&self) -> (s: String)
        ensures
            s@ == spec_parse_error_text(*self),
    {
        match self {
            IdParseError::BadLength { expected, found } => {
                let mut s = String::from_str("expected ");
                let e = crate::text::zero_padded_decimal(*expected as u64, 0);
                s.append(e.as_str());
                s.append(" characters, found ");
                let f = crate::text::zero_padded_decimal(*found as u64, 0);
                s.append(f.as_str());
                proof {
                    reveal_strlit("expected ");
                    reveal_strlit(" characters, found ");
                }
                s
            },
            IdParseError::BadCharacter(c) => {
                let mut s = String::from_str("invalid base32 character ");
                let d = char_debug(*c);
                s.append(d.as_str());
                proof {
                    reveal_strlit("invalid base32 character ");
                }
                s
            },
        }
    }
}

/// The base-32 digit written for the value `d` (0 <= d < 32).
pub open spec fn alphabet_char(d: int) -> char {
    if d == 0 {
        '0'
    } else if d == 1 {
        '1'
    } else if d == 2 {
        '2'
    } else if d == 3 {
        '3'
    } else if d == 4 {
        '4'
    } else if d == 5 {
        '5'
    } else if d == 6 {
        '6'
    } else if d == 7 {
        '7'
    } else if d == 8 {
        '8'
    } else if d == 9 {
        '9'
    } else if d == 10 {
        'A'
    } else if d == 11 {
        'B'
    } else if d == 12 {
        'C'
    } else if d == 13 {
        'D'
    } else if d == 14 {
        'E'
    } else if d == 15 {
        'F'
    } else if d == 16 {
        'G'
    } else if d == 17 {
        'H'
    } else if d == 18 {
        'J'
    } else if d == 19 {
        'K'
    } else if d == 20 {
        'M'
    } else if d == 21 {
        'N'
    } else if d == 22 {
        'P'
    } else if d == 23 {
        'Q'
    } else if d == 24 {
        'R'
    } else if d == 25 {
        'S'
    } else if d == 26 {
        'T'
    } else if d == 27 {
        'V'
    } else if d == 28 {
        'W'
    } else if d == 29 {
        'X'
    } else if d == 30 {
        'Y'
    } else {
        'Z'
    }
}

/// The value a character stands for when an id is read back: upper and lower
/// case letters alike, with `I`/`L` read as 1 and `O` read as 0.
pub open spec fn digit_value(c: char) -> Option<nat> {
    match c {
        '0' | 'O' | 'o' => Some(0nat),
        '1' | 'I' | 'i' | 'L' | 'l' => Some(1nat),
        '2' => Some(2nat),
        '3' => Some(3nat),
        '4' => Some(4nat),
        '5' => Some(5nat),
        '6' => Some(6nat),
        '7' => Some(7nat),
        '8' => Some(8nat),
        '9' => Some(9nat),
        'A' | 'a' => Some(10nat),
        'B' | 'b' => Some(11nat),
        'C' | 'c' => Some(12nat),
        'D' | 'd' => Some(13nat),
        'E' | 'e' => Some(14nat),
        'F' | 'f' => Some(15nat),
        'G' | 'g' => Some(16nat),
        'H' | 'h' => Some(17nat),
        'J' | 'j' => Some(18nat),
        'K' | 'k' => Some(19nat),
        'M' | 'm' => Some(20nat),
        'N' | 'n' => Some(21nat),
        'P' | 'p' => Some(22nat),
        'Q' | 'q' => Some(23nat),
        'R' | 'r' => Some(24nat),
        'S' | 's' => Some(25nat),
        'T' | 't' => Some(26nat),
        'V' | 'v' => Some(27nat),
        'W' | 'w' => Some(28nat),
        'X' | 'x' => Some(29nat),
        'Y' | 'y' => Some(30nat),
        'Z' | 'z' => Some(31nat),
        _ => None,
    }
}

/// 32 to the power `n`.
pub open spec fn pow32(n: nat) -> nat
    decreases n,
{
    if n == 0 {
        1
    } else {
        32 * pow32((n - 1) as nat)
    }
}

/// The `n` lowest base-32 digits of `v`, most significant first.
pub open spec fn base32_digits(v: nat, n: nat) -> Seq<char>
    decreases n,
{
    if n == 0 {
        Seq::empty()
    } else {
        base32_digits(v / 32, (n - 1) as nat).push(alphabet_char((v % 32) as int))
    }
}

/// The number whose base-32 digits are `s`, most significant first.
pub open spec fn base32_value(s: Seq<char>) -> nat
    decreases s.len(),
{
    if s.len() == 0 {
        0
    } else {
        base32_value(s.drop_last()) * 32 + match digit_value(s.last()) {
            Some(d) => d,
            None => 0,
        }
    }
}

/// The first character of `s` that is not a base-32 digit, if any.
pub open spec fn first_invalid(s: Seq<char>) -> Option<char>
    decreases s.len(),
{
    if s.len() == 0 {
        None
    } else if digit_value(s[0]) is None {
        Some(s[0])
    } else {
        first_invalid(s.drop_first())
    }
}

/// Reading `chars` base-32 digits: the length is checked first, then the
/// characters from the left; the value is taken modulo 2^128.
pub open spec fn decode_spec(s: Seq<char>, chars: nat) -> Result<nat, IdParseError> {
    if s.len() != chars {
        Err(IdParseError::BadLength { expected: chars as usize, found: s.len() as usize })
    } else {
        match first_invalid(s) {
            Some(c) => Err(IdParseError::BadCharacter(c)),
            None => Ok(base32_value(s) % (id_span() as nat)),
        }
    }
}

proof fn lemma_alphabet_digit(d: int)
    requires
        0 <= d < 32,
    ensures
        digit_value(alphabet_char(d)) == Some(d as nat),
{
}

proof fn lemma_digits_len(v: nat, n: nat)
    ensures
        base32_digits(v, n).len() == n,
    decreases n,
{
    if n > 0 {
        lemma_digits_len(v / 32, (n - 1) as nat);
    }
}

proof fn lemma_pow32_pos(n: nat)
    ensures
        pow32(n) > 0,
    decreases n,
{
    if n > 0 {
        lemma_pow32_pos((n - 1) as nat);
    }
}

proof fn lemma_digits_index(v: nat, n: nat, j: int)
    requires
        0 <= j < n,
    ensures
        base32_digits(v, n)[j] == alphabet_char(((v / pow32((n - 1 - j) as nat)) % 32) as int),
    decreases n,
{
    lemma_digits_len(v / 32, (n - 1) as nat);
    let prev = base32_digits(v / 32, (n - 1) as nat);
    assert(base32_digits(v, n) == prev.push(alphabet_char((v % 32) as int)));
    if j == n - 1 {
        assert(pow32(0) == 1);
        assert(v / 1 == v);
    } else {
        assert(base32_digits(v, n)[j] == prev[j]);
        lemma_digits_index(v / 32, (n - 1) as nat, j);
        let k = (n - 2 - j) as nat;
        lemma_pow32_pos(k);
        lemma_div_denominator(v as int, 32, pow32(k) as int);
        assert(pow32((k + 1) as nat) == 32 * pow32(k));
        assert((n - 1 - j) as nat == (k + 1) as nat);
    }
}

proof fn lemma_digits_valid(v: nat, n: nat)
    ensures
        first_invalid(base32_digits(v, n)) is None,
        forall|j: int| 0 <= j < n ==> digit_value(#[trigger] base32_digits(v, n)[j]) is Some,
    decreases n,
{
    lemma_digits_len(v, n);
    assert forall|j: int| 0 <= j < n implies digit_value(#[trigger] base32_digits(v, n)[j]) is Some by {
        lemma_digits_index(v, n, j);
        lemma_alphabet_digit(((v / pow32((n - 1 - j) as nat)) % 32) as int);
    }
    lemma_all_valid_first_invalid(base32_digits(v, n));
}

proof fn lemma_all_valid_first_invalid(s: Seq<char>)
    requires
        forall|j: int| 0 <= j < s.len() ==> digit_value(#[trigger] s[j]) is Some,
    ensures
        first_invalid(s) is None,
    decreases s.len(),
{
    if s.len() > 0 {
        assert(digit_value(s[0]) is Some);
        let t = s.drop_first();
        assert forall|j: int| 0 <= j < t.len() implies digit_value(#[trigger] t[j]) is Some by {
            assert(t[j] == s[j + 1]);
        }
        lemma_all_valid_first_invalid(t);
    }
}

proof fn lemma_value_of_digits(v: nat, n: nat)
    ensures
        base32_value(base32_digits(v, n)) == v % pow32(n),
    decreases n,
{
    if n == 0 {
        assert(v % 1 == 0);
    } else {
        let p = pow32((n - 1) as nat);
        lemma_pow32_pos((n - 1) as nat);
        lemma_value_of_digits(v / 32, (n - 1) as nat);
        let s = base32_digits(v, n);
        assert(s.drop_last() =~= base32_digits(v / 32, (n - 1) as nat));
        lemma_alphabet_digit((v % 32) as int);
        lemma_mod_breakdown(v as int, 32, p as int);
    }
}

proof fn lemma_pow32_26()
    ensures
        pow32(26) == 4 * id_span(),
{
    reveal_with_fuel(pow32, 27);
}

proof fn lemma_pow32_13()
    ensures
        pow32(13) == 2 * tag_span(),
{
    reveal_with_fuel(pow32, 14);
}

/// Writing a value in `n` digits and reading it back gives the value modulo
/// 32^n and 2^128.
proof fn lemma_decode_encode(v: nat, n: nat)
    ensures
        decode_spec(base32_digits(v, n), n) == Ok::<nat, IdParseError>((v % pow32(n)) % (id_span() as nat)),
{
    lemma_digits_len(v, n);
    lemma_digits_valid(v, n);
    lemma_value_of_digits(v, n);
}

/// The base-32 character for a digit.
fn encode_digit(d: u8) -> (c: char)
    requires
        d < 32,
    ensures
        c == alphabet_char(d as int),
{
    match d {
        0 => '0',
        1 => '1',
        2 => '2',
        3 => '3',
        4 => '4',
        5 => '5',
        6 => '6',
        7 => '7',
        8 => '8',
        9 => '9',
        10 => 'A',
        11 => 'B',
        12 => 'C',
        13 => 'D',
        14 => 'E',
        15 => 'F',
        16 => 'G',
        17 => 'H',
        18 => 'J',
        19 => 'K',
        20 => 'M',
        21 => 'N',
        22 => 'P',
        23 => 'Q',
        24 => 'R',
        25 => 'S',
        26 => 'T',
        27 => 'V',
        28 => 'W',
        29 => 'X',
        30 => 'Y',
        31 => 'Z',
        _ => 'Z',
    }
}

/// The digit a character stands for, or the character itself as the error.
fn decode_char(c: char) -> (r: Result<u8, IdParseError>)
    ensures
        match digit_value(c) {
            Some(d) => r == Ok::<u8, IdParseError>(d as u8),
            None => r == Err::<u8, IdParseError>(IdParseError::BadCharacter(c)),
        },
{
    match c {
        '0' | 'O' | 'o' => Ok(0),
        '1' | 'I' | 'i' | 'L' | 'l' => Ok(1),
        '2' => Ok(2),
        '3' => Ok(3),
        '4' => Ok(4),
        '5' => Ok(5),
        '6' => Ok(6),
        '7' => Ok(7),
        '8' => Ok(8),
        '9' => Ok(9),
        'A' | 'a' => Ok(10),
        'B' | 'b' => Ok(11),
        'C' | 'c' => Ok(12),
        'D' | 'd' => Ok(13),
        'E' | 'e' => Ok(14),
        'F' | 'f' => Ok(15),
        'G' | 'g' => Ok(16),
        'H' | 'h' => Ok(17),
        'J' | 'j' => Ok(18),
        'K' | 'k' => Ok(19),
        'M' | 'm' => Ok(20),
        'N' | 'n' => Ok(21),
        'P' | 'p' => Ok(22),
        'Q' | 'q' => Ok(23),
        'R' | 'r' => Ok(24),
        'S' | 's' => Ok(25),
        'T' | 't' => Ok(26),
        'V' | 'v' => Ok(27),
        'W' | 'w' => Ok(28),
        'X' | 'x' => Ok(29),
        'Y' | 'y' => Ok(30),
        'Z' | 'z' => Ok(31),
        _ => Err(IdParseError::BadCharacter(c)),
    }
}

/// Writes the `chars` lowest base-32 digits of `value`, most significant first.
fn encode_u128(value: u128, chars: usize) -> (s: String)
    ensures
        s@ == base32_digits(value as nat, chars as nat),
{
    let mut rev: Vec<char> = Vec::new();
    let mut cur = value;
    let mut k: usize = 0;
    proof {
        assert(pow32(0) == 1);
        assert(value as nat / 1 == value as nat);
    }
    while k < chars
        invariant
            k <= chars,
            rev@.len() == k,
            cur as nat == value as nat / pow32(k as nat),
            forall|j: int|
                0 <= j < k ==> #[trigger] rev@[j] == alphabet_char(
                    ((value as nat / pow32(j as nat)) % 32) as int,
                ),
        decreases chars - k,
    {
        rev.push(encode_digit((cur % 32) as u8));
        proof {
            lemma_pow32_pos(k as nat);
            lemma_div_denominator(value as int, pow32(k as nat) as int, 32);
            assert(pow32((k + 1) as nat) == 32 * pow32(k as nat));
            assert(pow32(k as nat) * 32 == 32 * pow32(k as nat));
        }
        cur = cur / 32;
        k += 1;
    }
    let mut out: Vec<char> = Vec::new();
    let mut i: usize = 0;
    while i < chars
        invariant
            i <= chars,
            rev@.len() == chars,
            out@.len() == i,
            forall|j: int| 0 <= j < i ==> #[trigger] out@[j] == rev@[chars - 1 - j],
        decreases chars - i,
    {
        out.push(rev[chars - 1 - i]);
        i += 1;
    }
    proof {
        lemma_digits_len(value as nat, chars as nat);
        assert forall|j: int| 0 <= j < chars implies #[trigger] out@[j] == base32_digits(
            value as nat,
            chars as nat,
        )[j] by {
            lemma_digits_index(value as nat, chars as nat, j);
            assert(out@[j] == rev@[chars - 1 - j]);
        }
        assert(out@ =~= base32_digits(value as nat, chars as nat));
    }
    string_from_chars(&out)
}

proof fn lemma_shift_in_digit(v: u128, d: u128)
    requires
        d < 32,
    ensures
        ((v << 5u128) | d) as int == (v as int * 32 + d as int) % 0x1_0000_0000_0000_0000_0000_0000_0000_0000int,
{
    assert(((v << 5u128) | d) as int == (v as int * 32 + d as int) % 0x1_0000_0000_0000_0000_0000_0000_0000_0000int) by (bit_vector)
        requires
            d < 32,
    ;
}

/// Reads exactly `chars` base-32 digits.
fn decode_u128(text: &str, chars: usize) -> (r: Result<u128, IdParseError>)
    ensures
        match decode_spec(text@, chars as nat) {
            Ok(v) => r == Ok::<u128, IdParseError>(v as u128),
            Err(e) => r == Err::<u128, IdParseError>(e),
        },
{
    let n = text.unicode_len();
    if n != chars {
        return Err(IdParseError::BadLength { expected: chars, found: n });
    }
    let ghost s = text@;
    let mut value: u128 = 0;
    let mut i: usize = 0;
    proof {
        assert(s.subrange(0, 0) =~= Seq::<char>::empty());
        assert(s.subrange(0, n as int) =~= s);
        assert(base32_value(s.subrange(0, 0)) == 0);
        lemma_small_mod(0, id_span() as nat);
    }
    while i < n
        invariant
            n == s.len(),
            s == text@,
            n == chars,
            i <= n,
            value as nat == base32_value(s.subrange(0, i as int)) % (id_span() as nat),
            first_invalid(s) == first_invalid(s.subrange(i as int, n as int)),
        decreases n - i,
    {
        let c = text.get_char(i);
        let d = decode_char(c);
        proof {
            let rest = s.subrange(i as int, n as int);
            assert(rest[0] == c);
        }
        match d {
            Err(e) => {
                return Err(e);
            },
            Ok(d) => {
                proof {
                    let rest = s.subrange(i as int, n as int);
                    assert(rest.drop_first() =~= s.subrange(i + 1, n as int));
                    let pre = s.subrange(0, i + 1);
                    assert(pre.drop_last() =~= s.subrange(0, i as int));
                    assert(pre.last() == c);
                    lemma_shift_in_digit(value, d as u128);
                    let x = base32_value(s.subrange(0, i as int));
                    let m = id_span();
                    vstd::arithmetic::div_mod::lemma_mul_mod_noop_left(x as int, 32, m);
                    vstd::arithmetic::div_mod::lemma_add_mod_noop(x as int * 32, d as int, m);
                    vstd::arithmetic::div_mod::lemma_add_mod_noop((x as int % m) * 32, d as int, m);
                    lemma_small_mod(d as nat, m as nat);
                }
                value = (value << 5u128) | (d as u128);
            },
        }
        i += 1;
    }
    proof {
        assert(s.subrange(0, n as int) =~= s);
        assert(s.subrange(n as int, n as int) =~= Seq::<char>::empty());
    }
    Ok(value)
}

/// A 128-bit message identifier: compose timestamp above random bits.
#[derive(Debug, Clone, Copy, PartialEq, Eq, PartialOrd, Ord, Hash, Structural)]
pub struct MessageId(pub u128);

/// The low 64 bits of a `MessageId`, short enough to ride in an SMS trailer.
#[derive(Debug, Clone, Copy, PartialEq, Eq, PartialOrd, Ord, Hash, Structural)]
pub struct ShortTag(pub u64);

/// The raw value of the id built from a timestamp and random bits: the
/// timestamp is cut to 48 bits and the random part to 80 bits.
pub open spec fn id_from_parts(timestamp_ms: u64, random: u128) -> int {
    (timestamp_ms as int % 0x1_0000_0000_0000) * random_span() + random as int % random_span()
}

impl MessageId {
    /// Builds an id from a compose timestamp and random bits, truncating both
    /// to their fields rather than failing.
    pub fn from_parts(timestamp_ms: u64, random: u128) -> (id: MessageId)
        ensures
            id.0 as int == id_from_parts(timestamp_ms, random),
    {
        let ts = (timestamp_ms & MAX_TIMESTAMP_MS) as u128;
        let rand = random & 0xffff_ffff_ffff_ffff_ffffu128;
        let raw = (ts << 80u128) | rand;
        proof {
            assert((timestamp_ms & 0xffff_ffff_ffffu64) as int == timestamp_ms as int % 0x1_0000_0000_0000) by (bit_vector);
            assert((random & 0xffff_ffff_ffff_ffff_ffffu128) as int == random as int % 0x1_0000_0000_0000_0000_0000) by (bit_vector);
            assert(ts < 0x1_0000_0000_0000u128);
            assert(rand < 0x1_0000_0000_0000_0000_0000u128);
            assert(ts < 0x1_0000_0000_0000u128 && rand < 0x1_0000_0000_0000_0000_0000u128 ==>
                ((ts << 80u128) | rand) as int == ts as int * 0x1_0000_0000_0000_0000_0000 + rand as int) by (bit_vector);
        }
        MessageId(raw)
    }

    pub fn from_u128(raw: u128) -> (id: MessageId)
        ensures
            id.0 == raw,
    {
        MessageId(raw)
    }

    pub fn as_u128(self) -> (raw: u128)
        ensures
            raw == self.0,
    {
        self.0
    }

    /// The compose timestamp carried in the high 48 bits.
    pub fn timestamp_ms(self) -> (ts: u64)
        ensures
            ts as int == self.0 as int / random_span(),
    {
        let v = self.0;
        proof {
            assert((v >> 80u128) as int == v as int / 0x1_0000_0000_0000_0000_0000) by (bit_vector);
            assert((v >> 80u128) < 0x1_0000_0000_0000u128) by (bit_vector);
        }
        (v >> 80u128) as u64
    }

    /// The short tag: the low 64 bits of the id.
    pub fn short_tag(self) -> (tag: ShortTag)
        ensures
            tag.0 as int == self.0 as int % tag_span(),
    {
        let v = self.0;
        proof {
            assert((v as u64) as int == v as int % 0x1_0000_0000_0000_0000) by (bit_vector);
        }
        ShortTag(v as u64)
    }

    /// The id written as `MESSAGE_ID_LEN` base-32 characters.
    pub fn to_base32(self) -> (s: String)
        ensures
            s@ == base32_digits(self.0 as nat, MESSAGE_ID_LEN as nat),
    {
        encode_u128(self.0, MESSAGE_ID_LEN)
    }

    /// Reads an id written in base 32: exactly `MESSAGE_ID_LEN` characters,
    /// case-insensitive, with `I`/`L` read as 1 and `O` as 0.
    pub fn parse(text: &str) -> (r: Result<MessageId, IdParseError>)
        ensures
            match decode_spec(text@, MESSAGE_ID_LEN as nat) {
                Ok(v) => r == Ok::<MessageId, IdParseError>(MessageId(v as u128)),
                Err(e) => r == Err::<MessageId, IdParseError>(e),
            },
    {
        match decode_u128(text, MESSAGE_ID_LEN) {
            Ok(v) => Ok(MessageId(v)),
            Err(e) => Err(e),
        }
    }
}

impl ShortTag {
    pub fn from_u64(raw: u64) -> (tag: ShortTag)
        ensures
            tag.0 == raw,
    {
        ShortTag(raw)
    }

    pub fn as_u64(self) -> (raw: u64)
        ensures
            raw == self.0,
    {
        self.0
    }

    /// The tag written as `SHORT_TAG_LEN` base-32 characters.
    pub fn to_base32(self) -> (s: String)
        ensures
            s@ == base32_digits(self.0 as nat, SHORT_TAG_LEN as nat),
    {
        encode_u128(self.0 as u128, SHORT_TAG_LEN)
    }

    /// Reads a tag written in base 32: exactly `SHORT_TAG_LEN` characters;
    /// the value read is cut to 64 bits.
    pub fn parse(text: &str) -> (r: Result<ShortTag, IdParseError>)
        ensures
            match decode_spec(text@, SHORT_TAG_LEN as nat) {
                Ok(v) => r == Ok::<ShortTag, IdParseError>(ShortTag((v % (tag_span() as nat)) as u64)),
                Err(e) => r == Err::<ShortTag, IdParseError>(e),
            },
    {
        match decode_u128(text, SHORT_TAG_LEN) {
            Ok(v) => {
                proof {
                    assert((v as u64) as int == v as int % 0x1_0000_0000_0000_0000) by (bit_vector);
                }
                Ok(ShortTag(v as u64))
            },
            Err(e) => Err(e),
        }
    }
}

/// Reading back a written id gives the same id.
pub proof fn law_message_id_round_trip(id: MessageId)
    ensures
        decode_spec(base32_digits(id.0 as nat, MESSAGE_ID_LEN as nat), MESSAGE_ID_LEN as nat)
            == Ok::<nat, IdParseError>(id.0 as nat),
{
    lemma_decode_encode(id.0 as nat, 26);
    lemma_pow32_26();
    lemma_small_mod(id.0 as nat, pow32(26));
    lemma_small_mod(id.0 as nat, id_span() as nat);
}

/// A base-32 digit reads the same in lower case.
proof fn lemma_digit_folds(d: int)
    requires
        0 <= d < 32,
    ensures
        digit_value(crate::peer::fold_char(alphabet_char(d))) == Some(d as nat),
{
}

/// Two texts whose characters read as the same digits read as the same
/// number, and either both or neither hold an invalid character.
proof fn lemma_same_digits(s: Seq<char>, t: Seq<char>)
    requires
        s.len() == t.len(),
        forall|i: int| 0 <= i < s.len() ==> digit_value(#[trigger] s[i]) == digit_value(t[i]),
    ensures
        base32_value(s) == base32_value(t),
        first_invalid(s) is None <==> first_invalid(t) is None,
    decreases s.len(),
{
    if s.len() > 0 {
        lemma_same_digits(s.drop_last(), t.drop_last());
        lemma_same_digits(s.drop_first(), t.drop_first());
        assert(digit_value(s[0]) == digit_value(t[0]));
        assert(digit_value(s.last()) == digit_value(t.last()));
    }
}

/// Ids are read case-insensitively: the written id in lower case reads
/// back as the same id.
pub proof fn law_message_id_reads_in_lower_case(id: MessageId)
    ensures
        decode_spec(
            crate::peer::fold_ascii_case(base32_digits(id.0 as nat, MESSAGE_ID_LEN as nat)),
            MESSAGE_ID_LEN as nat,
        ) == Ok::<nat, IdParseError>(id.0 as nat),
{
    let s = base32_digits(id.0 as nat, MESSAGE_ID_LEN as nat);
    let t = crate::peer::fold_ascii_case(s);
    lemma_digits_len(id.0 as nat, MESSAGE_ID_LEN as nat);
    assert forall|i: int| 0 <= i < s.len() implies digit_value(#[trigger] s[i]) == digit_value(t[i]) by {
        lemma_digits_index(id.0 as nat, MESSAGE_ID_LEN as nat, i);
        let d = ((id.0 as nat / pow32((MESSAGE_ID_LEN - 1 - i) as nat)) % 32) as int;
        lemma_digit_folds(d);
        lemma_alphabet_digit(d);
    }
    lemma_same_digits(s, t);
    law_message_id_round_trip(id);
}

/// The alphabet is sorted: a larger digit is a later character.
proof fn lemma_alphabet_increasing(d1: int, d2: int)
    requires
        0 <= d1 < d2 < 32,
    ensures
        (alphabet_char(d1) as int) < (alphabet_char(d2) as int),
{
}

/// Two texts of one length, each with a character more at its end, compare
/// as the texts do, and on the last characters when the texts are equal.
proof fn lemma_chars_lt_push(p: Seq<char>, q: Seq<char>, x: char, y: char)
    requires
        p.len() == q.len(),
    ensures
        crate::text::chars_lt(p.push(x), q.push(y)) == (crate::text::chars_lt(p, q) || (p =~= q && (x as int)
            < (y as int))),
    decreases p.len(),
{
    if p.len() == 0 {
        assert(p =~= q);
        assert(p.push(x).drop_first() =~= Seq::<char>::empty());
        assert(q.push(y).drop_first() =~= Seq::<char>::empty());
        assert(!crate::text::chars_lt(Seq::<char>::empty(), Seq::<char>::empty()));
        assert(p.push(x)[0] == x && q.push(y)[0] == y);
    } else {
        assert(p.push(x)[0] == p[0] && q.push(y)[0] == q[0]);
        assert(p.push(x).drop_first() =~= p.drop_first().push(x));
        assert(q.push(y).drop_first() =~= q.drop_first().push(y));
        lemma_chars_lt_push(p.drop_first(), q.drop_first(), x, y);
        if p[0] == q[0] {
            assert(p =~= q <==> p.drop_first() =~= q.drop_first()) by {
                if p.drop_first() =~= q.drop_first() {
                    assert forall|i: int| 0 <= i < p.len() implies p[i] == q[i] by {
                        if i > 0 {
                            assert(p[i] == p.drop_first()[i - 1]);
                            assert(q[i] == q.drop_first()[i - 1]);
                        }
                    }
                }
            }
        }
    }
}

/// Written with `n` digits, numbers below 32^n compare as their texts do.
proof fn lemma_digits_order(v: nat, w: nat, n: nat)
    requires
        v < pow32(n),
        w < pow32(n),
    ensures
        v < w <==> crate::text::chars_lt(base32_digits(v, n), base32_digits(w, n)),
        v == w <==> base32_digits(v, n) =~= base32_digits(w, n),
    decreases n,
{
    if n == 0 {
        crate::text::lemma_chars_lt_irreflexive(base32_digits(v, n));
    } else {
        let m = (n - 1) as nat;
        assert(pow32(n) == 32 * pow32(m));
        lemma_digits_order(v / 32, w / 32, m);
        lemma_digits_order(w / 32, v / 32, m);
        lemma_digits_len(v / 32, m);
        lemma_digits_len(w / 32, m);
        let p = base32_digits(v / 32, m);
        let q = base32_digits(w / 32, m);
        let x = alphabet_char((v % 32) as int);
        let y = alphabet_char((w % 32) as int);
        lemma_chars_lt_push(p, q, x, y);
        if v % 32 < w % 32 {
            lemma_alphabet_increasing((v % 32) as int, (w % 32) as int);
        } else if w % 32 < v % 32 {
            lemma_alphabet_increasing((w % 32) as int, (v % 32) as int);
        }
        if v / 32 != w / 32 {
            crate::text::lemma_chars_lt_irreflexive(p);
        }
        if v == w {
        } else if base32_digits(v, n) =~= base32_digits(w, n) {
            assert(base32_digits(v, n).last() == x);
            assert(base32_digits(w, n).last() == y);
            assert(base32_digits(v, n).drop_last() =~= p);
            assert(base32_digits(w, n).drop_last() =~= q);
            if v % 32 < w % 32 {
                lemma_alphabet_increasing((v % 32) as int, (w % 32) as int);
            } else if w % 32 < v % 32 {
                lemma_alphabet_increasing((w % 32) as int, (v % 32) as int);
            }
        }
    }
}

/// Ids written in base 32 sort as the ids do: the text order of two
/// written ids is the order of the ids.
pub proof fn law_text_order_follows_id_order(a: MessageId, b: MessageId)
    ensures
        a.0 < b.0 <==> crate::text::chars_lt(
            base32_digits(a.0 as nat, MESSAGE_ID_LEN as nat),
            base32_digits(b.0 as nat, MESSAGE_ID_LEN as nat),
        ),
{
    lemma_pow32_26();
    lemma_digits_order(a.0 as nat, b.0 as nat, MESSAGE_ID_LEN as nat);
}

/// The written id is its 26 base-32 digits, most significant first: the
/// character at `i` is the digit of 32^(25 - i).
pub proof fn law_base32_character(id: MessageId, i: int)
    requires
        0 <= i < MESSAGE_ID_LEN,
    ensures
        base32_digits(id.0 as nat, MESSAGE_ID_LEN as nat).len() == MESSAGE_ID_LEN,
        base32_digits(id.0 as nat, MESSAGE_ID_LEN as nat)[i] == alphabet_char(
            ((id.0 as nat / pow32((MESSAGE_ID_LEN - 1 - i) as nat)) % 32) as int,
        ),
{
    lemma_digits_len(id.0 as nat, MESSAGE_ID_LEN as nat);
    lemma_digits_index(id.0 as nat, MESSAGE_ID_LEN as nat, i);
}

/// A power of 32 is the power of two five times as high.
proof fn lemma_pow32_is_pow2(n: nat)
    ensures
        pow32(n) == vstd::arithmetic::power2::pow2(5 * n),
    decreases n,
{
    vstd::arithmetic::power2::lemma2_to64();
    if n > 0 {
        let m = (n - 1) as nat;
        lemma_pow32_is_pow2(m);
        vstd::arithmetic::power2::lemma_pow2_adds(5, 5 * m);
        assert(5 + 5 * m == 5 * n);
        assert(pow32(n) == 32 * pow32(m));
    }
}

/// The written id, character by character, in the shift form: the
/// character at `i` is the alphabet's entry for the five bits of the id
/// that lie `5 * (25 - i)` bits up, so the first one, with only three bits
/// above it, is one of the first eight digits.
pub proof fn law_base32_character_bits(id: MessageId, i: int)
    requires
        0 <= i < MESSAGE_ID_LEN,
    ensures
        base32_digits(id.0 as nat, MESSAGE_ID_LEN as nat)[i] == alphabet_char(
            ((id.0 >> ((5 * (25 - i)) as u128)) & 31u128) as int,
        ),
        i == 0 ==> (id.0 >> 125u128) < 8,
{
    law_base32_character(id, i);
    let k = (25 - i) as nat;
    let shift = (5 * k) as u128;
    lemma_pow32_is_pow2(k);
    vstd::bits::lemma_u128_shr_is_div(id.0, shift);
    let y = id.0 >> shift;
    assert(y & 31u128 == y % 32u128) by (bit_vector);
    let x = id.0;
    assert(x >> 125u128 < 8) by (bit_vector);
}

/// Reading back a written tag gives the same tag.
pub proof fn law_short_tag_round_trip(tag: ShortTag)
    ensures
        decode_spec(base32_digits(tag.0 as nat, SHORT_TAG_LEN as nat), SHORT_TAG_LEN as nat)
            == Ok::<nat, IdParseError>(tag.0 as nat),
        (tag.0 as nat % (tag_span() as nat)) as u64 == tag.0,
{
    lemma_decode_encode(tag.0 as nat, 13);
    lemma_pow32_13();
    lemma_small_mod(tag.0 as nat, pow32(13));
    lemma_small_mod(tag.0 as nat, id_span() as nat);
    lemma_small_mod(tag.0 as nat, tag_span() as nat);
}

/// Ids sort by compose time: an earlier timestamp gives a smaller id,
/// whatever the random bits.
pub proof fn law_ids_sort_by_compose_time(t1: u64, r1: u128, t2: u64, r2: u128)
    requires
        t1 < t2 <= MAX_TIMESTAMP_MS,
    ensures
        id_from_parts(t1, r1) < id_from_parts(t2, r2),
{
    lemma_small_mod(t1 as nat, 0x1_0000_0000_0000);
    lemma_small_mod(t2 as nat, 0x1_0000_0000_0000);
    assert(r1 as int % random_span() < random_span());
    assert((t1 as int + 1) * random_span() <= t2 as int * random_span()) by (nonlinear_arith)
        requires t1 < t2;
}

/// The timestamp read from an id built from parts is the timestamp given,
/// cut to 48 bits.
pub proof fn law_timestamp_survives(t: u64, r: u128)
    ensures
        id_from_parts(t, r) / random_span() == t as int % 0x1_0000_0000_0000,
{
    let q = t as int % 0x1_0000_0000_0000;
    let rr = r as int % random_span();
    vstd::arithmetic::div_mod::lemma_fundamental_div_mod_converse_div(
        id_from_parts(t, r), random_span(), q, rr);
}

} // verus!
