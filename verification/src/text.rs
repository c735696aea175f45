//! Small character-level helpers over `String` used by the encoders.

use vstd::prelude::*;

verus! {

/// Appends one character to a string.
///
/// Trusted: calls `String::push`, which std documents as appending the given
/// `char` to the end of the string.
#[verifier::external_body]
pub(crate) fn push_char(s: &mut String, c: char)
    ensures
        final(s)@ == old(s)@.push(c),
{
    s.push(c);
}

/// Whether two texts are the same.
pub fn same_text(a: &str, b: &str) -> (r: bool)
    ensures
        r == (a@ == b@),
{
    let x = String::from_str(a);
    let y = String::from_str(b);
    x == y
}

/// Builds a string holding exactly the given characters, in order.
pub fn string_from_chars(chars: &Vec<char>) -> (s: String)
    ensures
        s@ == chars@,
{
    let mut s = String::new();
    let mut i: usize = 0;
    while i < chars.len()
        invariant
            i <= chars@.len(),
            s@ == chars@.subrange(0, i as int),
        decreases chars@.len() - i,
    {
        push_char(&mut s, chars[i]);
        assert(chars@.subrange(0, i + 1) =~= chars@.subrange(0, i as int).push(chars@[i as int]));
        i += 1;
    }
    assert(chars@.subrange(0, chars@.len() as int) =~= chars@);
    s
}

/// Builds a string holding the characters `chars[from..to]`, in order.
pub fn string_from_range(chars: &Vec<char>, from: usize, to: usize) -> (s: String)
    requires
        from <= to <= chars@.len(),
    ensures
        s@ == chars@.subrange(from as int, to as int),
{
    let mut s = String::new();
    let mut i: usize = from;
    while i < to
        invariant
            from <= i <= to <= chars@.len(),
            s@ == chars@.subrange(from as int, i as int),
        decreases to - i,
    {
        push_char(&mut s, chars[i]);
        assert(chars@.subrange(from as int, i + 1) =~= chars@.subrange(from as int, i as int).push(
            chars@[i as int],
        ));
        i += 1;
    }
    s
}

/// The characters of a string, in order.
pub fn chars_of(text: &str) -> (v: Vec<char>)
    ensures
        v@ == text@,
{
    let n = text.unicode_len();
    let mut v: Vec<char> = Vec::new();
    let mut i: usize = 0;
    while i < n
        invariant
            n == text@.len(),
            i <= n,
            v@ == text@.subrange(0, i as int),
        decreases n - i,
    {
        v.push(text.get_char(i));
        assert(text@.subrange(0, i + 1) =~= text@.subrange(0, i as int).push(text@[i as int]));
        i += 1;
    }
    assert(text@.subrange(0, n as int) =~= text@);
    v
}


/// Lexicographic order of character sequences, by code point: the order of
/// Rust strings, whose UTF-8 bytes compare as their code points do.
pub open spec fn chars_lt(a: Seq<char>, b: Seq<char>) -> bool
    decreases a.len(),
{
    if a.len() == 0 {
        b.len() > 0
    } else if b.len() == 0 {
        false
    } else if a[0] != b[0] {
        (a[0] as int) < (b[0] as int)
    } else {
        chars_lt(a.drop_first(), b.drop_first())
    }
}

pub proof fn lemma_chars_lt_irreflexive(a: Seq<char>)
    ensures
        !chars_lt(a, a),
    decreases a.len(),
{
    if a.len() > 0 {
        lemma_chars_lt_irreflexive(a.drop_first());
    }
}

pub proof fn lemma_chars_lt_transitive(a: Seq<char>, b: Seq<char>, c: Seq<char>)
    requires
        chars_lt(a, b),
        chars_lt(b, c),
    ensures
        chars_lt(a, c),
    decreases a.len(),
{
    if a.len() > 0 && b.len() > 0 && c.len() > 0 {
        if a[0] == b[0] && b[0] == c[0] {
            lemma_chars_lt_transitive(a.drop_first(), b.drop_first(), c.drop_first());
        }
    }
}

pub proof fn lemma_chars_lt_total(a: Seq<char>, b: Seq<char>)
    requires
        a != b,
    ensures
        chars_lt(a, b) || chars_lt(b, a),
    decreases a.len(),
{
    if a.len() == 0 {
        if b.len() == 0 {
            assert(a =~= b);
        }
    } else if b.len() > 0 && a[0] == b[0] {
        if a.drop_first() == b.drop_first() {
            assert(a =~= b.drop_first().insert(0, b[0]));
            assert(b =~= b.drop_first().insert(0, b[0]));
        }
        lemma_chars_lt_total(a.drop_first(), b.drop_first());
    } else if b.len() > 0 {
        assert(a[0] as int != b[0] as int);
    }
}

/// Whether `a` comes before `b` in string order.
pub fn str_less(a: &str, b: &str) -> (r: bool)
    ensures
        r == chars_lt(a@, b@),
{
    let x = chars_of(a);
    let y = chars_of(b);
    let mut i: usize = 0;
    proof {
        assert(a@.subrange(0, a@.len() as int) =~= a@);
        assert(b@.subrange(0, b@.len() as int) =~= b@);
    }
    while i < x.len() && i < y.len() && x[i] == y[i]
        invariant
            x@ == a@,
            y@ == b@,
            i <= x@.len(),
            i <= y@.len(),
            chars_lt(a@, b@) == chars_lt(a@.subrange(i as int, a@.len() as int), b@.subrange(i as int, b@.len() as int)),
        decreases x@.len() - i,
    {
        proof {
            let sa = a@.subrange(i as int, a@.len() as int);
            let sb = b@.subrange(i as int, b@.len() as int);
            assert(sa.drop_first() =~= a@.subrange(i + 1, a@.len() as int));
            assert(sb.drop_first() =~= b@.subrange(i + 1, b@.len() as int));
        }
        i += 1;
    }
    if i == x.len() {
        i < y.len()
    } else if i == y.len() {
        false
    } else {
        x[i] < y[i]
    }
}

/// The character of a decimal digit.
pub open spec fn digit_char(d: int) -> char {
    if d == 0 {
        '0'
    } else if d == 1 {
        '1'
    } else if d == 2 {
        '2'
    } else if d == 3 {
        '3'
    } else if d == 4 {
        '4'
    } else if d == 5 {
        '5'
    } else if d == 6 {
        '6'
    } else if d == 7 {
        '7'
    } else if d == 8 {
        '8'
    } else {
        '9'
    }
}

/// `n` written in decimal, with no leading zero.
pub open spec fn decimal_digits(n: nat) -> Seq<char>
    decreases n,
{
    if n < 10 {
        seq![digit_char(n as int)]
    } else {
        decimal_digits(n / 10).push(digit_char((n % 10) as int))
    }
}

/// `n` written in decimal, padded on the left with zeros to `width`
/// characters.
pub open spec fn zero_padded(n: nat, width: nat) -> Seq<char> {
    let d = decimal_digits(n);
    if d.len() < width {
        Seq::new((width - d.len()) as nat, |i: int| '0') + d
    } else {
        d
    }
}

fn digit_char_exec(d: u64) -> (c: char)
    requires
        d < 10,
    ensures
        c == digit_char(d as int),
{
    if d == 0 {
        '0'
    } else if d == 1 {
        '1'
    } else if d == 2 {
        '2'
    } else if d == 3 {
        '3'
    } else if d == 4 {
        '4'
    } else if d == 5 {
        '5'
    } else if d == 6 {
        '6'
    } else if d == 7 {
        '7'
    } else if d == 8 {
        '8'
    } else {
        '9'
    }
}

/// `n` in decimal, padded on the left with zeros to `width` characters.
pub fn zero_padded_decimal(n: u64, width: usize) -> (s: String)
    ensures
        s@ == zero_padded(n as nat, width as nat),
{
    let mut rev: Vec<char> = Vec::new();
    rev.push(digit_char_exec(n % 10));
    let mut m: u64 = n / 10;
    proof {
        assert(rev@.reverse() =~= seq![digit_char((n % 10) as int)]);
        if n >= 10 {
            assert(decimal_digits(n as nat) == decimal_digits(m as nat).push(digit_char((n % 10) as int)));
            assert(decimal_digits(m as nat).push(digit_char((n % 10) as int)) =~= decimal_digits(m as nat) + rev@.reverse());
        } else {
            assert(decimal_digits(n as nat) =~= Seq::<char>::empty() + rev@.reverse());
        }
    }
    while m > 0
        invariant
            decimal_digits(n as nat) == (if m > 0 {
                decimal_digits(m as nat)
            } else {
                Seq::<char>::empty()
            }) + rev@.reverse(),
        decreases m,
    {
        let ghost before = rev@;
        rev.push(digit_char_exec(m % 10));
        let next = m / 10;
        proof {
            assert(rev@.reverse() =~= seq![digit_char((m % 10) as int)] + before.reverse());
            let prefix = if next > 0 {
                decimal_digits(next as nat)
            } else {
                Seq::<char>::empty()
            };
            if m >= 10 {
                assert(decimal_digits(m as nat) == decimal_digits(next as nat).push(digit_char((m % 10) as int)));
            } else {
                assert(decimal_digits(m as nat) == seq![digit_char(m as int)]);
                assert(m % 10 == m);
            }
            assert(decimal_digits(m as nat) =~= prefix + seq![digit_char((m % 10) as int)]);
            assert((prefix + seq![digit_char((m % 10) as int)]) + before.reverse() =~= prefix + rev@.reverse());
        }
        m = next;
    }
    proof {
        assert(decimal_digits(n as nat) =~= rev@.reverse());
    }
    let mut out: Vec<char> = Vec::new();
    let len = rev.len();
    let mut pad: usize = 0;
    let fill: usize = if len < width { width - len } else { 0 };
    while pad < fill
        invariant
            pad <= fill,
            out@ =~= Seq::new(pad as nat, |i: int| '0'),
        decreases fill - pad,
    {
        out.push('0');
        pad += 1;
    }
    let mut k: usize = len;
    while k > 0
        invariant
            k <= len,
            len == rev@.len(),
            out@ =~= Seq::new(fill as nat, |i: int| '0') + rev@.reverse().take((len - k) as int),
        decreases k,
    {
        k -= 1;
        out.push(rev[k]);
        proof {
            assert(rev@.reverse().take((len - k) as int) =~= rev@.reverse().take((len - k - 1) as int).push(rev@[k as int]));
        }
    }
    proof {
        assert(rev@.reverse().take(len as int) =~= rev@.reverse());
    }
    string_from_chars(&out)
}

/// Whether a character is white space, as Unicode's White_Space property
/// lists it.
pub open spec fn is_white_space(c: char) -> bool {
    let u = c as u32;
    (0x9 <= u && u <= 0xD) || u == 0x20 || u == 0x85 || u == 0xA0 || u == 0x1680 || (0x2000 <= u
        && u <= 0x200A) || u == 0x2028 || u == 0x2029 || u == 0x202F || u == 0x205F || u == 0x3000
}

fn is_white_space_exec(c: char) -> (b: bool)
    ensures
        b == is_white_space(c),
{
    let u = c as u32;
    (0x9 <= u && u <= 0xD) || u == 0x20 || u == 0x85 || u == 0xA0 || u == 0x1680 || (0x2000 <= u
        && u <= 0x200A) || u == 0x2028 || u == 0x2029 || u == 0x202F || u == 0x205F || u == 0x3000
}

/// How many white-space characters `s` starts with.
pub open spec fn leading_white_space(s: Seq<char>) -> nat
    decreases s.len(),
{
    if s.len() == 0 || !is_white_space(s[0]) {
        0
    } else {
        1 + leading_white_space(s.drop_first())
    }
}

/// How many white-space characters `s` ends with.
pub open spec fn trailing_white_space(s: Seq<char>) -> nat
    decreases s.len(),
{
    if s.len() == 0 || !is_white_space(s.last()) {
        0
    } else {
        1 + trailing_white_space(s.drop_last())
    }
}

/// `s` without its leading and trailing white space.
pub open spec fn trimmed(s: Seq<char>) -> Seq<char> {
    let t = s.skip(leading_white_space(s) as int);
    t.take(t.len() - trailing_white_space(t))
}

proof fn lemma_leading_bounded(s: Seq<char>)
    ensures
        leading_white_space(s) <= s.len(),
    decreases s.len(),
{
    if s.len() > 0 && is_white_space(s[0]) {
        lemma_leading_bounded(s.drop_first());
    }
}

proof fn lemma_trailing_bounded(s: Seq<char>)
    ensures
        trailing_white_space(s) <= s.len(),
    decreases s.len(),
{
    if s.len() > 0 && is_white_space(s.last()) {
        lemma_trailing_bounded(s.drop_last());
    }
}

/// `text` without its leading and trailing white space.
pub fn trim_white_space(text: &str) -> (r: String)
    ensures
        r@ == trimmed(text@),
{
    let chars = chars_of(text);
    let ghost s = text@;
    let n = chars.len();
    let mut i: usize = 0;
    proof {
        assert(s.skip(0) =~= s);
    }
    while i < n && is_white_space_exec(chars[i])
        invariant
            i <= n,
            n == s.len(),
            chars@ == s,
            leading_white_space(s) == i + leading_white_space(s.skip(i as int)),
        decreases n - i,
    {
        proof {
            assert(s.skip(i as int).drop_first() =~= s.skip(i + 1));
        }
        i += 1;
    }
    proof {
        assert(leading_white_space(s.skip(i as int)) == 0);
    }
    let ghost t = s.skip(i as int);
    let mut j: usize = n;
    proof {
        assert(t.take((j - i) as int) =~= t);
    }
    while j > i && is_white_space_exec(chars[j - 1])
        invariant
            i <= j <= n,
            n == s.len(),
            chars@ == s,
            t == s.skip(i as int),
            trailing_white_space(t) == (n - j) + trailing_white_space(t.take((j - i) as int)),
        decreases j - i,
    {
        proof {
            let u = t.take((j - i) as int);
            assert(u.last() == s[j - 1]);
            assert(u.drop_last() =~= t.take((j - 1 - i) as int));
        }
        j -= 1;
    }
    proof {
        let u = t.take((j - i) as int);
        if j > i {
            assert(u.last() == s[j - 1]);
        }
        assert(trailing_white_space(u) == 0);
        assert(t.take(t.len() - trailing_white_space(t)) =~= s.subrange(i as int, j as int));
    }
    string_from_range(&chars, i, j)
}

} // verus!
