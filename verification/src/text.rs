//! Text helpers: decimal and hexadecimal rendering, ASCII lower-casing,
//! and byte-wise comparison.

use vstd::prelude::*;

verus! {

/// `String::push` of std appends the given character to the end of the
/// string and changes nothing else.
pub assume_specification[ String::push ](s: &mut String, c: char)
    ensures
        final(s)@ == old(s)@.push(c),
;

/// The character of a decimal digit.
pub open spec fn digit_char(d: int) -> char {
    ((48 + d) as u8) as char
}

/// The decimal rendering of `n`, without sign or leading zeros.
pub open spec fn decimal_digits(n: nat) -> Seq<char>
    decreases n,
{
    if n < 10 {
        seq![digit_char(n as int)]
    } else {
        decimal_digits(n / 10).push(digit_char((n % 10) as int))
    }
}

/// Appends the decimal rendering of `n` to `out`.
pub fn push_decimal(out: &mut String, n: u32)
    ensures
        final(out)@ == old(out)@ + decimal_digits(n as nat),
    decreases n,
{
    if n >= 10 {
        push_decimal(out, n / 10);
    }
    let d: u8 = (n % 10) as u8;
    out.push((d + 48) as char);
    proof {
        let head = old(out)@;
        if n >= 10 {
            assert(final(out)@ =~= head + decimal_digits((n / 10) as nat).push(
                digit_char((n % 10) as int),
            ));
        } else {
            assert(final(out)@ =~= head + seq![digit_char(n as int)]);
        }
    }
}

/// The decimal rendering of `n` as a string of its own.
pub fn decimal_string(n: u32) -> (s: String)
    ensures
        s@ == decimal_digits(n as nat),
{
    let mut s = String::new();
    push_decimal(&mut s, n);
    assert(Seq::<char>::empty() + decimal_digits(n as nat) =~= decimal_digits(n as nat));
    s
}

/// The lower-case hexadecimal digit for a value below sixteen.
pub open spec fn hex_char(nibble: int) -> char {
    if nibble < 10 {
        ((48 + nibble) as u8) as char
    } else {
        ((87 + nibble) as u8) as char
    }
}

/// Lower-case hexadecimal rendering, two digits per byte, high digit first.
pub open spec fn hex_lower(bytes: Seq<u8>) -> Seq<char>
    decreases bytes.len(),
{
    if bytes.len() == 0 {
        Seq::empty()
    } else {
        hex_lower(bytes.drop_last()).push(hex_char(bytes.last() as int / 16)).push(
            hex_char(bytes.last() as int % 16),
        )
    }
}

fn hex_digit(nibble: u8) -> (c: char)
    requires
        nibble < 16,
    ensures
        c == hex_char(nibble as int),
{
    if nibble < 10 {
        (nibble + 48) as char
    } else {
        (nibble + 87) as char
    }
}

/// Appends the lower-case hexadecimal rendering of the first `count` bytes
/// of `bytes` to `out`.
pub fn push_hex_lower(out: &mut String, bytes: &[u8], count: usize)
    requires
        count <= bytes@.len(),
    ensures
        final(out)@ == old(out)@ + hex_lower(bytes@.take(count as int)),
{
    let mut i: usize = 0;
    assert(bytes@.take(0) =~= Seq::<u8>::empty());
    assert(out@ =~= old(out)@ + hex_lower(bytes@.take(0)));
    while i < count
        invariant
            i <= count <= bytes@.len(),
            out@ == old(out)@ + hex_lower(bytes@.take(i as int)),
        decreases count - i,
    {
        let b = bytes[i];
        out.push(hex_digit(b / 16));
        out.push(hex_digit(b % 16));
        proof {
            let next = bytes@.take(i + 1);
            assert(next.drop_last() =~= bytes@.take(i as int));
            assert(next.last() == b);
            assert(out@ =~= old(out)@ + hex_lower(next));
        }
        i = i + 1;
    }
}

/// ASCII lower-casing of one character: `A` to `Z` map to `a` to `z`, and
/// every other character to itself.
pub open spec fn ascii_lower_char(c: char) -> char {
    if 'A' <= c && c <= 'Z' {
        ((c as u8) + 32) as char
    } else {
        c
    }
}

/// ASCII lower-casing of a text, character by character.
pub open spec fn ascii_lower(s: Seq<char>) -> Seq<char> {
    Seq::new(s.len(), |i: int| ascii_lower_char(s[i]))
}

fn lower_char(c: char) -> (r: char)
    ensures
        r == ascii_lower_char(c),
{
    if c >= 'A' && c <= 'Z' {
        ((c as u8) + 32) as char
    } else {
        c
    }
}

/// A copy of `s` with its ASCII letters in lower case.
pub fn to_ascii_lowercase(s: &str) -> (r: String)
    ensures
        r@ == ascii_lower(s@),
{
    let mut r = String::new();
    for c in it: s.chars()
        invariant
            it.seq() == s@,
            r@ == ascii_lower(s@.take(it.index() as int)),
    {
        r.push(lower_char(c));
        assert(r@ =~= ascii_lower(s@.take(it.index() + 1)));
    }
    assert(s@.take(s@.len() as int) =~= s@);
    r
}

/// Whether two texts are equal.
pub fn same_text(a: &str, b: &str) -> (r: bool)
    ensures
        r == (a@ == b@),
{
    a.to_owned() == b.to_owned()
}

/// Whether two byte strings are equal.
pub fn bytes_eq(a: &[u8], b: &[u8]) -> (r: bool)
    ensures
        r == (a@ == b@),
{
    if a.len() != b.len() {
        return false;
    }
    let mut i: usize = 0;
    while i < a.len()
        invariant
            i <= a@.len(),
            a@.len() == b@.len(),
            a@.take(i as int) == b@.take(i as int),
        decreases a@.len() - i,
    {
        if a[i] != b[i] {
            return false;
        }
        assert(a@.take(i + 1) =~= a@.take(i as int).push(a@[i as int]));
        assert(b@.take(i + 1) =~= b@.take(i as int).push(b@[i as int]));
        i = i + 1;
    }
    assert(a@.take(a@.len() as int) =~= a@);
    assert(b@.take(b@.len() as int) =~= b@);
    true
}

/// A fresh copy of a byte string.
pub fn copy_bytes(a: &[u8]) -> (r: Vec<u8>)
    ensures
        r@ == a@,
{
    let mut r: Vec<u8> = Vec::new();
    let mut i: usize = 0;
    while i < a.len()
        invariant
            i <= a@.len(),
            r@ == a@.take(i as int),
        decreases a@.len() - i,
    {
        r.push(a[i]);
        assert(a@.take(i + 1) =~= a@.take(i as int).push(a@[i as int]));
        i = i + 1;
    }
    assert(a@.take(a@.len() as int) =~= a@);
    r
}

} // verus!
