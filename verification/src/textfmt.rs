//! Verified text helpers: decimal and hexadecimal rendering of integers,
//! character-sequence comparison, and conversion between `Vec<char>` and
//! `String`.
use vstd::prelude::*;

verus! {

/// The decimal digit character for `d` (`0 <= d < 10`).
pub open spec fn dec_digit(d: int) -> char {
    ((0x30 + d) as u8) as char
}

/// The decimal rendering of `n` without leading zeros (`"0"` for zero).
pub open spec fn dec_nat(n: int) -> Seq<char>
    decreases n,
{
    if n < 10 {
        seq![dec_digit(n)]
    } else {
        dec_nat(n / 10).push(dec_digit(n % 10))
    }
}

/// Two decimal digits, zero padded (`05`, `23`).
pub open spec fn two_digits(n: int) -> Seq<char> {
    seq![dec_digit(n / 10), dec_digit(n % 10)]
}

/// The lower-case hexadecimal digit character for `d` (`0 <= d < 16`).
pub open spec fn hex_digit(d: int) -> char {
    if d < 10 {
        ((0x30 + d) as u8) as char
    } else {
        ((0x57 + d) as u8) as char
    }
}

/// The lower-case hexadecimal rendering of `n` without leading zeros.
pub open spec fn hex_nat(n: int) -> Seq<char>
    decreases n,
{
    if n < 16 {
        seq![hex_digit(n)]
    } else {
        hex_nat(n / 16).push(hex_digit(n % 16))
    }
}

/// Exactly two lower-case hexadecimal digits, zero padded (`0a`, `ff`).
pub open spec fn hex2(b: int) -> Seq<char> {
    seq![hex_digit(b / 16), hex_digit(b % 16)]
}

/// Lower-case hexadecimal, zero padded on the left to at least four digits.
pub open spec fn hex_pad4(n: int) -> Seq<char> {
    if n < 0x10 {
        seq!['0', '0', '0'] + hex_nat(n)
    } else if n < 0x100 {
        seq!['0', '0'] + hex_nat(n)
    } else if n < 0x1000 {
        seq!['0'] + hex_nat(n)
    } else {
        hex_nat(n)
    }
}

/// `p` is a prefix of `s`.
pub open spec fn spec_starts_with(s: Seq<char>, p: Seq<char>) -> bool {
    p.len() <= s.len() && s.subrange(0, p.len() as int) == p
}

/// Appends the decimal rendering of `n` to `out`.
pub fn push_dec_u64(out: &mut Vec<char>, n: u64)
    ensures
        final(out)@ == old(out)@ + dec_nat(n as int),
    decreases n,
{
    if n < 10 {
        out.push((0x30 + n as u8) as char);
        assert(out@ =~= old(out)@ + dec_nat(n as int));
    } else {
        push_dec_u64(out, n / 10);
        out.push((0x30 + (n % 10) as u8) as char);
        assert(out@ =~= old(out)@ + dec_nat(n as int));
    }
}

/// Appends two zero-padded decimal digits for `n` to `out`.
pub fn push_two_digits(out: &mut Vec<char>, n: u8)
    requires
        n < 100,
    ensures
        final(out)@ == old(out)@ + two_digits(n as int),
{
    out.push((0x30 + n / 10) as char);
    out.push((0x30 + n % 10) as char);
    assert(out@ =~= old(out)@ + two_digits(n as int));
}

/// Appends one lower-case hexadecimal digit for `d` to `out`.
pub fn push_hex_digit(out: &mut Vec<char>, d: u8)
    requires
        d < 16,
    ensures
        final(out)@ == old(out)@.push(hex_digit(d as int)),
{
    if d < 10 {
        out.push((0x30 + d) as char);
    } else {
        out.push((0x57 + d) as char);
    }
}

/// Appends two zero-padded lower-case hexadecimal digits for `b` to `out`.
pub fn push_hex2(out: &mut Vec<char>, b: u8)
    ensures
        final(out)@ == old(out)@ + hex2(b as int),
{
    push_hex_digit(out, b / 16);
    push_hex_digit(out, b % 16);
    assert(out@ =~= old(out)@ + hex2(b as int));
}

/// Appends the unpadded lower-case hexadecimal rendering of `n` to `out`.
pub fn push_hex_nat(out: &mut Vec<char>, n: usize)
    ensures
        final(out)@ == old(out)@ + hex_nat(n as int),
    decreases n,
{
    if n < 16 {
        push_hex_digit(out, n as u8);
        assert(out@ =~= old(out)@ + hex_nat(n as int));
    } else {
        push_hex_nat(out, n / 16);
        push_hex_digit(out, (n % 16) as u8);
        assert(out@ =~= old(out)@ + hex_nat(n as int));
    }
}

/// Appends the hexadecimal rendering of `n`, zero padded to at least four
/// digits, to `out`.
pub fn push_hex_pad4(out: &mut Vec<char>, n: usize)
    ensures
        final(out)@ == old(out)@ + hex_pad4(n as int),
{
    if n < 0x10 {
        out.push('0');
        out.push('0');
        out.push('0');
    } else if n < 0x100 {
        out.push('0');
        out.push('0');
    } else if n < 0x1000 {
        out.push('0');
    }
    push_hex_nat(out, n);
    assert(out@ =~= old(out)@ + hex_pad4(n as int));
}

/// Appends every character of `s` to `out`.
pub fn push_str_chars(out: &mut Vec<char>, s: &str)
    ensures
        final(out)@ == old(out)@ + s@,
{
    let len = s.unicode_len();
    let mut i: usize = 0;
    while i < len
        invariant
            len == s@.len(),
            i <= len,
            out@ == old(out)@ + s@.subrange(0, i as int),
        decreases len - i,
    {
        out.push(s.get_char(i));
        assert(out@ =~= old(out)@ + s@.subrange(0, (i + 1) as int));
        i += 1;
    }
    assert(out@ =~= old(out)@ + s@);
}

/// Character-by-character string equality, specified over the views.
pub fn str_eq(a: &str, b: &str) -> (r: bool)
    ensures
        r == (a@ == b@),
{
    let alen = a.unicode_len();
    let blen = b.unicode_len();
    if alen != blen {
        return false;
    }
    let mut i: usize = 0;
    while i < alen
        invariant
            alen == a@.len(),
            alen == b@.len(),
            i <= alen,
            forall|j: int| 0 <= j < i ==> a@[j] == b@[j],
        decreases alen - i,
    {
        if a.get_char(i) != b.get_char(i) {
            return false;
        }
        i += 1;
    }
    proof {
        assert(a@ =~= b@);
    }
    true
}

/// Whether `p` is a prefix of `s`, specified over the views.
pub fn str_starts_with(s: &str, p: &str) -> (r: bool)
    ensures
        r == spec_starts_with(s@, p@),
{
    let slen = s.unicode_len();
    let plen = p.unicode_len();
    if plen > slen {
        return false;
    }
    let mut i: usize = 0;
    while i < plen
        invariant
            slen == s@.len(),
            plen == p@.len(),
            plen <= slen,
            i <= plen,
            forall|j: int| 0 <= j < i ==> s@[j] == p@[j],
        decreases plen - i,
    {
        if s.get_char(i) != p.get_char(i) {
            return false;
        }
        i += 1;
    }
    proof {
        assert(s@.subrange(0, p@.len() as int) =~= p@);
    }
    true
}

/// Collects the characters of `s` into a vector.
pub fn str_to_chars(s: &str) -> (r: Vec<char>)
    ensures
        r@ == s@,
{
    let mut out: Vec<char> = Vec::new();
    push_str_chars(&mut out, s);
    out
}

/// Relies on `String`'s `FromIterator<char>` impl: collecting an iterator of
/// characters builds the string of exactly those characters in order.
#[verifier::external_body]
pub fn chars_to_string(v: &Vec<char>) -> (r: String)
    ensures
        r@ == v@,
{
    v.iter().collect()
}

} // verus!
