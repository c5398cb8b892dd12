//! Conversions between `String` and character vectors, and decimal /
//! hexadecimal rendering of integers.
//!
//! The library builds text as `Vec<char>` so that every step can be
//! reasoned about as a `Seq<char>`; `String` only appears at the edges.

use vstd::prelude::*;

verus! {

/// The characters of `s`, in order.
#[verifier::external_body]
pub(crate) fn chars_of(s: &str) -> (res: Vec<char>)
    ensures
        res@ == s@,
{
    s.chars().collect()
}

/// A `String` holding exactly the characters of `v`.
#[verifier::external_body]
pub(crate) fn string_of(v: &Vec<char>) -> (res: String)
    ensures
        res@ == v@,
{
    v.iter().collect()
}

/// Copy of a string, as characters.
pub fn clone_string(s: &String) -> (res: String)
    ensures
        res@ == s@,
{
    let v = chars_of(s.as_str());
    string_of(&v)
}

/// Appends every character of `src` to `dst`.
pub fn push_all(dst: &mut Vec<char>, src: &Vec<char>)
    ensures
        final(dst)@ == old(dst)@ + src@,
{
    let mut i: usize = 0;
    while i < src.len()
        invariant
            i <= src.len(),
            dst@ == old(dst)@ + src@.take(i as int),
        decreases src.len() - i,
    {
        dst.push(src[i]);
        i += 1;
        assert(src@.take(i as int) == src@.take(i - 1) + seq![src@[i - 1]]);
    }
    assert(src@.take(src.len() as int) == src@);
}

/// Appends the characters of `s` to `dst`.
pub fn push_str(dst: &mut Vec<char>, s: &str)
    ensures
        final(dst)@ == old(dst)@ + s@,
{
    let v = chars_of(s);
    push_all(dst, &v);
}

/// Decimal digit character.
pub open spec fn digit(n: int) -> char {
    (('0' as int) + n) as char
}

/// Decimal rendering of a natural number, without sign or padding.
pub open spec fn dec(n: nat) -> Seq<char>
    decreases n,
{
    if n < 10 {
        seq![digit(n as int)]
    } else {
        dec(n / 10).push(digit((n % 10) as int))
    }
}

/// Decimal rendering of `n`, as characters.
pub fn dec_chars(n: u64) -> (res: Vec<char>)
    ensures
        res@ == dec(n as nat),
    decreases n,
{
    if n < 10 {
        let mut v = Vec::new();
        v.push((('0' as u8) + (n as u8)) as char);
        v
    } else {
        let mut v = dec_chars(n / 10);
        v.push((('0' as u8) + ((n % 10) as u8)) as char);
        v
    }
}

/// Decimal rendering of a 128-bit `n`, as characters.
pub fn dec_chars_wide(n: u128) -> (res: Vec<char>)
    ensures
        res@ == dec(n as nat),
    decreases n,
{
    if n < 10 {
        let mut v = Vec::new();
        v.push((('0' as u8) + (n as u8)) as char);
        v
    } else {
        let mut v = dec_chars_wide(n / 10);
        v.push((('0' as u8) + ((n % 10) as u8)) as char);
        v
    }
}

/// Decimal rendering of `n` as a `String` (what `to_string` prints).
pub fn dec_string(n: u64) -> (res: String)
    ensures
        res@ == dec(n as nat),
{
    let v = dec_chars(n);
    string_of(&v)
}

/// Lowercase hexadecimal digit for a nibble.
pub open spec fn hex_digit(n: int) -> char {
    if n < 10 {
        (('0' as int) + n) as char
    } else {
        (('a' as int) + n - 10) as char
    }
}

/// Two lowercase hex digits for a byte (`{:02x}`).
pub open spec fn hex2(b: u8) -> Seq<char> {
    seq![hex_digit(b as int / 16), hex_digit(b as int % 16)]
}

/// Four lowercase hex digits for a 16-bit value (`{:04x}`).
pub open spec fn hex4(v: u16) -> Seq<char> {
    hex2((v / 256) as u8) + hex2((v % 256) as u8)
}

/// Eight lowercase hex digits for a 32-bit value (`{:08x}`).
pub open spec fn hex8(v: u32) -> Seq<char> {
    hex4((v / 65536) as u16) + hex4((v % 65536) as u16)
}

/// Lowercase hex digit for `n < 16`.
pub fn hex_digit_char(n: u8) -> (c: char)
    requires
        n < 16,
    ensures
        c == hex_digit(n as int),
{
    if n < 10 {
        (('0' as u8) + n) as char
    } else {
        (('a' as u8) + n - 10) as char
    }
}

/// Appends the two hex digits of `b`.
pub fn push_hex2(dst: &mut Vec<char>, b: u8)
    ensures
        final(dst)@ == old(dst)@ + hex2(b),
{
    dst.push(hex_digit_char(b / 16));
    dst.push(hex_digit_char(b % 16));
}

/// Appends the four hex digits of `v`.
pub fn push_hex4(dst: &mut Vec<char>, v: u16)
    ensures
        final(dst)@ == old(dst)@ + hex4(v),
{
    push_hex2(dst, (v / 256) as u8);
    push_hex2(dst, (v % 256) as u8);
}

/// Appends the eight hex digits of `v`.
pub fn push_hex8(dst: &mut Vec<char>, v: u32)
    ensures
        final(dst)@ == old(dst)@ + hex8(v),
{
    push_hex4(dst, (v / 65536) as u16);
    push_hex4(dst, (v % 65536) as u16);
}

} // verus!

verus! {

/// What `String::from_utf8_lossy` makes of `bytes`.
pub uninterp spec fn lossy_utf8(bytes: Seq<u8>) -> Seq<char>;

/// The text of `bytes` read as UTF-8: exactly the decoded characters
/// when the bytes are valid UTF-8, otherwise the lossy reading.
pub open spec fn utf8_text(bytes: Seq<u8>) -> Seq<char> {
    if vstd::utf8::valid_utf8(bytes) {
        vstd::utf8::decode_utf8(bytes)
    } else {
        lossy_utf8(bytes)
    }
}

/// Decodes `bytes` as UTF-8, replacing invalid sequences with U+FFFD
/// (`String::from_utf8_lossy`). Valid UTF-8 decodes to exactly its
/// characters.
#[verifier::external_body]
pub(crate) fn utf8_lossy(bytes: &[u8]) -> (res: String)
    ensures
        res@ == (if vstd::utf8::valid_utf8(bytes@) {
            vstd::utf8::decode_utf8(bytes@)
        } else {
            lossy_utf8(bytes@)
        }),
{
    String::from_utf8_lossy(bytes).into_owned()
}

/// `prefix` in front of a successful result; failure passes through.
pub open spec fn opt_prepend<A>(prefix: Seq<A>, r: Option<Seq<A>>) -> Option<Seq<A>> {
    match r {
        Some(t) => Some(prefix + t),
        None => None,
    }
}

/// Unicode `White_Space` characters.
pub open spec fn is_space(c: char) -> bool {
    ('\u{9}' <= c && c <= '\u{d}') || c == ' ' || c == '\u{85}' || c == '\u{a0}' || c == '\u{1680}' || (
    '\u{2000}' <= c && c <= '\u{200a}') || c == '\u{2028}' || c == '\u{2029}' || c == '\u{202f}' || c
        == '\u{205f}' || c == '\u{3000}'
}

/// Whether `c` is Unicode white space.
pub fn is_space_char(c: char) -> (r: bool)
    ensures
        r == is_space(c),
{
    ('\u{9}' <= c && c <= '\u{d}') || c == ' ' || c == '\u{85}' || c == '\u{a0}' || c == '\u{1680}' || (
    '\u{2000}' <= c && c <= '\u{200a}') || c == '\u{2028}' || c == '\u{2029}' || c == '\u{202f}' || c
        == '\u{205f}' || c == '\u{3000}'
}

} // verus!
