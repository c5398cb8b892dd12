//! Hex encoding helpers: lowercase, without prefixes.

use crate::util::text::{hex2, push_hex2, string_of};
use vstd::prelude::*;

verus! {

/// Lowercase hex of every byte, without separators.
pub open spec fn hex_of(s: Seq<u8>) -> Seq<char>
    decreases s.len(),
{
    if s.len() == 0 {
        Seq::empty()
    } else {
        hex_of(s.drop_last()) + hex2(s.last())
    }
}

/// Lowercase hex of every byte, separated by `:`.
pub open spec fn hex_colon_of(s: Seq<u8>) -> Seq<char>
    decreases s.len(),
{
    if s.len() == 0 {
        Seq::empty()
    } else if s.len() == 1 {
        hex2(s[0])
    } else {
        hex_colon_of(s.drop_last()) + seq![':'] + hex2(s.last())
    }
}

/// Hex rendering has two characters per byte.
pub proof fn lemma_hex_of_len(s: Seq<u8>)
    ensures
        hex_of(s).len() == 2 * s.len(),
    decreases s.len(),
{
    if s.len() > 0 {
        lemma_hex_of_len(s.drop_last());
    }
}

/// Appends the lowercase hex of `bytes`.
pub fn push_hex(out: &mut Vec<char>, bytes: &[u8])
    ensures
        final(out)@ == old(out)@ + hex_of(bytes@),
{
    let mut i: usize = 0;
    while i < bytes.len()
        invariant
            i <= bytes@.len(),
            out@ == old(out)@ + hex_of(bytes@.take(i as int)),
        decreases bytes.len() - i,
    {
        push_hex2(out, bytes[i]);
        proof {
            assert(bytes@.take(i + 1).drop_last() =~= bytes@.take(i as int));
        }
        i += 1;
    }
    assert(bytes@.take(bytes@.len() as int) =~= bytes@);
}

/// Encode bytes as lowercase hex without separators.
pub fn encode(bytes: &[u8]) -> (res: String)
    ensures
        res@ == hex_of(bytes@),
{
    let mut out: Vec<char> = Vec::new();
    push_hex(&mut out, bytes);
    string_of(&out)
}

/// Encode bytes as colon-separated lowercase hex, e.g. `a8:3f:c1:44`.
pub fn encode_colon(bytes: &[u8]) -> (res: String)
    ensures
        res@ == hex_colon_of(bytes@),
{
    let mut out: Vec<char> = Vec::new();
    let mut i: usize = 0;
    while i < bytes.len()
        invariant
            i <= bytes@.len(),
            out@ == hex_colon_of(bytes@.take(i as int)),
        decreases bytes.len() - i,
    {
        if i > 0 {
            out.push(':');
        }
        push_hex2(&mut out, bytes[i]);
        proof {
            assert(bytes@.take(i + 1).drop_last() =~= bytes@.take(i as int));
            if i == 0 {
                assert(hex_colon_of(bytes@.take(1)) == hex2(bytes@[0]));
            }
        }
        i += 1;
    }
    assert(bytes@.take(bytes@.len() as int) =~= bytes@);
    string_of(&out)
}

/// Whether `c` is an ASCII hex digit.
pub open spec fn is_hex_char(c: char) -> bool {
    ('0' <= c && c <= '9') || ('a' <= c && c <= 'f') || ('A' <= c && c <= 'F')
}

/// Value of an ASCII hex digit.
pub open spec fn hex_val(c: char) -> int {
    if '0' <= c && c <= '9' {
        c as int - '0' as int
    } else if 'a' <= c && c <= 'f' {
        c as int - 'a' as int + 10
    } else {
        c as int - 'A' as int + 10
    }
}

/// The bytes spelled by hex digits `d` (two per byte).
pub open spec fn hex_bytes(d: Seq<char>) -> Seq<u8> {
    Seq::new(d.len() / 2, |i: int| (hex_val(d[2 * i]) * 16 + hex_val(d[2 * i + 1])) as u8)
}

/// Whether `c` may stand in hex text: a hex digit or a `:` / space
/// separator.
pub open spec fn hex_text_char(c: char) -> bool {
    is_hex_char(c) || c == ':' || c == ' '
}

/// What [`decode`] reads from `s`: its hex digits, with `:` and space
/// separators skipped; any other character, or digits that do not come
/// in pairs, give `None`.
pub open spec fn decode_spec(s: Seq<char>) -> Option<Seq<u8>> {
    let d = s.filter(|c: char| is_hex_char(c));
    if exists|k: int| 0 <= k < s.len() && !hex_text_char(#[trigger] s[k]) {
        None
    } else if d.len() % 2 != 0 {
        None
    } else {
        Some(hex_bytes(d))
    }
}

fn is_hex_digit(c: char) -> (r: bool)
    ensures
        r == is_hex_char(c),
{
    ('0' <= c && c <= '9') || ('a' <= c && c <= 'f') || ('A' <= c && c <= 'F')
}

fn hex_digit_value(c: char) -> (v: u8)
    requires
        is_hex_char(c),
    ensures
        v as int == hex_val(c),
        v < 16,
{
    if '0' <= c && c <= '9' {
        ((c as u32) - ('0' as u32)) as u8
    } else if 'a' <= c && c <= 'f' {
        ((c as u32) - ('a' as u32) + 10) as u8
    } else {
        ((c as u32) - ('A' as u32) + 10) as u8
    }
}

/// Decode a hex string with optional `:` or space separators. `None`
/// when it holds any other non-hex character, or when the digits do not
/// come in pairs.
pub fn decode(s: &str) -> (res: Option<Vec<u8>>)
    ensures
        match res {
            Some(v) => decode_spec(s@) == Some(v@),
            None => decode_spec(s@) is None,
        },
{
    let chars = crate::util::text::chars_of(s);
    let mut digits: Vec<char> = Vec::new();
    let mut i: usize = 0;
    while i < chars.len()
        invariant
            i <= chars@.len(),
            chars@ == s@,
            digits@ == chars@.take(i as int).filter(|c: char| is_hex_char(c)),
            forall|k: int| 0 <= k < i ==> hex_text_char(#[trigger] chars@[k]),
        decreases chars.len() - i,
    {
        proof {
            assert(chars@.take(i + 1).drop_last() =~= chars@.take(i as int));
            reveal_with_fuel(Seq::<char>::filter, 1);
        }
        let c = chars[i];
        if is_hex_digit(c) {
            digits.push(c);
        } else if c != ':' && c != ' ' {
            assert(!hex_text_char(s@[i as int]));
            return None;
        }
        i += 1;
    }
    assert(!exists|k: int| 0 <= k < s@.len() && !hex_text_char(#[trigger] s@[k]));
    assert(chars@.take(chars@.len() as int) =~= chars@);
    assert(forall|k: int| 0 <= k < digits@.len() ==> is_hex_char(#[trigger] digits@[k])) by {
        assert forall|k: int| 0 <= k < digits@.len() implies is_hex_char(#[trigger] digits@[k]) by {
            chars@.lemma_filter_pred(|c: char| is_hex_char(c), k);
        }
    }
    if digits.len() % 2 != 0 {
        return None;
    }
    Some(pairs_to_bytes(&digits))
}

fn pairs_to_bytes(digits: &Vec<char>) -> (out: Vec<u8>)
    requires
        digits@.len() % 2 == 0,
        forall|k: int| 0 <= k < digits@.len() ==> is_hex_char(#[trigger] digits@[k]),
    ensures
        out@ == hex_bytes(digits@),
{
    let mut out: Vec<u8> = Vec::new();
    let mut j: usize = 0;
    while j < digits.len() / 2
        invariant
            j <= digits@.len() / 2,
            digits@.len() % 2 == 0,
            forall|k: int| 0 <= k < digits@.len() ==> is_hex_char(#[trigger] digits@[k]),
            out@ == hex_bytes(digits@).take(j as int),
        decreases digits.len() / 2 - j,
    {
        let hi = hex_digit_value(digits[2 * j]);
        let lo = hex_digit_value(digits[2 * j + 1]);
        out.push(hi * 16 + lo);
        j += 1;
        assert(out@ =~= hex_bytes(digits@).take(j as int));
    }
    assert(hex_bytes(digits@).take((digits@.len() / 2) as int) =~= hex_bytes(digits@));
    out
}

/// Whether `s` is hex digits only, in pairs.
pub open spec fn strict_hex(s: Seq<char>) -> bool {
    s.len() % 2 == 0 && forall|k: int| 0 <= k < s.len() ==> is_hex_char(#[trigger] s[k])
}

/// Decode hex that holds nothing but digit pairs; `None` for anything
/// else (an odd count or another character).
pub fn decode_strict(s: &str) -> (res: Option<Vec<u8>>)
    ensures
        match res {
            Some(v) => strict_hex(s@) && v@ == hex_bytes(s@),
            None => !strict_hex(s@),
        },
{
    let chars = crate::util::text::chars_of(s);
    if chars.len() % 2 != 0 {
        return None;
    }
    let mut i: usize = 0;
    while i < chars.len()
        invariant
            i <= chars@.len(),
            chars@ == s@,
            forall|k: int| 0 <= k < i ==> is_hex_char(#[trigger] chars@[k]),
        decreases chars.len() - i,
    {
        if !is_hex_digit(chars[i]) {
            return None;
        }
        i += 1;
    }
    Some(pairs_to_bytes(&chars))
}

proof fn lemma_hex_digit(n: int)
    requires
        0 <= n < 16,
    ensures
        is_hex_char(crate::util::text::hex_digit(n)),
        hex_val(crate::util::text::hex_digit(n)) == n,
{
}

proof fn lemma_hex_of_strict(b: Seq<u8>)
    ensures
        hex_of(b).len() == 2 * b.len(),
        forall|k: int| 0 <= k < hex_of(b).len() ==> is_hex_char(#[trigger] hex_of(b)[k]),
        hex_bytes(hex_of(b)) == b,
    decreases b.len(),
{
    if b.len() > 0 {
        let p = b.drop_last();
        lemma_hex_of_strict(p);
        let x = b.last();
        lemma_hex_digit(x as int / 16);
        lemma_hex_digit(x as int % 16);
        let h = hex_of(b);
        assert(h == hex_of(p) + hex2(x));
        assert forall|k: int| 0 <= k < h.len() implies is_hex_char(#[trigger] h[k]) by {
            if k < hex_of(p).len() {
                assert(h[k] == hex_of(p)[k]);
            }
        }
        assert forall|i: int| 0 <= i < b.len() implies #[trigger] hex_bytes(h)[i] == b[i] by {
            if i < p.len() {
                assert(h[2 * i] == hex_of(p)[2 * i]);
                assert(h[2 * i + 1] == hex_of(p)[2 * i + 1]);
                assert(hex_bytes(hex_of(p))[i] == p[i]);
            } else {
                assert(h[2 * i] == crate::util::text::hex_digit(x as int / 16));
                assert(h[2 * i + 1] == crate::util::text::hex_digit(x as int % 16));
            }
        }
        assert(hex_bytes(h) =~= b);
    }
}

/// Hex text decodes back to the bytes it was made from: what [`encode`]
/// writes, [`decode_strict`] and [`decode`] read back unchanged, and what
/// [`encode_colon`] writes, [`decode`] reads back unchanged.
pub proof fn lemma_hex_roundtrip(b: Seq<u8>)
    ensures
        strict_hex(hex_of(b)),
        hex_bytes(hex_of(b)) == b,
        decode_spec(hex_of(b)) == Some(b),
        decode_spec(hex_colon_of(b)) == Some(b),
{
    lemma_hex_of_strict(b);
    lemma_filter_hex(b);
    lemma_colon_filter(b);
    lemma_colon_chars(b);
    assert(!exists|k: int| 0 <= k < hex_of(b).len() && !hex_text_char(#[trigger] hex_of(b)[k]));
    assert(!exists|k: int| 0 <= k < hex_colon_of(b).len() && !hex_text_char(#[trigger] hex_colon_of(b)[k]));
}

proof fn lemma_colon_chars(b: Seq<u8>)
    ensures
        forall|k: int| 0 <= k < hex_colon_of(b).len() ==> hex_text_char(#[trigger] hex_colon_of(b)[k]),
    decreases b.len(),
{
    if b.len() == 1 {
        lemma_hex_digit(b[0] as int / 16);
        lemma_hex_digit(b[0] as int % 16);
    } else if b.len() > 1 {
        let p = b.drop_last();
        let x = b.last();
        lemma_colon_chars(p);
        lemma_hex_digit(x as int / 16);
        lemma_hex_digit(x as int % 16);
        let a = hex_colon_of(p) + seq![':'];
        assert forall|k: int| 0 <= k < hex_colon_of(b).len() implies hex_text_char(#[trigger] hex_colon_of(b)[k]) by {
            if k < hex_colon_of(p).len() {
                assert(hex_colon_of(b)[k] == hex_colon_of(p)[k]);
            } else if k == hex_colon_of(p).len() {
                assert(hex_colon_of(b)[k] == ':');
            } else {
                assert(hex_colon_of(b)[k] == hex2(x)[k - a.len()]);
            }
        }
    }
}

proof fn lemma_filter_pair(x: u8)
    ensures
        hex2(x).filter(|c: char| is_hex_char(c)) == hex2(x),
{
    lemma_hex_digit(x as int / 16);
    lemma_hex_digit(x as int % 16);
    let h = hex2(x);
    let f = |c: char| is_hex_char(c);
    reveal_with_fuel(Seq::<char>::filter, 3);
    assert(h.drop_last() =~= seq![h[0]]);
    assert(seq![h[0]].drop_last() =~= Seq::<char>::empty());
    assert(seq![h[0]].filter(f) =~= seq![h[0]]);
    assert(h.filter(f) =~= h);
}

proof fn lemma_filter_colon()
    ensures
        seq![':'].filter(|c: char| is_hex_char(c)) == Seq::<char>::empty(),
{
    reveal_with_fuel(Seq::<char>::filter, 2);
    assert(seq![':'].drop_last() =~= Seq::<char>::empty());
    assert(seq![':'].filter(|c: char| is_hex_char(c)) =~= Seq::<char>::empty());
}

proof fn lemma_filter_hex(b: Seq<u8>)
    ensures
        hex_of(b).filter(|c: char| is_hex_char(c)) == hex_of(b),
    decreases b.len(),
{
    if b.len() > 0 {
        let p = b.drop_last();
        lemma_filter_hex(p);
        lemma_filter_pair(b.last());
        Seq::filter_distributes_over_add(hex_of(p), hex2(b.last()), |c: char| is_hex_char(c));
    } else {
        reveal_with_fuel(Seq::<char>::filter, 1);
        assert(hex_of(b).filter(|c: char| is_hex_char(c)) =~= hex_of(b));
    }
}

proof fn lemma_colon_filter(b: Seq<u8>)
    ensures
        hex_colon_of(b).filter(|c: char| is_hex_char(c)) == hex_of(b),
    decreases b.len(),
{
    if b.len() == 0 {
        reveal_with_fuel(Seq::<char>::filter, 1);
        assert(hex_colon_of(b).filter(|c: char| is_hex_char(c)) =~= hex_of(b));
    } else {
        let p = b.drop_last();
        let x = b.last();
        lemma_filter_pair(x);
        if b.len() == 1 {
            assert(p =~= Seq::<u8>::empty());
            assert(hex_of(b) =~= hex_of(p) + hex2(x));
            assert(hex_of(p) =~= Seq::<char>::empty());
            assert(hex_colon_of(b) == hex2(x));
        } else {
            lemma_colon_filter(p);
            lemma_filter_colon();
            Seq::filter_distributes_over_add(hex_colon_of(p) + seq![':'], hex2(x), |c: char| is_hex_char(c));
            Seq::filter_distributes_over_add(hex_colon_of(p), seq![':'], |c: char| is_hex_char(c));
            assert(hex_of(p) + Seq::<char>::empty() =~= hex_of(p));
        }
    }
}

} // verus!
