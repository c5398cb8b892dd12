//! JA4 fingerprint.
//!
//! Three `_`-separated parts, e.g. `t13d1516h2_8daaf6152771_e5627ecdbbe6`:
//! - tag: `t`, the real TLS version (2 digits), `d` for a domain SNI or
//!   `i` for an IP literal or no SNI, the GREASE-filtered cipher count and
//!   extension count (2 digits each, capped at 99; SNI and ALPN are not
//!   counted), and the first two characters of the first ALPN (`00` if
//!   none);
//! - the first 12 hex characters of the SHA-256 of the sorted,
//!   GREASE-filtered cipher suites (decimal, `,`-joined);
//! - the same over the sorted, filtered extension types, then `_`, then
//!   the sorted signature algorithms.
//!
//! GREASE is filtered before sorting.

use super::ja4s::{cap99, hash12, ja4s_string, push_hash12};
use crate::tls::server_hello::ServerHelloV;
use super::text::{dec_join, ext_type_list, ext_types, nats16, push_dec_join16, push_two_digits, two_digits};
use crate::tls::client_hello::{alpn_of, sni_of, ClientHello, ClientHelloV};
use crate::tls::extensions::{ext_type_of, exts_view, ExtV, Extension};
use crate::tls::grease::{filter_grease, grease, is_grease, without_grease};
use crate::tls::version::{ja4_code, real_version_spec, seq_max, version_of};
use crate::util::ip::{ip_literal, is_ip_literal};
use crate::util::sort::{sort_u16, sorted_u16};
use crate::util::text::{chars_of, push_all, push_str, string_of};
use vstd::prelude::*;

verus! {

/// Newtype for a JA4 string.
#[derive(Debug, Clone, PartialEq, Eq, Hash)]
pub struct Ja4(pub String);

impl Ja4 {
    /// The fingerprint text.
    pub fn as_str(&self) -> (s: &str)
        ensures
            s@ == self.0@,
    {
        self.0.as_str()
    }
}

/// ASCII lowercase of a character; other characters are unchanged.
pub open spec fn ascii_lower(c: char) -> char {
    if 'A' <= c && c <= 'Z' {
        ((c as int) + 32) as char
    } else {
        c
    }
}

/// ASCII lowercase of a string.
pub open spec fn lower(s: Seq<char>) -> Seq<char> {
    s.map_values(|c: char| ascii_lower(c))
}

/// Bytes in the UTF-8 encoding of `c`.
pub open spec fn char_width(c: char) -> nat {
    if (c as u32) < 0x80 {
        1
    } else if (c as u32) < 0x800 {
        2
    } else if (c as u32) < 0x10000 {
        3
    } else {
        4
    }
}

/// Whether the first ALPN name `s` can be cut after its first two bytes
/// when it has at least two: the cut must fall between characters.
pub open spec fn alpn_slice_ok(s: Seq<char>) -> bool {
    s.len() == 0 || char_width(s[0]) == 2 || (char_width(s[0]) == 1 && (s.len() == 1 || char_width(
        s[1],
    ) == 1))
}

/// The two ALPN characters of the JA4 tag for a first ALPN name `s`:
/// its first two bytes, lowercased; a one-byte name padded with `0`;
/// `00` for an empty one.
pub open spec fn alpn_code_of(s: Seq<char>) -> Seq<char> {
    if s.len() == 0 {
        seq!['0', '0']
    } else if char_width(s[0]) == 1 {
        if s.len() == 1 {
            lower(s) + seq!['0']
        } else {
            lower(seq![s[0], s[1]])
        }
    } else {
        lower(seq![s[0]])
    }
}

/// The ALPN characters of the JA4 tag for a list of extensions.
pub open spec fn alpn_code(exts: Seq<ExtV>) -> Seq<char> {
    match alpn_of(exts) {
        Some(v) => if v.len() == 0 {
            seq!['0', '0']
        } else {
            alpn_code_of(v[0])
        },
        None => seq!['0', '0'],
    }
}

/// Whether JA4 can be computed without cutting a character in two.
pub open spec fn ja4_ready(ch: ClientHelloV) -> bool {
    match alpn_of(ch.extensions) {
        Some(v) => v.len() > 0 ==> alpn_slice_ok(v[0]),
        None => true,
    }
}

/// Extension types JA4 counts and hashes: GREASE, SNI and ALPN removed.
pub open spec fn ja4_ext_types(exts: Seq<ExtV>) -> Seq<u16> {
    ext_types(exts).filter(|v: u16| !grease(v) && v != 0x0000 && v != 0x0010)
}

/// All signature algorithms, from every `signature_algorithms`
/// extension, in order.
pub open spec fn sig_algs_of(exts: Seq<ExtV>) -> Seq<u16>
    decreases exts.len(),
{
    if exts.len() == 0 {
        Seq::empty()
    } else {
        match exts[0] {
            ExtV::SignatureAlgorithms(v) => v + sig_algs_of(exts.drop_first()),
            _ => sig_algs_of(exts.drop_first()),
        }
    }
}

/// The tag character for SNI: `d` for a domain name, `i` for an IP
/// literal or no SNI.
pub open spec fn sni_char(exts: Seq<ExtV>) -> char {
    match sni_of(exts) {
        Some(s) => if ip_literal(s) {
            'i'
        } else {
            'd'
        },
        None => 'i',
    }
}

/// The JA4 string of a `ClientHello`.
pub open spec fn ja4_string(ch: ClientHelloV) -> Seq<char> {
    ja4_tag(ch) + seq!['_'] + hash12(dec_join(nats16(sorted_u16(without_grease(ch.cipher_suites))), ','))
        + seq!['_'] + hash12(ja4_ext_text(ch.extensions))
}

fn lower_char(c: char) -> (r: char)
    ensures
        r == ascii_lower(c),
{
    if 'A' <= c && c <= 'Z' {
        ((c as u8) + 32) as char
    } else {
        c
    }
}

/// Whether cutting `s` after its first two bytes keeps whole characters.
pub fn alpn_slice_fits(s: &String) -> (r: bool)
    ensures
        r == alpn_slice_ok(s@),
{
    let cs = chars_of(s.as_str());
    if cs.len() == 0 {
        return true;
    }
    let w0 = (cs[0] as u32) < 0x80;
    if w0 {
        cs.len() == 1 || (cs[1] as u32) < 0x80
    } else {
        (cs[0] as u32) < 0x800
    }
}

/// Appends the JA4 ALPN characters for the first ALPN name `s`.
fn push_alpn_code_of(out: &mut Vec<char>, s: &String)
    requires
        alpn_slice_ok(s@),
    ensures
        final(out)@ == old(out)@ + alpn_code_of(s@),
{
    let cs = chars_of(s.as_str());
    if cs.len() == 0 {
        out.push('0');
        out.push('0');
    } else if (cs[0] as u32) < 0x80 {
        if cs.len() == 1 {
            out.push(lower_char(cs[0]));
            out.push('0');
            assert(lower(cs@) =~= seq![ascii_lower(cs@[0])]);
        } else {
            out.push(lower_char(cs[0]));
            out.push(lower_char(cs[1]));
            assert(lower(seq![cs@[0], cs@[1]]) =~= seq![ascii_lower(cs@[0]), ascii_lower(cs@[1])]);
        }
    } else {
        out.push(lower_char(cs[0]));
        assert(lower(seq![cs@[0]]) =~= seq![ascii_lower(cs@[0])]);
    }
}

/// The extension types JA4 counts: GREASE, SNI and ALPN removed.
fn filter_ja4_exts(types: &Vec<u16>) -> (res: Vec<u16>)
    ensures
        res@ == types@.filter(|v: u16| !grease(v) && v != 0x0000 && v != 0x0010),
{
    let mut out: Vec<u16> = Vec::new();
    let mut i: usize = 0;
    while i < types.len()
        invariant
            i <= types@.len(),
            out@ == types@.take(i as int).filter(|v: u16| !grease(v) && v != 0x0000 && v != 0x0010),
        decreases types.len() - i,
    {
        proof {
            assert(types@.take(i + 1).drop_last() =~= types@.take(i as int));
            reveal_with_fuel(Seq::<u16>::filter, 1);
        }
        let v = types[i];
        if !is_grease(v) && v != 0x0000 && v != 0x0010 {
            out.push(v);
        }
        i += 1;
    }
    assert(types@.take(types@.len() as int) =~= types@);
    out
}

/// Every signature algorithm of every `signature_algorithms` extension.
fn collect_sig_algs(exts: &Vec<Extension>) -> (res: Vec<u16>)
    ensures
        res@ == sig_algs_of(exts_view(exts@)),
{
    let mut out: Vec<u16> = Vec::new();
    let mut i: usize = 0;
    assert(exts_view(exts@).skip(0) =~= exts_view(exts@));
    while i < exts.len()
        invariant
            i <= exts@.len(),
            sig_algs_of(exts_view(exts@)) == out@ + sig_algs_of(exts_view(exts@).skip(i as int)),
        decreases exts.len() - i,
    {
        assert(exts_view(exts@).skip(i as int).drop_first() =~= exts_view(exts@).skip(i + 1));
        let ghost before = out@;
        if let Extension::SignatureAlgorithms(v) = &exts[i] {
            let mut k: usize = 0;
            while k < v.len()
                invariant
                    k <= v@.len(),
                    out@ == before + v@.take(k as int),
                decreases v.len() - k,
            {
                out.push(v[k]);
                k += 1;
                assert(out@ =~= before + v@.take(k as int));
            }
            assert(v@.take(v@.len() as int) =~= v@);
            assert(before + (v@ + sig_algs_of(exts_view(exts@).skip(i + 1)))
                =~= out@ + sig_algs_of(exts_view(exts@).skip(i + 1)));
        }
        i += 1;
    }
    assert(out@ + Seq::<u16>::empty() =~= out@);
    out
}

/// The tag part of JA4 (before the first `_`).
pub open spec fn ja4_tag(ch: ClientHelloV) -> Seq<char> {
    seq!['t'] + ja4_code(real_version_spec(ch.legacy_version, ch.extensions)) + seq![
        sni_char(ch.extensions),
    ] + two_digits(cap99(without_grease(ch.cipher_suites).len())) + two_digits(
        cap99(ja4_ext_types(ch.extensions).len()),
    ) + alpn_code(ch.extensions)
}

/// The text hashed for the third part of JA4: sorted extension types,
/// then `_` and the sorted signature algorithms when both are present.
pub open spec fn ja4_ext_text(exts: Seq<ExtV>) -> Seq<char> {
    let ext_text = dec_join(nats16(sorted_u16(ja4_ext_types(exts))), ',');
    let sig_text = dec_join(nats16(sorted_u16(without_grease(sig_algs_of(exts)))), ',');
    if sig_text.len() == 0 {
        ext_text
    } else if ext_text.len() == 0 {
        sig_text
    } else {
        ext_text + seq!['_'] + sig_text
    }
}

fn push_alpn_code(out: &mut Vec<char>, ch: &ClientHello)
    requires
        ja4_ready(ch@),
    ensures
        final(out)@ == old(out)@ + alpn_code(ch@.extensions),
{
    match ch.alpn() {
        Some(v) => {
            if v.len() == 0 {
                out.push('0');
                out.push('0');
                assert(out@ =~= old(out)@ + alpn_code(ch@.extensions));
            } else {
                proof {
                    assert(v@.map_values(|s: String| s@)[0] == v@[0]@);
                }
                push_alpn_code_of(out, &v[0]);
            }
        },
        None => {
            out.push('0');
            out.push('0');
            assert(out@ =~= old(out)@ + alpn_code(ch@.extensions));
        },
    }
}

fn push_ja4_tag(out: &mut Vec<char>, ch: &ClientHello)
    requires
        ja4_ready(ch@),
    ensures
        final(out)@ == old(out)@ + ja4_tag(ch@),
{
    let version = ch.real_version();
    let sni = match ch.sni() {
        Some(name) => if is_ip_literal(name) { 'i' } else { 'd' },
        None => 'i',
    };
    let ciphers = filter_grease(ch.cipher_suites.as_slice());
    let cipher_count = if ciphers.len() < 99 { ciphers.len() } else { 99 };
    let types = ext_type_list(&ch.extensions);
    let exts = filter_ja4_exts(&types);
    let ext_count = if exts.len() < 99 { exts.len() } else { 99 };
    let ghost o0 = old(out)@;
    let ghost code = ja4_code(real_version_spec(ch@.legacy_version, ch@.extensions));
    let ghost d1 = two_digits(cap99(without_grease(ch@.cipher_suites).len()));
    let ghost d2 = two_digits(cap99(ja4_ext_types(ch@.extensions).len()));
    out.push('t');
    push_str(out, version.ja4_str());
    out.push(sni);
    push_two_digits(out, cipher_count);
    push_two_digits(out, ext_count);
    let ghost o1 = out@;
    assert(o1 =~= o0 + (seq!['t'] + code + seq![sni_char(ch@.extensions)] + d1 + d2));
    push_alpn_code(out, ch);
    assert(out@ =~= o1 + alpn_code(ch@.extensions));
}

fn ja4_ext_text_of(ch: &ClientHello) -> (res: Vec<char>)
    ensures
        res@ == ja4_ext_text(ch@.extensions),
{
    let types = ext_type_list(&ch.extensions);
    let exts = filter_ja4_exts(&types);
    let sorted_exts = sort_u16(&exts);
    let mut ext_text: Vec<char> = Vec::new();
    push_dec_join16(&mut ext_text, &sorted_exts, ',');
    let sigs_all = collect_sig_algs(&ch.extensions);
    let sigs = filter_grease(sigs_all.as_slice());
    let sorted_sigs = sort_u16(&sigs);
    let mut sig_text: Vec<char> = Vec::new();
    push_dec_join16(&mut sig_text, &sorted_sigs, ',');
    assert(ext_text@ =~= dec_join(nats16(sorted_u16(ja4_ext_types(ch@.extensions))), ','));
    assert(sig_text@ =~= dec_join(nats16(sorted_u16(without_grease(sig_algs_of(ch@.extensions)))), ','));
    if sig_text.len() == 0 {
        ext_text
    } else if ext_text.len() == 0 {
        sig_text
    } else {
        let mut c = ext_text;
        c.push('_');
        push_all(&mut c, &sig_text);
        c
    }
}

/// Compute JA4 for a `ClientHello`.
pub fn compute_ja4(ch: &ClientHello) -> (res: Ja4)
    requires
        ja4_ready(ch@),
    ensures
        res.0@ == ja4_string(ch@),
{
    let mut out: Vec<char> = Vec::new();
    push_ja4_tag(&mut out, ch);
    out.push('_');
    let ciphers = filter_grease(ch.cipher_suites.as_slice());
    let sorted_ciphers = sort_u16(&ciphers);
    let mut cipher_text: Vec<char> = Vec::new();
    push_dec_join16(&mut cipher_text, &sorted_ciphers, ',');
    push_hash12(&mut out, &cipher_text);
    out.push('_');
    let combined = ja4_ext_text_of(ch);
    push_hash12(&mut out, &combined);
    assert(out@ =~= ja4_string(ch@));
    Ja4(string_of(&out))
}

/// Whether JA4 can be computed for `ch` (its first ALPN name, if any,
/// can be cut after two bytes).
pub fn is_ja4_ready(ch: &ClientHello) -> (r: bool)
    ensures
        r == ja4_ready(ch@),
{
    match ch.alpn() {
        Some(v) => {
            if v.len() == 0 {
                true
            } else {
                proof {
                    assert(v@.map_values(|s: String| s@)[0] == v@[0]@);
                }
                alpn_slice_fits(&v[0])
            }
        },
        None => true,
    }
}

/// JA4 does not depend on the order of the cipher suites nor on GREASE
/// values among them: two hellos that differ only in their cipher lists,
/// whose non-GREASE suites are the same values equally often, have the
/// same JA4.
pub proof fn lemma_ja4_ignores_suite_order_and_grease(a: ClientHelloV, b: ClientHelloV)
    requires
        b == (ClientHelloV { cipher_suites: b.cipher_suites, ..a }),
        without_grease(a.cipher_suites).to_multiset() == without_grease(b.cipher_suites).to_multiset(),
    ensures
        ja4_string(a) == ja4_string(b),
{
    crate::util::sort::lemma_sorted_u16_by_multiset(without_grease(a.cipher_suites), without_grease(b.cipher_suites));
    vstd::seq_lib::to_multiset_len(without_grease(a.cipher_suites));
    vstd::seq_lib::to_multiset_len(without_grease(b.cipher_suites));
    assert(ja4_tag(a) == ja4_tag(b));
}

/// Whether no two extensions have the same type.
pub open spec fn ext_types_distinct(exts: Seq<ExtV>) -> bool {
    forall|i: int, j: int|
        0 <= i < j < exts.len() ==> ext_type_of(#[trigger] exts[i]) != ext_type_of(#[trigger] exts[j])
}

/// Whether some extension has type `y`.
spec fn has_type(exts: Seq<ExtV>, y: u16) -> bool {
    exists|i: int| 0 <= i < exts.len() && ext_type_of(#[trigger] exts[i]) == y
}

proof fn lemma_distinct_drop_last(s: Seq<ExtV>)
    requires
        s.len() > 0,
        ext_types_distinct(s),
    ensures
        ext_types_distinct(s.drop_last()),
        !has_type(s.drop_last(), ext_type_of(s.last())),
{
    let p = s.drop_last();
    assert forall|i: int, j: int| 0 <= i < j < p.len() implies ext_type_of(#[trigger] p[i]) != ext_type_of(
        #[trigger] p[j],
    ) by {
        assert(p[i] == s[i] && p[j] == s[j]);
    }
    if has_type(p, ext_type_of(s.last())) {
        let i = choose|i: int| 0 <= i < p.len() && ext_type_of(#[trigger] p[i]) == ext_type_of(s.last());
        assert(p[i] == s[i]);
        assert(s[s.len() - 1] == s.last());
    }
}

/// How often JA4 counts the type `y` among distinctly typed extensions:
/// once when some extension has that type and JA4 counts it, else never.
proof fn lemma_ja4_type_count(s: Seq<ExtV>, y: u16)
    requires
        ext_types_distinct(s),
    ensures
        ja4_ext_types(s).to_multiset().count(y) == (if !grease(y) && y != 0x0000 && y != 0x0010
            && has_type(s, y) {
            1nat
        } else {
            0nat
        }),
    decreases s.len(),
{
    broadcast use vstd::seq_lib::group_to_multiset_ensures;

    if s.len() == 0 {
        assert(ext_types(s) =~= Seq::<u16>::empty());
        reveal(Seq::filter);
        assert(ja4_ext_types(s) =~= Seq::<u16>::empty());
        assert(!has_type(s, y));
    } else {
        let p = s.drop_last();
        let t = ext_type_of(s.last());
        lemma_distinct_drop_last(s);
        lemma_ja4_type_count(p, y);
        assert(ext_types(s).drop_last() =~= ext_types(p));
        assert(ext_types(s).last() == t);
        reveal(Seq::filter);
        assert(ja4_ext_types(s) == (if !grease(t) && t != 0x0000 && t != 0x0010 {
            ja4_ext_types(p).push(t)
        } else {
            ja4_ext_types(p)
        }));
        assert(has_type(s, y) == (has_type(p, y) || t == y)) by {
            if has_type(p, y) {
                let i = choose|i: int| 0 <= i < p.len() && ext_type_of(#[trigger] p[i]) == y;
                assert(s[i] == p[i]);
            }
            if t == y {
                assert(ext_type_of(s[s.len() - 1]) == y);
            }
            if has_type(s, y) && t != y {
                let i = choose|i: int| 0 <= i < s.len() && ext_type_of(#[trigger] s[i]) == y;
                assert(i < s.len() - 1);
                assert(p[i] == s[i]);
            }
        }
    }
}

/// Among distinctly typed extensions, the first one of a type is the one
/// of that type.
proof fn lemma_unique_firsts(s: Seq<ExtV>)
    requires
        ext_types_distinct(s),
    ensures
        forall|v: Seq<Seq<char>>| #[trigger] s.contains(ExtV::Alpn(v)) ==> alpn_of(s) == Some(v),
        (forall|v: Seq<Seq<char>>| !#[trigger] s.contains(ExtV::Alpn(v))) ==> alpn_of(s) is None,
        forall|h: Seq<char>| #[trigger] s.contains(ExtV::Sni(h)) ==> sni_of(s) == (if h.len() == 0 {
            None
        } else {
            Some(h)
        }),
        (forall|h: Seq<char>| !#[trigger] s.contains(ExtV::Sni(h))) ==> sni_of(s) is None,
        forall|v: Seq<u16>| #[trigger] s.contains(ExtV::SignatureAlgorithms(v)) ==> sig_algs_of(s) == v,
        (forall|v: Seq<u16>| !#[trigger] s.contains(ExtV::SignatureAlgorithms(v))) ==> sig_algs_of(s)
            == Seq::<u16>::empty(),
        forall|legacy: u16, v: Seq<u16>|
            #![trigger s.contains(ExtV::SupportedVersions(v)), real_version_spec(legacy, s)]
            s.contains(ExtV::SupportedVersions(v)) ==> real_version_spec(legacy, s) == (if without_grease(v).len() > 0 {
            version_of(seq_max(without_grease(v)))
        } else {
            version_of(legacy)
        }),
        forall|legacy: u16|
            (forall|v: Seq<u16>| !#[trigger] s.contains(ExtV::SupportedVersions(v))) ==> #[trigger] real_version_spec(
                legacy,
                s,
            ) == version_of(legacy),
    decreases s.len(),
{
    if s.len() > 0 {
        let r = s.drop_first();
        assert forall|i: int, j: int| 0 <= i < j < r.len() implies ext_type_of(#[trigger] r[i]) != ext_type_of(
            #[trigger] r[j],
        ) by {
            assert(r[i] == s[i + 1] && r[j] == s[j + 1]);
        }
        lemma_unique_firsts(r);
        assert forall|x: ExtV| #[trigger] s.contains(x) implies x == s[0] || r.contains(x) by {
            let i = choose|i: int| 0 <= i < s.len() && s[i] == x;
            if i > 0 {
                assert(r[i - 1] == x);
            }
        }
        assert forall|x: ExtV| #[trigger] r.contains(x) implies s.contains(x) && ext_type_of(x) != ext_type_of(s[0]) by {
            let i = choose|i: int| 0 <= i < r.len() && r[i] == x;
            assert(s[i + 1] == x);
        }
        assert(s.contains(s[0]));
        assert forall|legacy: u16, v: Seq<u16>|
            #![trigger s.contains(ExtV::SupportedVersions(v)), real_version_spec(legacy, s)]
            s.contains(ExtV::SupportedVersions(v)) implies real_version_spec(legacy, s) == (if without_grease(v).len() > 0 {
            version_of(seq_max(without_grease(v)))
        } else {
            version_of(legacy)
        }) by {
            assert(real_version_spec(legacy, r) == real_version_spec(legacy, r));
            if s[0] != ExtV::SupportedVersions(v) {
                assert(r.contains(ExtV::SupportedVersions(v)));
                assert(ext_type_of(ExtV::SupportedVersions(v)) != ext_type_of(s[0]));
                assert(!(s[0] is SupportedVersions));
                assert(real_version_spec(legacy, s) == real_version_spec(legacy, r));
            } else {
                assert forall|w: Seq<u16>| !#[trigger] r.contains(ExtV::SupportedVersions(w)) by {
                    if r.contains(ExtV::SupportedVersions(w)) {
                        assert(ext_type_of(ExtV::SupportedVersions(w)) != ext_type_of(s[0]));
                    }
                }
                assert(real_version_spec(legacy, r) == version_of(legacy));
            }
        }
        assert forall|legacy: u16|
            (forall|v: Seq<u16>| !#[trigger] s.contains(ExtV::SupportedVersions(v))) implies #[trigger] real_version_spec(
                legacy,
                s,
            ) == version_of(legacy) by {
            assert forall|v: Seq<u16>| !#[trigger] r.contains(ExtV::SupportedVersions(v)) by {
                if r.contains(ExtV::SupportedVersions(v)) {
                    assert(s.contains(ExtV::SupportedVersions(v)));
                }
            }
            assert(real_version_spec(legacy, r) == version_of(legacy));
            if let ExtV::SupportedVersions(w) = s[0] {
                assert(s.contains(ExtV::SupportedVersions(w)));
            }
        }
        match s[0] {
            ExtV::Alpn(w) => assert(s.contains(ExtV::Alpn(w))),
            ExtV::Sni(h) => assert(s.contains(ExtV::Sni(h))),
            ExtV::SignatureAlgorithms(v) => assert(s.contains(ExtV::SignatureAlgorithms(v))),
            ExtV::SupportedVersions(v) => assert(s.contains(ExtV::SupportedVersions(v))),
            _ => {},
        }
    }
}

/// JA4 does not depend on the order of the extensions when no type
/// occurs twice: two hellos that differ only in the order of their
/// extensions, each type at most once, have the same JA4.
pub proof fn lemma_ja4_ignores_extension_order(a: ClientHelloV, b: ClientHelloV)
    requires
        b == (ClientHelloV { extensions: b.extensions, ..a }),
        a.extensions.to_multiset() == b.extensions.to_multiset(),
        ext_types_distinct(a.extensions),
        ext_types_distinct(b.extensions),
    ensures
        ja4_string(a) == ja4_string(b),
{
    broadcast use vstd::seq_lib::group_to_multiset_ensures;

    let x = a.extensions;
    let y = b.extensions;
    assert forall|e: ExtV| x.contains(e) <==> y.contains(e) by {
        assert(x.contains(e) <==> x.to_multiset().count(e) > 0);
        assert(y.contains(e) <==> y.to_multiset().count(e) > 0);
    }
    assert forall|t: u16| has_type(x, t) <==> has_type(y, t) by {
        if has_type(x, t) {
            let i = choose|i: int| 0 <= i < x.len() && ext_type_of(#[trigger] x[i]) == t;
            assert(x.contains(x[i]));
            let j = choose|j: int| 0 <= j < y.len() && y[j] == x[i];
            assert(ext_type_of(y[j]) == t);
        }
        if has_type(y, t) {
            let i = choose|i: int| 0 <= i < y.len() && ext_type_of(#[trigger] y[i]) == t;
            assert(y.contains(y[i]));
            let j = choose|j: int| 0 <= j < x.len() && x[j] == y[i];
            assert(ext_type_of(x[j]) == t);
        }
    }
    assert(ja4_ext_types(x).to_multiset() =~= ja4_ext_types(y).to_multiset()) by {
        assert forall|t: u16| ja4_ext_types(x).to_multiset().count(t) == ja4_ext_types(y).to_multiset().count(t) by {
            lemma_ja4_type_count(x, t);
            lemma_ja4_type_count(y, t);
        }
    }
    crate::util::sort::lemma_sorted_u16_by_multiset(ja4_ext_types(x), ja4_ext_types(y));
    lemma_unique_firsts(x);
    lemma_unique_firsts(y);
    assert(alpn_of(x) == alpn_of(y)) by {
        match alpn_of(x) {
            Some(v) => {
                if !x.contains(ExtV::Alpn(v)) {
                    assert(forall|w: Seq<Seq<char>>| !#[trigger] x.contains(ExtV::Alpn(w))) by {
                        assert forall|w: Seq<Seq<char>>| !#[trigger] x.contains(ExtV::Alpn(w)) by {
                            if x.contains(ExtV::Alpn(w)) {
                                assert(alpn_of(x) == Some(w));
                            }
                        }
                    }
                }
                assert(y.contains(ExtV::Alpn(v)));
            },
            None => {
                assert forall|w: Seq<Seq<char>>| !#[trigger] y.contains(ExtV::Alpn(w)) by {
                    if y.contains(ExtV::Alpn(w)) {
                        assert(x.contains(ExtV::Alpn(w)));
                    }
                }
            },
        }
    }
    assert(sni_of(x) == sni_of(y)) by {
        if exists|h: Seq<char>| #[trigger] x.contains(ExtV::Sni(h)) {
            let h = choose|h: Seq<char>| #[trigger] x.contains(ExtV::Sni(h));
            assert(y.contains(ExtV::Sni(h)));
        } else {
            assert forall|h: Seq<char>| !#[trigger] y.contains(ExtV::Sni(h)) by {
                if y.contains(ExtV::Sni(h)) {
                    assert(x.contains(ExtV::Sni(h)));
                }
            }
        }
    }
    assert(sig_algs_of(x) == sig_algs_of(y)) by {
        if exists|v: Seq<u16>| #[trigger] x.contains(ExtV::SignatureAlgorithms(v)) {
            let v = choose|v: Seq<u16>| #[trigger] x.contains(ExtV::SignatureAlgorithms(v));
            assert(y.contains(ExtV::SignatureAlgorithms(v)));
        } else {
            assert forall|v: Seq<u16>| !#[trigger] y.contains(ExtV::SignatureAlgorithms(v)) by {
                if y.contains(ExtV::SignatureAlgorithms(v)) {
                    assert(x.contains(ExtV::SignatureAlgorithms(v)));
                }
            }
        }
    }
    assert(real_version_spec(a.legacy_version, x) == real_version_spec(a.legacy_version, y)) by {
        if exists|v: Seq<u16>| #[trigger] x.contains(ExtV::SupportedVersions(v)) {
            let v = choose|v: Seq<u16>| #[trigger] x.contains(ExtV::SupportedVersions(v));
            assert(y.contains(ExtV::SupportedVersions(v)));
        } else {
            assert forall|v: Seq<u16>| !#[trigger] y.contains(ExtV::SupportedVersions(v)) by {
                if y.contains(ExtV::SupportedVersions(v)) {
                    assert(x.contains(ExtV::SupportedVersions(v)));
                }
            }
        }
    }
    assert(ja4_ext_types(x).len() == ja4_ext_types(y).len()) by {
        assert(ja4_ext_types(x).len() == ja4_ext_types(x).to_multiset().len());
        assert(ja4_ext_types(y).len() == ja4_ext_types(y).to_multiset().len());
    }
    assert(sni_char(x) == sni_char(y));
    assert(alpn_code(x) == alpn_code(y));
    assert(ja4_tag(a) == ja4_tag(b));
    assert(ja4_ext_text(x) == ja4_ext_text(y));
}

/// How often the GREASE-filtered types of distinctly typed extensions
/// hold `y`: once when some extension has that non-GREASE type, else never.
proof fn lemma_type_count(s: Seq<ExtV>, y: u16)
    requires
        ext_types_distinct(s),
    ensures
        without_grease(ext_types(s)).to_multiset().count(y) == (if !grease(y) && has_type(s, y) {
            1nat
        } else {
            0nat
        }),
    decreases s.len(),
{
    broadcast use vstd::seq_lib::group_to_multiset_ensures;

    if s.len() == 0 {
        assert(ext_types(s) =~= Seq::<u16>::empty());
        reveal(Seq::filter);
        assert(without_grease(ext_types(s)) =~= Seq::<u16>::empty());
        assert(!has_type(s, y));
    } else {
        let p = s.drop_last();
        let t = ext_type_of(s.last());
        lemma_distinct_drop_last(s);
        lemma_type_count(p, y);
        assert(ext_types(s).drop_last() =~= ext_types(p));
        assert(ext_types(s).last() == t);
        reveal(Seq::filter);
        assert(without_grease(ext_types(s)) == (if !grease(t) {
            without_grease(ext_types(p)).push(t)
        } else {
            without_grease(ext_types(p))
        }));
        assert(has_type(s, y) == (has_type(p, y) || t == y)) by {
            if has_type(p, y) {
                let i = choose|i: int| 0 <= i < p.len() && ext_type_of(#[trigger] p[i]) == y;
                assert(s[i] == p[i]);
            }
            if t == y {
                assert(ext_type_of(s[s.len() - 1]) == y);
            }
            if has_type(s, y) && t != y {
                let i = choose|i: int| 0 <= i < s.len() && ext_type_of(#[trigger] s[i]) == y;
                assert(i < s.len() - 1);
                assert(p[i] == s[i]);
            }
        }
    }
}

/// JA4S does not depend on the order of the ServerHello's extensions:
/// two ServerHellos that differ only by a reordering of their extensions,
/// each type at most once, have the same JA4S.
pub proof fn lemma_ja4s_ignores_extension_order(a: ServerHelloV, b: ServerHelloV)
    requires
        b == (ServerHelloV { extensions: b.extensions, ..a }),
        a.extensions.to_multiset() == b.extensions.to_multiset(),
        ext_types_distinct(a.extensions),
        ext_types_distinct(b.extensions),
    ensures
        ja4s_string(a) == ja4s_string(b),
{
    broadcast use vstd::seq_lib::group_to_multiset_ensures;

    let x = a.extensions;
    let y = b.extensions;
    assert forall|e: ExtV| x.contains(e) <==> y.contains(e) by {
        assert(x.contains(e) <==> x.to_multiset().count(e) > 0);
        assert(y.contains(e) <==> y.to_multiset().count(e) > 0);
    }
    assert forall|t: u16| has_type(x, t) <==> has_type(y, t) by {
        if has_type(x, t) {
            let i = choose|i: int| 0 <= i < x.len() && ext_type_of(#[trigger] x[i]) == t;
            assert(x.contains(x[i]));
            let j = choose|j: int| 0 <= j < y.len() && y[j] == x[i];
            assert(ext_type_of(y[j]) == t);
        }
        if has_type(y, t) {
            let i = choose|i: int| 0 <= i < y.len() && ext_type_of(#[trigger] y[i]) == t;
            assert(y.contains(y[i]));
            let j = choose|j: int| 0 <= j < x.len() && x[j] == y[i];
            assert(ext_type_of(x[j]) == t);
        }
    }
    let gx = without_grease(ext_types(x));
    let gy = without_grease(ext_types(y));
    assert(gx.to_multiset() =~= gy.to_multiset()) by {
        assert forall|t: u16| gx.to_multiset().count(t) == gy.to_multiset().count(t) by {
            lemma_type_count(x, t);
            lemma_type_count(y, t);
        }
    }
    crate::util::sort::lemma_sorted_u16_by_multiset(gx, gy);
    assert(gx.len() == gy.len()) by {
        assert(gx.len() == gx.to_multiset().len());
        assert(gy.len() == gy.to_multiset().len());
    }
    lemma_unique_firsts(x);
    lemma_unique_firsts(y);
    assert(real_version_spec(a.legacy_version, x) == real_version_spec(a.legacy_version, y)) by {
        if exists|v: Seq<u16>| #[trigger] x.contains(ExtV::SupportedVersions(v)) {
            let v = choose|v: Seq<u16>| #[trigger] x.contains(ExtV::SupportedVersions(v));
            assert(y.contains(ExtV::SupportedVersions(v)));
        } else {
            assert forall|v: Seq<u16>| !#[trigger] y.contains(ExtV::SupportedVersions(v)) by {
                if y.contains(ExtV::SupportedVersions(v)) {
                    assert(x.contains(ExtV::SupportedVersions(v)));
                }
            }
        }
    }
}

} // verus!
