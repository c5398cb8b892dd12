//! JA3 fingerprint.
//!
//! `MD5( TLSVersion,CipherSuites,Extensions,EllipticCurves,PointFormats )`
//! where the version is the decimal `legacy_version` (e.g. `771`), cipher
//! suites and extension types are decimal, `-`-joined, GREASE-filtered and
//! in wire order, and curves / point formats come from the
//! `supported_groups` / `ec_point_formats` extensions.

use super::digest::{md5, md5_digest};
use super::text::{dec_join, ext_type_list, ext_types, nats16, nats8, push_dec_join16, push_dec_join8};
use crate::tls::client_hello::{ClientHello, ClientHelloV};
use crate::tls::extensions::{exts_view, ExtV, Extension};
use crate::tls::grease::{filter_grease, without_grease};
use crate::util::hex::{encode, hex_of};
use crate::util::text::{dec, dec_chars, push_all, string_of};
use vstd::prelude::*;

verus! {

/// The groups of the first `supported_groups` extension.
pub open spec fn groups_of(exts: Seq<ExtV>) -> Option<Seq<u16>>
    decreases exts.len(),
{
    if exts.len() == 0 {
        None
    } else {
        match exts[0] {
            ExtV::SupportedGroups(g) => Some(g),
            _ => groups_of(exts.drop_first()),
        }
    }
}

/// The formats of the first `ec_point_formats` extension.
pub open spec fn points_of(exts: Seq<ExtV>) -> Option<Seq<u8>>
    decreases exts.len(),
{
    if exts.len() == 0 {
        None
    } else {
        match exts[0] {
            ExtV::EcPointFormats(p) => Some(p),
            _ => points_of(exts.drop_first()),
        }
    }
}

/// The JA3 source string of a `ClientHello`.
pub open spec fn ja3_string(ch: ClientHelloV) -> Seq<char> {
    let curves = match groups_of(ch.extensions) {
        Some(g) => dec_join(nats16(without_grease(g)), '-'),
        None => Seq::empty(),
    };
    let points = match points_of(ch.extensions) {
        Some(p) => dec_join(nats8(p), '-'),
        None => Seq::empty(),
    };
    dec(ch.legacy_version as nat) + seq![','] + dec_join(nats16(without_grease(ch.cipher_suites)), '-')
        + seq![','] + dec_join(nats16(without_grease(ext_types(ch.extensions))), '-') + seq![',']
        + curves + seq![','] + points
}

/// The JA3 hash of a `ClientHello`: lowercase hex of the MD5 of the
/// UTF-8 bytes of its JA3 string.
pub open spec fn ja3_hash(ch: ClientHelloV) -> Seq<char> {
    hex_of(md5_digest(vstd::utf8::encode_utf8(ja3_string(ch))))
}

fn first_groups(exts: &Vec<Extension>) -> (res: Option<&Vec<u16>>)
    ensures
        match res {
            Some(g) => groups_of(exts_view(exts@)) == Some(g@),
            None => groups_of(exts_view(exts@)) is None,
        },
{
    let mut i: usize = 0;
    assert(exts_view(exts@).skip(0) =~= exts_view(exts@));
    while i < exts.len()
        invariant
            i <= exts@.len(),
            groups_of(exts_view(exts@)) == groups_of(exts_view(exts@).skip(i as int)),
        decreases exts.len() - i,
    {
        assert(exts_view(exts@).skip(i as int).drop_first() =~= exts_view(exts@).skip(i + 1));
        if let Extension::SupportedGroups(g) = &exts[i] {
            return Some(g);
        }
        i += 1;
    }
    None
}

fn first_points(exts: &Vec<Extension>) -> (res: Option<&Vec<u8>>)
    ensures
        match res {
            Some(p) => points_of(exts_view(exts@)) == Some(p@),
            None => points_of(exts_view(exts@)) is None,
        },
{
    let mut i: usize = 0;
    assert(exts_view(exts@).skip(0) =~= exts_view(exts@));
    while i < exts.len()
        invariant
            i <= exts@.len(),
            points_of(exts_view(exts@)) == points_of(exts_view(exts@).skip(i as int)),
        decreases exts.len() - i,
    {
        assert(exts_view(exts@).skip(i as int).drop_first() =~= exts_view(exts@).skip(i + 1));
        if let Extension::EcPointFormats(p) = &exts[i] {
            return Some(p);
        }
        i += 1;
    }
    None
}

/// The JA3 source string (before hashing), e.g.
/// `771,4865-4866,0-10-11,29-23,0`.
pub fn ja3_text(ch: &ClientHello) -> (res: String)
    ensures
        res@ == ja3_string(ch@),
{
    let mut out: Vec<char> = Vec::new();
    push_all(&mut out, &dec_chars(ch.legacy_version as u64));
    out.push(',');
    let ciphers = filter_grease(ch.cipher_suites.as_slice());
    push_dec_join16(&mut out, &ciphers, '-');
    out.push(',');
    let types = ext_type_list(&ch.extensions);
    let exts = filter_grease(types.as_slice());
    push_dec_join16(&mut out, &exts, '-');
    out.push(',');
    if let Some(g) = first_groups(&ch.extensions) {
        let curves = filter_grease(g.as_slice());
        push_dec_join16(&mut out, &curves, '-');
    }
    out.push(',');
    if let Some(p) = first_points(&ch.extensions) {
        push_dec_join8(&mut out, p, '-');
    }
    string_of(&out)
}

/// Compute the JA3 hash (lowercase hex MD5) of a `ClientHello`.
pub fn compute_ja3(ch: &ClientHello) -> (res: String)
    ensures
        res@ == ja3_hash(ch@),
{
    let text = ja3_text(ch);
    let digest = md5(text.as_str().as_bytes());
    encode(digest.as_slice())
}

/// JA3 does not see GREASE cipher suites: two hellos that differ only in
/// their cipher lists, and whose lists agree once GREASE values are
/// dropped, have the same JA3 string and hash.
pub proof fn lemma_ja3_ignores_grease_suites(a: ClientHelloV, b: ClientHelloV)
    requires
        b == (ClientHelloV { cipher_suites: b.cipher_suites, ..a }),
        without_grease(a.cipher_suites) == without_grease(b.cipher_suites),
    ensures
        ja3_string(a) == ja3_string(b),
        ja3_hash(a) == ja3_hash(b),
{
}

} // verus!
