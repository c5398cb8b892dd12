//! JA4S server fingerprint.
//!
//! ```text
//! JA4S = tag "_" cipher_hex "_" hash12
//! tag  = "t" + version(2) + "d" + ext_count(2) + "00" + "00"
//! cipher_hex = 4 lowercase hex digits of the selected cipher
//! hash12 = first 12 hex chars of SHA-256 of the sorted, GREASE-filtered
//!          extension types, decimal, ","-joined (the empty string when
//!          there are none)
//! ```
//! e.g. `t13d010000_c02b_e5627ecdbbe6`.

use super::digest::{sha256, sha256_digest};
use super::text::{dec_join, ext_type_list, ext_types, nats16, push_dec_join16, push_two_digits, two_digits};
use crate::tls::grease::{filter_grease, without_grease};
use crate::tls::server_hello::{ServerHello, ServerHelloV};
use crate::tls::version::{ja4_code, real_version_spec};
use crate::util::hex::{hex_of, lemma_hex_of_len, push_hex};
use crate::util::sort::{lemma_sorted_u16, sort_u16, sorted_u16, u16_leq};
use crate::util::text::{chars_of, hex4, push_all, push_hex4, push_str, string_of};
use vstd::prelude::*;

verus! {

/// First 12 hex characters of the SHA-256 of the UTF-8 bytes of `text`.
pub open spec fn hash12(text: Seq<char>) -> Seq<char> {
    hex_of(sha256_digest(vstd::utf8::encode_utf8(text))).take(12)
}

/// The smaller of `n` and 99.
pub open spec fn cap99(n: nat) -> nat {
    if n < 99 {
        n
    } else {
        99
    }
}

/// The JA4S string of a `ServerHello`.
pub open spec fn ja4s_string(sh: ServerHelloV) -> Seq<char> {
    let exts = without_grease(ext_types(sh.extensions));
    seq!['t'] + ja4_code(real_version_spec(sh.legacy_version, sh.extensions)) + seq!['d']
        + two_digits(cap99(exts.len())) + seq!['0', '0', '0', '0'] + seq!['_'] + hex4(sh.cipher_suite)
        + seq!['_'] + hash12(dec_join(nats16(sorted_u16(exts)), ','))
}

/// Newtype for a JA4S string.
#[derive(Debug, Clone, PartialEq, Eq, Hash)]
pub struct Ja4s(pub String);

impl Ja4s {
    /// The fingerprint text.
    pub fn as_str(&self) -> (s: &str)
        ensures
            s@ == self.0@,
    {
        self.0.as_str()
    }
}

/// Appends the first 12 hex characters of the SHA-256 of `text`.
pub fn push_hash12(out: &mut Vec<char>, text: &Vec<char>)
    ensures
        final(out)@ == old(out)@ + hash12(text@),
{
    let s = string_of(text);
    let digest = sha256(s.as_str().as_bytes());
    let mut hex: Vec<char> = Vec::new();
    push_hex(&mut hex, digest.as_slice());
    proof {
        lemma_hex_of_len(digest@);
    }
    let mut i: usize = 0;
    while i < 12
        invariant
            i <= 12,
            hex@.len() == 64,
            out@ == old(out)@ + hex@.take(i as int),
        decreases 12 - i,
    {
        out.push(hex[i]);
        i += 1;
        assert(out@ =~= old(out)@ + hex@.take(i as int));
    }
}

/// Compute JA4S for a `ServerHello`.
pub fn compute_ja4s(sh: &ServerHello) -> (res: Ja4s)
    ensures
        res.0@ == ja4s_string(sh@),
{
    let version = sh.real_version();
    let types = ext_type_list(&sh.extensions);
    let exts = filter_grease(types.as_slice());
    let count = if exts.len() < 99 { exts.len() } else { 99 };
    let mut out: Vec<char> = Vec::new();
    out.push('t');
    push_str(&mut out, version.ja4_str());
    out.push('d');
    push_two_digits(&mut out, count);
    push_str(&mut out, "0000");
    proof {
        reveal_strlit("0000");
    }
    out.push('_');
    push_hex4(&mut out, sh.cipher_suite);
    out.push('_');
    let sorted = sort_u16(&exts);
    let mut joined: Vec<char> = Vec::new();
    push_dec_join16(&mut joined, &sorted, ',');
    push_hash12(&mut out, &joined);
    assert(out@ =~= ja4s_string(sh@));
    Ja4s(string_of(&out))
}

/// The hashed part of JA4S is taken over the extension types in
/// ascending order: JA4S ends with the hash of the comma-joined decimal
/// list of some ascending sequence holding exactly the ServerHello's
/// non-GREASE extension types, each as often as it occurs.
pub proof fn lemma_ja4s_hashes_sorted_types(sh: ServerHelloV)
    ensures
        exists|prefix: Seq<char>, l: Seq<u16>|
            {
                &&& forall|i: int, j: int| 0 <= i < j < l.len() ==> l[i] <= l[j]
                &&& l.to_multiset() == without_grease(ext_types(sh.extensions)).to_multiset()
                &&& ja4s_string(sh) == prefix + hash12(dec_join(nats16(l), ','))
            },
{
    let exts = without_grease(ext_types(sh.extensions));
    let l = sorted_u16(exts);
    lemma_sorted_u16(exts);
    assert forall|i: int, j: int| 0 <= i < j < l.len() implies l[i] <= l[j] by {
        assert((u16_leq())(l[i], l[j]));
    }
    let prefix = seq!['t'] + ja4_code(real_version_spec(sh.legacy_version, sh.extensions)) + seq!['d']
        + two_digits(cap99(exts.len())) + seq!['0', '0', '0', '0'] + seq!['_'] + hex4(sh.cipher_suite)
        + seq!['_'];
    assert(ja4s_string(sh) == prefix + hash12(dec_join(nats16(l), ',')));
}

} // verus!
