//! GREASE and the fingerprints: an extension whose type is a GREASE value
//! changes neither JA3 nor JA4, and JA4 ignores GREASE wherever it stands
//! (cipher suites, extension types, signature algorithms, supported
//! versions).

use super::ja3::{groups_of, ja3_hash, ja3_string, points_of};
use super::ja4::{ja4_ext_text, ja4_ext_types, ja4_string, ja4_tag, lemma_ja4_ignores_suite_order_and_grease, sig_algs_of};
use super::text::ext_types;
use crate::tls::client_hello::{alpn_of, sni_of, ClientHelloV};
use crate::tls::extensions::{ext_type_of, ExtV};
use crate::tls::grease::{grease, without_grease};
use crate::tls::version::real_version_spec;
use vstd::prelude::*;

verus! {

/// The extensions of `exts` whose type is not a GREASE value, in order.
pub open spec fn without_grease_exts(exts: Seq<ExtV>) -> Seq<ExtV> {
    exts.filter(|e: ExtV| !grease(ext_type_of(e)))
}

/// Every field a fingerprint reads from the extensions is the same with
/// and without the GREASE-typed extensions.
proof fn lemma_grease_exts_unseen(x: Seq<ExtV>)
    ensures
        groups_of(without_grease_exts(x)) == groups_of(x),
        points_of(without_grease_exts(x)) == points_of(x),
        sni_of(without_grease_exts(x)) == sni_of(x),
        alpn_of(without_grease_exts(x)) == alpn_of(x),
        sig_algs_of(without_grease_exts(x)) == sig_algs_of(x),
        forall|legacy: u16| #[trigger]
            real_version_spec(legacy, without_grease_exts(x)) == real_version_spec(legacy, x),
        without_grease(ext_types(without_grease_exts(x))) == without_grease(ext_types(x)),
        ja4_ext_types(without_grease_exts(x)) == ja4_ext_types(x),
    decreases x.len(),
{
    broadcast use Seq::lemma_filter_prepend;

    let d = without_grease_exts(x);
    if x.len() == 0 {
        reveal(Seq::filter);
        assert(d =~= x);
    } else {
        let x0 = x[0];
        let r = x.drop_first();
        lemma_grease_exts_unseen(r);
        let dr = without_grease_exts(r);
        assert(x =~= seq![x0] + r);
        assert(ext_types(x) =~= seq![ext_type_of(x0)] + ext_types(r));
        assert(ext_types(seq![x0] + dr) =~= seq![ext_type_of(x0)] + ext_types(dr));
        if grease(ext_type_of(x0)) {
            assert(d == Seq::<ExtV>::empty() + dr);
            assert(d =~= dr);
            assert(x0 is Unknown);
        } else {
            assert(d == seq![x0] + dr);
            assert((seq![x0] + dr).drop_first() =~= dr);
            assert((seq![x0] + dr)[0] == x0);
            assert forall|legacy: u16| #[trigger]
                real_version_spec(legacy, d) == real_version_spec(legacy, x) by {
                assert(real_version_spec(legacy, dr) == real_version_spec(legacy, r));
            }
        }
    }
}

/// JA3 does not see GREASE extensions: two hellos that differ only in
/// their extensions, and whose extensions agree once those with a GREASE
/// type are dropped, have the same JA3 string and hash.
pub proof fn lemma_ja3_ignores_grease_extensions(a: ClientHelloV, b: ClientHelloV)
    requires
        b == (ClientHelloV { extensions: b.extensions, ..a }),
        without_grease_exts(a.extensions) == without_grease_exts(b.extensions),
    ensures
        ja3_string(a) == ja3_string(b),
        ja3_hash(a) == ja3_hash(b),
{
    lemma_grease_exts_unseen(a.extensions);
    lemma_grease_exts_unseen(b.extensions);
}

/// JA4 does not see GREASE extensions: two hellos that differ only in
/// their extensions, and whose extensions agree once those with a GREASE
/// type are dropped, have the same JA4.
pub proof fn lemma_ja4_ignores_grease_extensions(a: ClientHelloV, b: ClientHelloV)
    requires
        b == (ClientHelloV { extensions: b.extensions, ..a }),
        without_grease_exts(a.extensions) == without_grease_exts(b.extensions),
    ensures
        ja4_string(a) == ja4_string(b),
{
    lemma_grease_exts_unseen(a.extensions);
    lemma_grease_exts_unseen(b.extensions);
    let ga = without_grease_exts(a.extensions);
    assert(real_version_spec(a.legacy_version, a.extensions) == real_version_spec(a.legacy_version, ga));
    assert(real_version_spec(a.legacy_version, b.extensions) == real_version_spec(a.legacy_version, ga));
}

/// An extension with the GREASE values removed from its signature
/// algorithms or supported versions.
pub open spec fn without_grease_values(e: ExtV) -> ExtV {
    match e {
        ExtV::SignatureAlgorithms(v) => ExtV::SignatureAlgorithms(without_grease(v)),
        ExtV::SupportedVersions(v) => ExtV::SupportedVersions(without_grease(v)),
        _ => e,
    }
}

/// The extensions with every GREASE entry removed: GREASE-typed
/// extensions are dropped, and GREASE values inside signature algorithms
/// and supported versions are left out.
pub open spec fn grease_free(exts: Seq<ExtV>) -> Seq<ExtV> {
    without_grease_exts(exts).map_values(|e: ExtV| without_grease_values(e))
}

proof fn lemma_without_grease_twice(v: Seq<u16>)
    ensures
        without_grease(without_grease(v)) == without_grease(v),
    decreases v.len(),
{
    broadcast use Seq::lemma_filter_prepend;

    if v.len() == 0 {
        reveal(Seq::filter);
        assert(without_grease(v) =~= v);
    } else {
        let r = v.drop_first();
        lemma_without_grease_twice(r);
        assert(v =~= seq![v[0]] + r);
        if !grease(v[0]) {
            assert(without_grease(v) == seq![v[0]] + without_grease(r));
        } else {
            assert(without_grease(v) == Seq::<u16>::empty() + without_grease(r));
            assert(without_grease(v) =~= without_grease(r));
        }
    }
}

/// Removing GREASE values inside extensions changes nothing JA4 reads.
proof fn lemma_grease_values_unseen(y: Seq<ExtV>)
    ensures
        ({
            let m = y.map_values(|e: ExtV| without_grease_values(e));
            &&& sni_of(m) == sni_of(y)
            &&& alpn_of(m) == alpn_of(y)
            &&& ext_types(m) == ext_types(y)
            &&& without_grease(sig_algs_of(m)) == without_grease(sig_algs_of(y))
            &&& forall|legacy: u16| #[trigger] real_version_spec(legacy, m) == real_version_spec(legacy, y)
        }),
    decreases y.len(),
{
    let m = y.map_values(|e: ExtV| without_grease_values(e));
    assert(ext_types(m) =~= ext_types(y));
    if y.len() == 0 {
        assert(m =~= y);
    } else {
        let r = y.drop_first();
        lemma_grease_values_unseen(r);
        let mr = r.map_values(|e: ExtV| without_grease_values(e));
        assert(m.drop_first() =~= mr);
        assert(m[0] == without_grease_values(y[0]));
        Seq::filter_distributes_over_add(sig_algs_of(mr), Seq::<u16>::empty(), |v: u16| !grease(v));
        match y[0] {
            ExtV::SignatureAlgorithms(v) => {
                lemma_without_grease_twice(v);
                Seq::filter_distributes_over_add(without_grease(v), sig_algs_of(mr), |x: u16| !grease(x));
                Seq::filter_distributes_over_add(v, sig_algs_of(r), |x: u16| !grease(x));
            },
            ExtV::SupportedVersions(v) => {
                lemma_without_grease_twice(v);
            },
            _ => {},
        }
        assert forall|legacy: u16| #[trigger] real_version_spec(legacy, m) == real_version_spec(legacy, y) by {
            assert(real_version_spec(legacy, mr) == real_version_spec(legacy, r));
        }
    }
}

/// JA4 ignores GREASE wherever it stands: two hellos that differ only in
/// their cipher suites and extensions, whose non-GREASE cipher suites are
/// the same values equally often, and whose extensions agree once GREASE
/// entries are removed (GREASE-typed extensions, and GREASE values in
/// signature algorithms and supported versions), have the same JA4.
pub proof fn lemma_ja4_ignores_grease(a: ClientHelloV, b: ClientHelloV)
    requires
        b == (ClientHelloV { cipher_suites: b.cipher_suites, extensions: b.extensions, ..a }),
        without_grease(a.cipher_suites).to_multiset() == without_grease(b.cipher_suites).to_multiset(),
        grease_free(a.extensions) == grease_free(b.extensions),
    ensures
        ja4_string(a) == ja4_string(b),
{
    let c = ClientHelloV { cipher_suites: b.cipher_suites, ..a };
    lemma_ja4_ignores_suite_order_and_grease(a, c);
    let x = c.extensions;
    let y = b.extensions;
    lemma_grease_exts_unseen(x);
    lemma_grease_exts_unseen(y);
    lemma_grease_values_unseen(without_grease_exts(x));
    lemma_grease_values_unseen(without_grease_exts(y));
    let gx = grease_free(x);
    let legacy = c.legacy_version;
    assert(real_version_spec(legacy, x) == real_version_spec(legacy, without_grease_exts(x)));
    assert(real_version_spec(legacy, y) == real_version_spec(legacy, without_grease_exts(y)));
    assert(real_version_spec(legacy, gx) == real_version_spec(legacy, without_grease_exts(x)));
    assert(real_version_spec(legacy, gx) == real_version_spec(legacy, without_grease_exts(y)));
    assert(ja4_ext_types(x) == ja4_ext_types(y));
    assert(ja4_tag(c) == ja4_tag(b));
    assert(ja4_ext_text(x) == ja4_ext_text(y));
}

} // verus!
