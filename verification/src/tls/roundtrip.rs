//! The builder and the parser are inverse: a `ClientHello` built by
//! [`ClientHelloBuilder`](crate::tls::builder::ClientHelloBuilder) parses
//! back to exactly the settings it was built from.

use crate::error::ErrV;
use crate::tls::builder::{hello_body, handshake_of, record_of, alpn_inner, alpn_item, build_spec, default_groups, default_key_share_groups, default_sig_algs, default_versions, ext_bytes, extensions_bytes, handshake_bytes, key_share_bytes, key_share_entry_bytes, sni_data, u16s_bytes, BuilderV, body_bytes};
use crate::tls::bytes::{be16, be24, u16_be};
use crate::tls::client_hello::{alpn_of, ch_body_spec, ch_handshake_spec, client_hello_spec, sni_of, ClientHelloV};
use crate::tls::extensions::alpn::{alpn_items, alpn_spec};
use crate::tls::extensions::common::{u16_list_spec, u16s, u8_list_spec};
use crate::tls::extensions::key_share::{key_share_entries, key_share_spec};
use crate::tls::extensions::sni::sni_spec;
use crate::tls::extensions::versions::versions_spec;
use crate::tls::extensions::{ext_or_unknown, exts_from, single_spec, ExtV, KeyShareV};
use crate::tls::grease::{grease, without_grease};
use crate::tls::record::{content_type_of, record_spec, ContentType};
use crate::tls::version::{real_version_spec, seq_max, version_of, TlsVersion};
use crate::pcap::extractor::scan_hellos;
use crate::util::text::utf8_text;
use vstd::prelude::*;

verus! {

broadcast use vstd::utf8::encode_utf8_valid_utf8, vstd::utf8::encode_utf8_decode_utf8;

/// The extensions a built `ClientHello` is read back with.
pub open spec fn built_extensions(b: BuilderV) -> Seq<ExtV> {
    let sni = match b.sni {
        Some(h) => seq![ExtV::Sni(h)],
        None => Seq::empty(),
    };
    let alpn = if b.alpn.len() == 0 {
        Seq::empty()
    } else {
        seq![ExtV::Alpn(b.alpn)]
    };
    sni + seq![
        ExtV::SupportedGroups(default_groups()),
        ExtV::EcPointFormats(seq![0u8]),
        ExtV::SignatureAlgorithms(default_sig_algs()),
    ] + alpn + seq![
        ExtV::SupportedVersions(default_versions()),
        ExtV::KeyShare(built_key_share()),
    ]
}

/// The `ClientHello` a builder's bytes stand for.
pub open spec fn built_hello(b: BuilderV) -> ClientHelloV {
    ClientHelloV {
        legacy_version: 0x0303,
        random: b.random,
        session_id: Seq::empty(),
        cipher_suites: b.cipher_suites,
        compression_methods: seq![0u8],
        extensions: built_extensions(b),
        raw: handshake_bytes(b),
    }
}

/// A builder whose hello fits one record and whose every ALPN name fits
/// its one-byte length.
pub open spec fn fits_wire(b: BuilderV) -> bool {
    &&& b.random.len() == 32
    &&& build_spec(b).len() <= 5 + 16384
    &&& forall|i: int| 0 <= i < b.alpn.len() ==> vstd::utf8::encode_utf8(#[trigger] b.alpn[i]).len() <= 255
}

proof fn lemma_u16_be(v: int)
    requires
        0 <= v < 65536,
    ensures
        ((v / 256) % 256) * 256 + v % 256 == v,
        (v / 256) % 256 == v / 256,
        0 <= v / 256 < 256,
{
    assert(((v / 256) % 256) * 256 + v % 256 == v && (v / 256) % 256 == v / 256) by (nonlinear_arith)
        requires 0 <= v < 65536;
}

proof fn lemma_be16_at(s: Seq<u8>, i: int, v: int)
    requires
        0 <= v < 65536,
        0 <= i,
        i + 2 <= s.len(),
        s.subrange(i, i + 2) == u16_be(v),
    ensures
        be16(s, i) == v,
{
    lemma_u16_be(v);
    assert(s[i] == s.subrange(i, i + 2)[0]);
    assert(s[i + 1] == s.subrange(i, i + 2)[1]);
}

proof fn lemma_u16s_bytes(data: Seq<u8>, start: int, s: Seq<u16>)
    requires
        0 <= start,
        start + 2 * s.len() <= data.len(),
        data.subrange(start, start + 2 * s.len()) == u16s_bytes(s),
    ensures
        u16s(data, start, s.len()) == s,
{
    assert forall|i: int| 0 <= i < s.len() implies #[trigger] u16s(data, start, s.len())[i] == s[i] by {
        let bytes = u16s_bytes(s);
        assert(data[start + 2 * i] == bytes[2 * i]);
        assert(data[start + 2 * i + 1] == bytes[2 * i + 1]);
        assert((2 * i) / 2 == i);
        assert((2 * i + 1) / 2 == i);
        lemma_u16_be(s[i] as int);
    }
    assert(u16s(data, start, s.len()) =~= s);
}

/// A successful scan of extensions reads the same after any prefix.
proof fn lemma_exts_shift(p: Seq<u8>, r: Seq<u8>, k: int)
    requires
        0 <= k,
        exts_from(r, k) is Ok,
    ensures
        exts_from(p + r, p.len() + k) == exts_from(r, k),
    decreases r.len() - k,
{
    let buf = p + r;
    let q = p.len() + k;
    if k < r.len() {
        assert(buf[q] == r[k]);
        assert(buf[q + 1] == r[k + 1]);
        assert(buf[q + 2] == r[k + 2]);
        assert(buf[q + 3] == r[k + 3]);
        let ext_len = be16(r, k + 2);
        assert(buf.subrange(q + 4, q + 4 + ext_len) =~= r.subrange(k + 4, k + 4 + ext_len));
        lemma_exts_shift(p, r, k + 4 + ext_len);
    }
}

/// One complete extension in front of a successful scan.
#[verifier::spinoff_prover]
#[verifier::rlimit(40)]
proof fn lemma_ext_cons(t: u16, d: Seq<u8>, r: Seq<u8>)
    requires
        d.len() < 65536,
        exts_from(r, 0) is Ok,
    ensures
        exts_from(ext_bytes(t, d) + r, 0) == Ok::<Seq<ExtV>, ErrV>(
            seq![ext_or_unknown(t, d)] + exts_from(r, 0)->Ok_0),
{
    let x = ext_bytes(t, d);
    let buf = x + r;
    lemma_be16_at(buf, 0, t as int);
    assert(buf.subrange(0, 2) =~= u16_be(t as int));
    assert(buf.subrange(2, 4) =~= u16_be(d.len() as int));
    lemma_be16_at(buf, 2, d.len() as int);
    assert(buf.subrange(4, 4 + d.len() as int) =~= d);
    lemma_exts_shift(x, r, 0);
    assert(x.len() == 4 + d.len() as int);
}

proof fn lemma_exts_empty()
    ensures
        exts_from(Seq::<u8>::empty(), 0) == Ok::<Seq<ExtV>, ErrV>(Seq::empty()),
{
}

proof fn lemma_alpn_inner_front(ps: Seq<Seq<char>>)
    requires
        ps.len() > 0,
    ensures
        alpn_inner(ps) == alpn_item(ps[0]) + alpn_inner(ps.drop_first()),
    decreases ps.len(),
{
    if ps.len() == 1 {
        assert(ps.drop_last() =~= Seq::<Seq<char>>::empty());
        assert(ps.drop_first() =~= Seq::<Seq<char>>::empty());
        assert(alpn_inner(ps) =~= alpn_item(ps[0]) + alpn_inner(ps.drop_first()));
    } else {
        lemma_alpn_inner_front(ps.drop_last());
        assert(ps.drop_last().drop_first() =~= ps.drop_first().drop_last());
        assert(ps.drop_first().last() == ps.last());
        assert(alpn_inner(ps) =~= alpn_item(ps[0]) + alpn_inner(ps.drop_first()));
    }
}

proof fn lemma_alpn_items(data: Seq<u8>, pos: int, end: int, ps: Seq<Seq<char>>)
    requires
        0 <= pos <= end <= data.len(),
        data.subrange(pos, end) == alpn_inner(ps),
        forall|i: int| 0 <= i < ps.len() ==> vstd::utf8::encode_utf8(#[trigger] ps[i]).len() <= 255,
    ensures
        alpn_items(data, pos, end) == Some(ps),
    decreases ps.len(),
{
    if ps.len() == 0 {
        assert(data.subrange(pos, end).len() == 0);
    } else {
        lemma_alpn_inner_front(ps);
        let enc = vstd::utf8::encode_utf8(ps[0]);
        let len = enc.len() as int;
        let whole = data.subrange(pos, end);
        let item = alpn_item(ps[0]);
        assert(whole == item + alpn_inner(ps.drop_first()));
        assert(len <= 255);
        assert(item[0] == (len % 256) as u8);
        assert(len % 256 == len);
        assert(whole[0] == item[0]);
        assert(data[pos] == whole[0]);
        assert(data[pos] as int == len);
        assert forall|j: int| 0 <= j < len implies #[trigger] data.subrange(pos + 1, pos + 1 + len)[j] == enc[j] by {
            assert(data[pos + 1 + j] == whole[1 + j]);
            assert(whole[1 + j] == item[1 + j]);
        }
        assert(data.subrange(pos + 1, pos + 1 + len) =~= enc);
        assert forall|j: int| 0 <= j < end - (pos + 1 + len) implies #[trigger] data.subrange(pos + 1 + len, end)[j]
            == alpn_inner(ps.drop_first())[j] by {
            assert(data[pos + 1 + len + j] == whole[1 + len + j]);
        }
        assert(data.subrange(pos + 1 + len, end) =~= alpn_inner(ps.drop_first()));
        assert forall|i: int| 0 <= i < ps.drop_first().len() implies
            vstd::utf8::encode_utf8(#[trigger] ps.drop_first()[i]).len() <= 255 by {
            assert(ps.drop_first()[i] == ps[i + 1]);
        }
        lemma_alpn_items(data, pos + 1 + len, end, ps.drop_first());
        assert(utf8_text(enc) == ps[0]);
        assert(seq![ps[0]] + ps.drop_first() =~= ps);
    }
}

proof fn lemma_key_share_bytes_one(g: u16)
    ensures
        key_share_bytes(seq![g]) == key_share_entry_bytes(g),
{
    assert(seq![g].drop_last() =~= Seq::<u16>::empty());
    assert(key_share_bytes(Seq::<u16>::empty()) == Seq::<u8>::empty());
    assert(seq![g].last() == g);
    assert(key_share_bytes(seq![g]) == key_share_bytes(seq![g].drop_last()) + key_share_entry_bytes(g));
    assert(key_share_bytes(seq![g]) =~= key_share_entry_bytes(g));
}

/// The SNI extension a builder writes reads back as its host name.
proof fn lemma_sni_ext(h: Seq<char>)
    requires
        vstd::utf8::encode_utf8(h).len() + 3 < 65536,
    ensures
        ext_or_unknown(0x0000, sni_data(vstd::utf8::encode_utf8(h))) == ExtV::Sni(h),
{
    let host = vstd::utf8::encode_utf8(h);
    let d = sni_data(host);
    assert(d.subrange(0, 2) =~= u16_be(host.len() as int + 3));
    lemma_be16_at(d, 0, host.len() as int + 3);
    assert(d.subrange(3, 5) =~= u16_be(host.len() as int));
    lemma_be16_at(d, 3, host.len() as int);
    assert(d.subrange(5, 5 + host.len() as int) =~= host);
    assert(sni_spec(d) == Some(h));
}

proof fn lemma_groups_ext()
    ensures
        ext_or_unknown(0x000a, u16_be(2 * default_groups().len() as int) + u16s_bytes(default_groups()))
            == ExtV::SupportedGroups(default_groups()),
{
    let d = u16_be(6) + u16s_bytes(default_groups());
    assert(d.subrange(0, 2) =~= u16_be(6));
    lemma_be16_at(d, 0, 6);
    assert(d.subrange(2, 8) =~= u16s_bytes(default_groups()));
    lemma_u16s_bytes(d, 2, default_groups());
    assert(u16_list_spec(d) == Some(default_groups()));
}

proof fn lemma_points_ext()
    ensures
        ext_or_unknown(0x000b, seq![0x01u8, 0x00u8]) == ExtV::EcPointFormats(seq![0u8]),
{
    let d = seq![0x01u8, 0x00u8];
    assert(d.subrange(1, 2) =~= seq![0u8]);
}

proof fn lemma_sigs_ext()
    ensures
        ext_or_unknown(0x000d, u16_be(2 * default_sig_algs().len() as int) + u16s_bytes(default_sig_algs()))
            == ExtV::SignatureAlgorithms(default_sig_algs()),
{
    let d = u16_be(16) + u16s_bytes(default_sig_algs());
    assert(d.subrange(0, 2) =~= u16_be(16));
    lemma_be16_at(d, 0, 16);
    assert(d.subrange(2, 18) =~= u16s_bytes(default_sig_algs()));
    lemma_u16s_bytes(d, 2, default_sig_algs());
    assert(u16_list_spec(d) == Some(default_sig_algs()));
}

proof fn lemma_alpn_ext(ps: Seq<Seq<char>>)
    requires
        ps.len() > 0,
        alpn_inner(ps).len() < 65536,
        forall|i: int| 0 <= i < ps.len() ==> vstd::utf8::encode_utf8(#[trigger] ps[i]).len() <= 255,
    ensures
        ext_or_unknown(0x0010, u16_be(alpn_inner(ps).len() as int) + alpn_inner(ps)) == ExtV::Alpn(ps),
{
    let inner = alpn_inner(ps);
    let d = u16_be(inner.len() as int) + inner;
    assert(d.subrange(0, 2) =~= u16_be(inner.len() as int));
    lemma_be16_at(d, 0, inner.len() as int);
    assert(d.subrange(2, 2 + inner.len() as int) =~= inner);
    lemma_alpn_items(d, 2, 2 + inner.len() as int, ps);
    assert(alpn_spec(d) == Some(ps));
}

proof fn lemma_versions_ext()
    ensures
        ext_or_unknown(0x002b, seq![(2 * default_versions().len()) as u8] + u16s_bytes(default_versions()))
            == ExtV::SupportedVersions(default_versions()),
{
    let d = seq![4u8] + u16s_bytes(default_versions());
    assert(d.subrange(1, 5) =~= u16s_bytes(default_versions()));
    lemma_u16s_bytes(d, 1, default_versions());
    assert(versions_spec(d) == Some(default_versions()));
}

/// The key share a built hello carries.
pub open spec fn built_key_share() -> Seq<KeyShareV> {
    seq![KeyShareV { group: 0x001d, key_exchange: Seq::new(32, |i: int| 0x42u8) }]
}

proof fn lemma_key_share_ext()
    ensures
        ext_or_unknown(
            0x0033,
            u16_be(key_share_bytes(default_key_share_groups()).len() as int) + key_share_bytes(
                default_key_share_groups(),
            ),
        ) == ExtV::KeyShare(built_key_share()),
{
    lemma_key_share_bytes_one(0x001d);
    let ks = key_share_bytes(default_key_share_groups());
    let d = u16_be(36) + ks;
    assert(ks.len() == 36);
    assert(d.subrange(0, 2) =~= u16_be(36));
    lemma_be16_at(d, 0, 36);
    assert(d.subrange(2, 4) =~= u16_be(0x001d));
    lemma_be16_at(d, 2, 0x001d);
    assert(d.subrange(4, 6) =~= u16_be(32));
    lemma_be16_at(d, 4, 32);
    assert(d.subrange(6, 38) =~= Seq::new(32, |i: int| 0x42u8));
    assert(key_share_entries(d, 38, 38) == Some(Seq::<KeyShareV>::empty()));
    assert(built_key_share() + Seq::<KeyShareV>::empty() =~= built_key_share());
    assert(key_share_spec(d) == Some(built_key_share()));
}

/// The extensions block a builder writes scans back as
/// [`built_extensions`].
#[verifier::rlimit(100)]
proof fn lemma_extensions_parse(b: BuilderV)
    requires
        fits_wire(b),
        extensions_bytes(b).len() < 65536,
    ensures
        exts_from(extensions_bytes(b), 0) == Ok::<Seq<ExtV>, ErrV>(built_extensions(b)),
{
    let e = extensions_bytes(b);
    let sni = match b.sni {
        Some(h) => ext_bytes(0x0000, sni_data(vstd::utf8::encode_utf8(h))),
        None => Seq::empty(),
    };
    let dg = u16_be(2 * default_groups().len() as int) + u16s_bytes(default_groups());
    let groups = ext_bytes(0x000a, dg);
    let dp = seq![0x01u8, 0x00u8];
    let points = ext_bytes(0x000b, dp);
    let ds = u16_be(2 * default_sig_algs().len() as int) + u16s_bytes(default_sig_algs());
    let sigs = ext_bytes(0x000d, ds);
    let inner = alpn_inner(b.alpn);
    let da = u16_be(inner.len() as int) + inner;
    let alpn = if b.alpn.len() == 0 {
        Seq::empty()
    } else {
        ext_bytes(0x0010, da)
    };
    let dv = seq![(2 * default_versions().len()) as u8] + u16s_bytes(default_versions());
    let versions = ext_bytes(0x002b, dv);
    let ks = key_share_bytes(default_key_share_groups());
    let dk = u16_be(ks.len() as int) + ks;
    let key_share = ext_bytes(0x0033, dk);
    assert(e == sni + groups + points + sigs + alpn + versions + key_share);
    lemma_key_share_bytes_one(0x001d);
    assert(ks.len() == 36);

    let ks_ext = ExtV::KeyShare(built_key_share());
    let v_ext = ExtV::SupportedVersions(default_versions());
    let a_ext = ExtV::Alpn(b.alpn);
    let s_ext = ExtV::SignatureAlgorithms(default_sig_algs());
    let p_ext = ExtV::EcPointFormats(seq![0u8]);
    let g_ext = ExtV::SupportedGroups(default_groups());

    // From the last extension to the first.
    lemma_exts_empty();
    lemma_key_share_ext();
    lemma_ext_cons(0x0033, dk, Seq::empty());
    assert(key_share + Seq::<u8>::empty() =~= key_share);
    let t6 = seq![ks_ext];
    assert(exts_from(key_share, 0) == Ok::<Seq<ExtV>, ErrV>(t6));

    lemma_versions_ext();
    lemma_ext_cons(0x002b, dv, key_share);
    let t5 = seq![v_ext] + t6;
    let r5 = versions + key_share;
    assert(exts_from(r5, 0) == Ok::<Seq<ExtV>, ErrV>(t5));

    let r4 = alpn + r5;
    let t4 = if b.alpn.len() == 0 { t5 } else { seq![a_ext] + t5 };
    if b.alpn.len() == 0 {
        assert(r4 =~= r5);
    } else {
        assert(inner.len() < 65536) by {
            assert(e.len() >= alpn.len());
        }
        lemma_alpn_ext(b.alpn);
        lemma_ext_cons(0x0010, da, r5);
    }
    assert(exts_from(r4, 0) == Ok::<Seq<ExtV>, ErrV>(t4));

    lemma_sigs_ext();
    lemma_ext_cons(0x000d, ds, r4);
    let r3 = sigs + r4;
    let t3 = seq![s_ext] + t4;
    assert(exts_from(r3, 0) == Ok::<Seq<ExtV>, ErrV>(t3));

    lemma_points_ext();
    lemma_ext_cons(0x000b, dp, r3);
    let r2 = points + r3;
    let t2 = seq![p_ext] + t3;
    assert(exts_from(r2, 0) == Ok::<Seq<ExtV>, ErrV>(t2));

    lemma_groups_ext();
    lemma_ext_cons(0x000a, dg, r2);
    let r1 = groups + r2;
    let t1 = seq![g_ext] + t2;
    assert(exts_from(r1, 0) == Ok::<Seq<ExtV>, ErrV>(t1));

    let r0 = sni + r1;
    let t0 = match b.sni {
        Some(h) => seq![ExtV::Sni(h)] + t1,
        None => t1,
    };
    match b.sni {
        Some(h) => {
            let host = vstd::utf8::encode_utf8(h);
            assert(host.len() + 3 < 65536) by {
                assert(e.len() >= sni.len());
            }
            lemma_sni_ext(h);
            lemma_ext_cons(0x0000, sni_data(host), r1);
        },
        None => {
            assert(r0 =~= r1);
        },
    }
    assert(exts_from(r0, 0) == Ok::<Seq<ExtV>, ErrV>(t0));
    assert(e =~= r0);
    assert(t0 =~= built_extensions(b));
}

/// The record header is detected and stripped: a `ClientHello` handshake
/// message that fits one record parses the same, success or error, bare
/// or wrapped in a handshake record.
#[verifier::spinoff_prover]
pub proof fn lemma_record_stripped(h: Seq<u8>)
    requires
        1 <= h.len() <= 16384,
        h[0] == 0x01,
    ensures
        client_hello_spec(record_of(h)) == client_hello_spec(h),
{
    let buf = record_of(h);
    assert(buf.len() == 5 + h.len());
    assert(buf.subrange(3, 5) =~= u16_be(h.len() as int));
    lemma_be16_at(buf, 3, h.len() as int);
    assert(buf.subrange(5, 5 + h.len() as int) =~= h);
    assert(buf[0] == 0x16);
    assert(content_type_of(0x16) == ContentType::Handshake);
}

/// Building a `ClientHello` and parsing the bytes gives back exactly the
/// builder's settings: legacy version `0x0303`, its random and cipher
/// suites, no session id, the null compression method, and the
/// extensions SNI (when set), supported groups, point formats, signature
/// algorithms, ALPN (when non-empty), supported versions and key share,
/// in that order. This holds whenever the hello fits one record and every
/// ALPN name fits its one-byte length.
/// A body written by [`hello_body`] around a well-formed extensions block
/// parses back to its fields.
#[verifier::rlimit(50)]
#[verifier::spinoff_prover]
proof fn lemma_body_parse(random: Seq<u8>, suites: Seq<u16>, e: Seq<u8>, raw: Seq<u8>, exts: Seq<ExtV>)
    requires
        random.len() == 32,
        hello_body(random, suites, e).len() <= 16380,
        exts_from(e, 0) == Ok::<Seq<ExtV>, ErrV>(exts),
    ensures
        ch_body_spec(hello_body(random, suites, e), raw) == Ok::<ClientHelloV, ErrV>(ClientHelloV {
            legacy_version: 0x0303,
            random,
            session_id: Seq::empty(),
            cipher_suites: suites,
            compression_methods: seq![0u8],
            extensions: exts,
            raw,
        }),
{
    let body = hello_body(random, suites, e);
    let cs = suites.len() as int;
    assert(body.len() == 41 + 2 * cs + e.len());
    assert(cs % 65536 == cs);
    assert(body.subrange(0, 2) =~= u16_be(0x0303));
    lemma_be16_at(body, 0, 0x0303);
    assert(body.subrange(2, 34) =~= random);
    assert(body[34] == 0);
    assert(body.subrange(35, 37) =~= u16_be(2 * cs));
    lemma_be16_at(body, 35, 2 * cs);
    assert(body.subrange(37, 37 + 2 * cs) =~= u16s_bytes(suites));
    lemma_u16s_bytes(body, 37, suites);
    assert(body[37 + 2 * cs] == 1);
    assert(body.subrange(38 + 2 * cs, 39 + 2 * cs) =~= seq![0u8]);
    assert(body.subrange(39 + 2 * cs, 41 + 2 * cs) =~= u16_be(e.len() as int));
    lemma_be16_at(body, 39 + 2 * cs, e.len() as int);
    assert(body.subrange(41 + 2 * cs, 41 + 2 * cs + e.len()) =~= e);
    assert(body.subrange(35, 35) =~= Seq::<u8>::empty());
}

/// A record written by [`record_of`] around a handshake written by
/// [`handshake_of`] is read back as that handshake's body.
proof fn lemma_frames_parse(body: Seq<u8>, res: Result<ClientHelloV, ErrV>)
    requires
        body.len() <= 16380,
        ch_body_spec(body, handshake_of(body)) == res,
    ensures
        client_hello_spec(record_of(handshake_of(body))) == res,
{
    let hs = handshake_of(body);
    let buf = record_of(hs);
    let n = body.len() as int;
    assert(hs.len() == 4 + n);
    assert(buf.len() == 5 + hs.len());
    assert(buf.subrange(3, 5) =~= u16_be(hs.len() as int));
    lemma_be16_at(buf, 3, hs.len() as int);
    assert(buf.subrange(5, 5 + hs.len() as int) =~= hs);
    lemma_u16_be(n);
    assert(be24(hs, 1) == n);
    assert(hs.subrange(4, 4 + n) =~= body);
    assert(hs.subrange(0, 4 + n) =~= hs);
}

/// Building a `ClientHello` and parsing the bytes gives back exactly the
/// builder's settings: legacy version `0x0303`, its random and cipher
/// suites, no session id, the null compression method, and the
/// extensions SNI (when set), supported groups, point formats, signature
/// algorithms, ALPN (when non-empty), supported versions and key share,
/// in that order. This holds whenever the hello fits one record and every
/// ALPN name fits its one-byte length.
#[verifier::spinoff_prover]
pub proof fn lemma_build_parse_roundtrip(b: BuilderV)
    requires
        fits_wire(b),
    ensures
        client_hello_spec(build_spec(b)) == Ok::<ClientHelloV, ErrV>(built_hello(b)),
{
    let e = extensions_bytes(b);
    let body = body_bytes(b);
    assert(body.len() + 9 == build_spec(b).len());
    assert(e.len() < 65536);
    lemma_extensions_parse(b);
    lemma_body_parse(b.random, b.cipher_suites, e, handshake_bytes(b), built_extensions(b));
    lemma_frames_parse(body, Ok::<ClientHelloV, ErrV>(built_hello(b)));
}

proof fn lemma_record_offset_free(buf: Seq<u8>, o1: int, o2: int)
    ensures
        (record_spec(buf, o1) is Ok) == (record_spec(buf, o2) is Ok),
        record_spec(buf, o1) is Ok ==> record_spec(buf, o1) == record_spec(buf, o2),
{
}

/// Scanning past a prefix reads the rest as if it stood alone.
#[verifier::spinoff_prover]
#[verifier::rlimit(30)]
pub(crate) proof fn lemma_scan_shift(x: Seq<u8>, y: Seq<u8>, p: int)
    requires
        0 <= p,
    ensures
        scan_hellos(x + y, x.len() + p) == scan_hellos(y, p),
    decreases y.len() - p,
{
    let s = x + y;
    let q = x.len() + p;
    if q + 5 > s.len() {
    } else {
        assert(s[q] == y[p]);
        assert(s.skip(q) =~= y.skip(p));
        lemma_record_offset_free(y.skip(p), q, p);
        if s[q] == 0x16 {
            match record_spec(y.skip(p), p) {
                Ok((rec, n)) => {
                    crate::pcap::extractor::lemma_record_len(y.skip(p), p);
                    assert(s.subrange(q, q + n) =~= y.subrange(p, p + n));
                    lemma_scan_shift(x, y, p + n);
                },
                Err(_) => {
                    lemma_scan_shift(x, y, p + 1);
                },
            }
        } else {
            lemma_scan_shift(x, y, p + 1);
        }
    }
}

#[verifier::spinoff_prover]
proof fn lemma_single_record_scan(body: Seq<u8>, ch: ClientHelloV, t: Seq<u8>)
    requires
        body.len() <= 16380,
        client_hello_spec(record_of(handshake_of(body))) == Ok::<ClientHelloV, ErrV>(ch),
    ensures
        scan_hellos(record_of(handshake_of(body)) + t, 0) == seq![ch] + scan_hellos(t, 0),
{
    let hs = handshake_of(body);
    let r = record_of(hs);
    let s = r + t;
    let n = r.len() as int;
    assert(r.len() == 5 + hs.len());
    assert(s.skip(0) =~= s);
    assert(s.subrange(3, 5) =~= u16_be(hs.len() as int));
    lemma_be16_at(s, 3, hs.len() as int);
    assert(s.subrange(5, 5 + hs.len() as int) =~= hs);
    assert(s[0] == r[0]);
    assert(record_spec(s, 0) matches Ok((rec, m)) && m == n && rec.content_type == ContentType::Handshake
        && rec.payload == hs);
    assert(s.subrange(0, n) =~= r);
    lemma_scan_shift(r, t, 0);
}

/// A stream holding exactly one built `ClientHello` yields exactly that
/// hello when scanned for handshakes: what the builder sends, capture
/// analysis recognises.
pub proof fn lemma_built_hello_extracted(b: BuilderV)
    requires
        fits_wire(b),
    ensures
        scan_hellos(build_spec(b), 0) == seq![built_hello(b)],
{
    lemma_build_parse_roundtrip(b);
    let body = body_bytes(b);
    lemma_frame_len(body);
    lemma_single_record_scan(body, built_hello(b), Seq::<u8>::empty());
    lemma_add_empty(record_of(handshake_of(body)));
    assert(scan_hellos(Seq::<u8>::empty(), 0) == Seq::<ClientHelloV>::empty());
    lemma_add_empty_hellos(seq![built_hello(b)]);
}

proof fn lemma_add_empty(x: Seq<u8>)
    ensures
        x + Seq::<u8>::empty() == x,
{
    assert(x + Seq::<u8>::empty() =~= x);
}

proof fn lemma_add_empty_hellos(x: Seq<ClientHelloV>)
    ensures
        x + Seq::<ClientHelloV>::empty() == x,
{
    assert(x + Seq::<ClientHelloV>::empty() =~= x);
}

proof fn lemma_frame_len(body: Seq<u8>)
    ensures
        record_of(handshake_of(body)).len() == body.len() + 9,
{
}

/// A built `ClientHello` in front of any bytes `t` is found first, and the
/// scan then goes on in `t`.
proof fn lemma_built_hello_cons(b: BuilderV, t: Seq<u8>)
    requires
        fits_wire(b),
    ensures
        scan_hellos(build_spec(b) + t, 0) == seq![built_hello(b)] + scan_hellos(t, 0),
{
    lemma_build_parse_roundtrip(b);
    let body = body_bytes(b);
    lemma_frame_len(body);
    lemma_single_record_scan(body, built_hello(b), t);
}

/// The bytes of several built `ClientHello`s, back to back.
pub open spec fn builds(bs: Seq<BuilderV>) -> Seq<u8>
    decreases bs.len(),
{
    if bs.len() == 0 {
        Seq::empty()
    } else {
        build_spec(bs[0]) + builds(bs.drop_first())
    }
}

/// A stream of built `ClientHello`s back to back yields every one of them,
/// in order, when scanned for handshakes.
#[verifier::spinoff_prover]
pub proof fn lemma_built_hellos_extracted(bs: Seq<BuilderV>)
    requires
        forall|i: int| 0 <= i < bs.len() ==> fits_wire(#[trigger] bs[i]),
    ensures
        scan_hellos(builds(bs), 0) == bs.map_values(|x: BuilderV| built_hello(x)),
    decreases bs.len(),
{
    if bs.len() == 0 {
        assert(scan_hellos(builds(bs), 0) == Seq::<ClientHelloV>::empty());
        assert(bs.map_values(|x: BuilderV| built_hello(x)) =~= Seq::<ClientHelloV>::empty());
    } else {
        let b = bs[0];
        let rest = bs.drop_first();
        assert forall|i: int| 0 <= i < rest.len() implies fits_wire(#[trigger] rest[i]) by {
            assert(rest[i] == bs[i + 1]);
        }
        lemma_built_hellos_extracted(rest);
        assert(fits_wire(b));
        lemma_built_hello_cons(b, builds(rest));
        assert(builds(bs) == build_spec(b) + builds(rest));
        assert(bs.map_values(|x: BuilderV| built_hello(x)) =~= seq![built_hello(b)] + rest.map_values(
            |x: BuilderV| built_hello(x),
        ));
    }
}

proof fn lemma_tail_accessors()
    ensures
        ({
            let tail = seq![ExtV::SupportedVersions(default_versions()), ExtV::KeyShare(built_key_share())];
            &&& real_version_spec(0x0303, tail) == TlsVersion::Tls13
            &&& alpn_of(tail) is None
            &&& sni_of(tail) is None
        }),
{
    let tail = seq![ExtV::SupportedVersions(default_versions()), ExtV::KeyShare(built_key_share())];
    let d = default_versions();
    assert(d.len() == 2);
    assert(d.drop_last() =~= seq![0x0304u16]);
    assert(seq_max(d.drop_last()) == 0x0304);
    assert(d.last() == 0x0303);
    assert(seq_max(d) == 0x0304);
    assert(tail[0] == ExtV::SupportedVersions(d));
    let t1 = tail.drop_first();
    assert(t1 =~= seq![ExtV::KeyShare(built_key_share())]);
    assert(t1.drop_first() =~= Seq::<ExtV>::empty());
    assert(alpn_of(t1.drop_first()) is None);
    assert(sni_of(t1.drop_first()) is None);
    assert(alpn_of(t1) is None);
    assert(sni_of(t1) is None);
    assert(alpn_of(tail) is None);
    assert(sni_of(tail) is None);
    lemma_default_versions_kept();
    assert(real_version_spec(0x0303, tail) == version_of(seq_max(d)));
}

proof fn lemma_default_versions_kept()
    ensures
        without_grease(default_versions()) == default_versions(),
{
    let d = default_versions();
    assert(d.len() == 2);
    assert(!grease(d[0]) && !grease(d[1]));
    reveal_with_fuel(Seq::<u16>::filter, 3);
    assert(d.drop_last() =~= seq![d[0]]);
    assert(seq![d[0]].drop_last() =~= Seq::<u16>::empty());
    assert(without_grease(seq![d[0]]) =~= seq![d[0]]);
    assert(without_grease(d) =~= d);
}

proof fn lemma_rest_accessors(alpn: Seq<Seq<char>>)
    ensures
        ({
            let tail = seq![ExtV::SupportedVersions(default_versions()), ExtV::KeyShare(built_key_share())];
            let mid = seq![
                ExtV::SupportedGroups(default_groups()),
                ExtV::EcPointFormats(seq![0u8]),
                ExtV::SignatureAlgorithms(default_sig_algs()),
            ];
            let a = if alpn.len() == 0 {
                Seq::<ExtV>::empty()
            } else {
                seq![ExtV::Alpn(alpn)]
            };
            let rest = mid + a + tail;
            &&& real_version_spec(0x0303, rest) == TlsVersion::Tls13
            &&& alpn_of(rest) == (if alpn.len() > 0 {
                Some(alpn)
            } else {
                None
            })
            &&& sni_of(rest) is None
        }),
{
    lemma_tail_accessors();
    let tail = seq![ExtV::SupportedVersions(default_versions()), ExtV::KeyShare(built_key_share())];
    let mid = seq![
        ExtV::SupportedGroups(default_groups()),
        ExtV::EcPointFormats(seq![0u8]),
        ExtV::SignatureAlgorithms(default_sig_algs()),
    ];
    let a = if alpn.len() == 0 {
        Seq::<ExtV>::empty()
    } else {
        seq![ExtV::Alpn(alpn)]
    };
    let rest = mid + a + tail;
    let at = a + tail;
    if alpn.len() == 0 {
        assert(at =~= tail);
    } else {
        assert(at.drop_first() =~= tail);
    }
    if alpn.len() > 0 {
        assert(at[0] == ExtV::Alpn(alpn));
    }
    assert(alpn_of(at) == (if alpn.len() > 0 { Some(alpn) } else { None }));
    assert(sni_of(at) is None);
    assert(real_version_spec(0x0303, at) == TlsVersion::Tls13);
    let r2 = rest.drop_first().drop_first();
    let r1 = rest.drop_first();
    assert(r2.drop_first() =~= at);
    assert(r2[0] == ExtV::SignatureAlgorithms(default_sig_algs()));
    assert(alpn_of(r2) == alpn_of(at));
    assert(sni_of(r2) == sni_of(at));
    assert(real_version_spec(0x0303, r2) == real_version_spec(0x0303, at));
    assert(r1.drop_first() =~= r2);
    assert(r1[0] == ExtV::EcPointFormats(seq![0u8]));
    assert(alpn_of(r1) == alpn_of(at));
    assert(sni_of(r1) == sni_of(at));
    assert(real_version_spec(0x0303, r1) == real_version_spec(0x0303, at));
    assert(rest[0] == ExtV::SupportedGroups(default_groups()));
}

/// What the accessors of the hello a builder stands for give back (and,
/// by [`lemma_build_parse_roundtrip`], of the parsed built bytes): the
/// builder's SNI (when set and non-empty), its ALPN list (when non-empty),
/// its cipher suites, and TLS 1.3 as the real version.
#[verifier::spinoff_prover]
pub proof fn lemma_built_hello_accessors(b: BuilderV)
    ensures
        sni_of(built_hello(b).extensions) == (match b.sni {
            Some(h) => if h.len() > 0 {
                Some(h)
            } else {
                None::<Seq<char>>
            },
            None => None,
        }),
        alpn_of(built_hello(b).extensions) == (if b.alpn.len() > 0 {
            Some(b.alpn)
        } else {
            None
        }),
        real_version_spec(0x0303, built_hello(b).extensions) == TlsVersion::Tls13,
        built_hello(b).cipher_suites == b.cipher_suites,
{
    lemma_rest_accessors(b.alpn);
    let tail = seq![ExtV::SupportedVersions(default_versions()), ExtV::KeyShare(built_key_share())];
    let mid = seq![
        ExtV::SupportedGroups(default_groups()),
        ExtV::EcPointFormats(seq![0u8]),
        ExtV::SignatureAlgorithms(default_sig_algs()),
    ];
    let a = if b.alpn.len() == 0 {
        Seq::<ExtV>::empty()
    } else {
        seq![ExtV::Alpn(b.alpn)]
    };
    let rest = mid + a + tail;
    let exts = built_extensions(b);
    match b.sni {
        Some(h) => {
            assert(exts =~= seq![ExtV::Sni(h)] + rest);
            assert(exts.drop_first() =~= rest);
        },
        None => {
            assert(exts =~= rest);
        },
    }
}

} // verus!
