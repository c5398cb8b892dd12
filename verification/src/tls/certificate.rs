//! Certificate chains: the framing of a TLS `Certificate` message, and the
//! fields shown of each certificate. X.509 decoding itself is done by
//! `x509-parser`.
//!
//! A chain holds at most 10 certificates; a certificate in a handshake
//! message holds at most 16 KiB of DER (64 KiB when handed over as a DER
//! list).

use crate::error::GripError;
use crate::fp::digest::{sha256, sha256_digest};
use crate::tls::bytes::{be16, be24, read_be16, read_be24};
use crate::util::hex::{encode, encode_colon, hex_colon_of, hex_of};
use crate::util::text::{clone_string, dec, dec_chars, push_all, push_str, string_of};
use vstd::prelude::*;
use vstd::slice::slice_subrange;
use x509_parser::certificate::X509Certificate;
use x509_parser::extensions::GeneralName;
use x509_parser::prelude::FromDer;

verus! {

/// `None` when `der` is one DER certificate that `x509-parser` decodes;
/// otherwise the `Debug` text of its error.
pub uninterp spec fn x509_error_text(der: Seq<u8>) -> Option<Seq<char>>;

/// The subject distinguished name of the certificate `der`, as text.
pub uninterp spec fn x509_subject_text(der: Seq<u8>) -> Seq<char>;

/// The issuer distinguished name of the certificate `der`, as text.
pub uninterp spec fn x509_issuer_text(der: Seq<u8>) -> Seq<char>;

/// The not-after time of the certificate `der`, as a Unix timestamp.
pub uninterp spec fn x509_not_after(der: Seq<u8>) -> i64;

/// The not-before time of the certificate `der`, as a Unix timestamp.
pub uninterp spec fn x509_not_before(der: Seq<u8>) -> i64;

/// The subject alternative names of the certificate `der`.
pub uninterp spec fn x509_san_list(der: Seq<u8>) -> Seq<SanV>;

/// The extensions of the certificate `der`: dotted OID and raw value.
pub uninterp spec fn x509_ext_list(der: Seq<u8>) -> Seq<(Seq<char>, Seq<u8>)>;

/// A subject alternative name.
pub enum SanName {
    /// A DNS name.
    Dns(String),
    /// An IP address (its raw bytes).
    Ip(Vec<u8>),
    /// Any other kind of name.
    Other,
}

/// What a subject alternative name holds.
pub enum SanV {
    Dns(Seq<char>),
    Ip(Seq<u8>),
    Other,
}

/// The view of a subject alternative name.
pub open spec fn san_view(n: SanName) -> SanV {
    match n {
        SanName::Dns(s) => SanV::Dns(s@),
        SanName::Ip(b) => SanV::Ip(b@),
        SanName::Other => SanV::Other,
    }
}

/// Whether `x509-parser` decodes `der` (`X509Certificate::from_der`); the
/// `Debug` text of its error when it does not.
#[verifier::external_body]
fn x509_check(der: &[u8]) -> (r: Option<String>)
    ensures
        match r {
            Some(m) => x509_error_text(der@) == Some(m@),
            None => x509_error_text(der@) is None,
        },
{
    match X509Certificate::from_der(der) {
        Ok(_) => None,
        Err(e) => Some(format!("{e:?}")),
    }
}

/// The subject of a decodable certificate (`Display` of its `X509Name`).
#[verifier::external_body]
fn x509_subject(der: &[u8]) -> (r: String)
    requires
        x509_error_text(der@) is None,
    ensures
        r@ == x509_subject_text(der@),
{
    match X509Certificate::from_der(der) {
        Ok((_, c)) => c.subject.to_string(),
        Err(_) => String::new(),
    }
}

/// The issuer of a decodable certificate (`Display` of its `X509Name`).
#[verifier::external_body]
fn x509_issuer(der: &[u8]) -> (r: String)
    requires
        x509_error_text(der@) is None,
    ensures
        r@ == x509_issuer_text(der@),
{
    match X509Certificate::from_der(der) {
        Ok((_, c)) => c.issuer.to_string(),
        Err(_) => String::new(),
    }
}

/// The not-after Unix timestamp of a decodable certificate
/// (`validity().not_after.timestamp()`).
#[verifier::external_body]
fn x509_expiry(der: &[u8]) -> (r: i64)
    requires
        x509_error_text(der@) is None,
    ensures
        r == x509_not_after(der@),
{
    match X509Certificate::from_der(der) {
        Ok((_, c)) => c.validity().not_after.timestamp(),
        Err(_) => 0,
    }
}

/// The not-before Unix timestamp of a decodable certificate
/// (`validity().not_before.timestamp()`).
#[verifier::external_body]
fn x509_start(der: &[u8]) -> (r: i64)
    requires
        x509_error_text(der@) is None,
    ensures
        r == x509_not_before(der@),
{
    match X509Certificate::from_der(der) {
        Ok((_, c)) => c.validity().not_before.timestamp(),
        Err(_) => 0,
    }
}

/// The general names of the subject-alternative-name extension of a
/// decodable certificate (none when it has no such extension, or it is
/// malformed or repeated).
#[verifier::external_body]
fn x509_sans(der: &[u8]) -> (r: Vec<SanName>)
    requires
        x509_error_text(der@) is None,
    ensures
        r@.map_values(|n: SanName| san_view(n)) == x509_san_list(der@),
{
    match X509Certificate::from_der(der) {
        Ok((_, c)) => match c.subject_alternative_name() {
            Ok(Some(ext)) => ext.value.general_names.iter().map(|n| match n {
                GeneralName::DNSName(s) => SanName::Dns(s.to_string()),
                GeneralName::IPAddress(ip) => SanName::Ip(ip.to_vec()),
                _ => SanName::Other,
            }).collect(),
            _ => Vec::new(),
        },
        Err(_) => Vec::new(),
    }
}

/// The extensions of a decodable certificate: `Display` of each OID and
/// its raw value bytes, in order.
#[verifier::external_body]
fn x509_extensions(der: &[u8]) -> (r: Vec<(String, Vec<u8>)>)
    requires
        x509_error_text(der@) is None,
    ensures
        r@.map_values(|e: (String, Vec<u8>)| (e.0@, e.1@)) == x509_ext_list(der@),
{
    match X509Certificate::from_der(der) {
        Ok((_, c)) => c.extensions().iter().map(|e| (e.oid.to_string(), e.value.to_vec())).collect(),
        Err(_) => Vec::new(),
    }
}

/// Information shown of one certificate.
#[derive(Debug, Clone)]
pub struct CertInfo {
    /// Subject, e.g. `CN=example.com, O=Example`.
    pub subject: String,
    /// Issuer.
    pub issuer: String,
    /// Subject alternative names (DNS names and IPs).
    pub sans: Vec<String>,
    /// Not-after (expiry), as a Unix timestamp (UTC).
    pub not_after: i64,
    /// Not-before, as a Unix timestamp (UTC).
    pub not_before: i64,
    /// SHA-256 of the DER bytes, colon-separated lowercase hex.
    pub sha256_fingerprint: String,
    /// Number of embedded signed certificate timestamps.
    pub sct_count: usize,
    /// Whether subject and issuer are the same.
    pub is_self_signed: bool,
}

/// What a certificate's information holds.
pub struct CertInfoV {
    pub subject: Seq<char>,
    pub issuer: Seq<char>,
    pub sans: Seq<Seq<char>>,
    pub not_after: i64,
    pub not_before: i64,
    pub sha256_fingerprint: Seq<char>,
    pub sct_count: nat,
    pub is_self_signed: bool,
}

impl View for CertInfo {
    type V = CertInfoV;

    open spec fn view(&self) -> CertInfoV {
        CertInfoV {
            subject: self.subject@,
            issuer: self.issuer@,
            sans: self.sans@.map_values(|s: String| s@),
            not_after: self.not_after,
            not_before: self.not_before,
            sha256_fingerprint: self.sha256_fingerprint@,
            sct_count: self.sct_count as nat,
            is_self_signed: self.is_self_signed,
        }
    }
}

/// Display text of a subject alternative name, if it is shown: a DNS
/// name as is, a four-byte IP dotted, other IP bytes in hex.
pub open spec fn san_text(n: SanV) -> Option<Seq<char>> {
    match n {
        SanV::Dns(s) => Some(s),
        SanV::Ip(b) => if b.len() == 4 {
            Some(
                dec(b[0] as nat) + seq!['.'] + dec(b[1] as nat) + seq!['.'] + dec(b[2] as nat) + seq!['.'] + dec(
                    b[3] as nat,
                ),
            )
        } else {
            Some(hex_of(b))
        },
        SanV::Other => None,
    }
}

/// The shown names, in order.
pub open spec fn san_texts(names: Seq<SanV>) -> Seq<Seq<char>>
    decreases names.len(),
{
    if names.len() == 0 {
        Seq::empty()
    } else {
        let prev = san_texts(names.drop_last());
        match san_text(names.last()) {
            Some(t) => prev.push(t),
            None => prev,
        }
    }
}

/// The shown names of two lists one after the other are the shown names
/// of the first, then those of the second.
pub proof fn lemma_san_texts_concat(a: Seq<SanV>, b: Seq<SanV>)
    ensures
        san_texts(a + b) == san_texts(a) + san_texts(b),
    decreases b.len(),
{
    if b.len() == 0 {
        assert(a + b =~= a);
        assert(san_texts(a) + Seq::<Seq<char>>::empty() =~= san_texts(a));
    } else {
        let b1 = b.drop_last();
        lemma_san_texts_concat(a, b1);
        assert((a + b).drop_last() =~= a + b1);
        assert((a + b).last() == b.last());
        match san_text(b.last()) {
            Some(t) => {
                assert(san_texts(a) + san_texts(b) =~= (san_texts(a) + san_texts(b1)).push(t));
            },
            None => {},
        }
    }
}

/// Every DNS name of a certificate is shown, verbatim and in its place: a
/// DNS name between any names `x` and `y` appears in the shown list
/// between the shown names of `x` and those of `y`.
pub proof fn lemma_dns_name_shown(x: Seq<SanV>, s: Seq<char>, y: Seq<SanV>)
    ensures
        san_texts(x + seq![SanV::Dns(s)] + y) == san_texts(x) + seq![s] + san_texts(y),
{
    lemma_san_texts_concat(x + seq![SanV::Dns(s)], y);
    lemma_san_texts_concat(x, seq![SanV::Dns(s)]);
    let one = seq![SanV::Dns(s)];
    assert(one.drop_last() =~= Seq::<SanV>::empty());
    assert(one.last() == SanV::Dns(s));
    assert(san_texts(Seq::<SanV>::empty()) == Seq::<Seq<char>>::empty());
    assert(san_text(SanV::Dns(s)) == Some(s));
    assert(san_texts(one) == san_texts(one.drop_last()).push(s));
    assert(san_texts(one) =~= seq![s]);
}

/// A list of DNS names only is shown exactly as it is, name for name.
pub proof fn lemma_dns_names_shown(names: Seq<SanV>)
    requires
        forall|i: int| 0 <= i < names.len() ==> #[trigger] names[i] is Dns,
    ensures
        san_texts(names) == names.map_values(|n: SanV| n->Dns_0),
    decreases names.len(),
{
    if names.len() > 0 {
        let p = names.drop_last();
        assert forall|i: int| 0 <= i < p.len() implies #[trigger] p[i] is Dns by {
            assert(p[i] == names[i]);
        }
        lemma_dns_names_shown(p);
        assert(names.last() is Dns);
        assert(names.map_values(|n: SanV| n->Dns_0) =~= p.map_values(|n: SanV| n->Dns_0).push(names.last()->Dns_0));
    } else {
        assert(names.map_values(|n: SanV| n->Dns_0) =~= Seq::<Seq<char>>::empty());
    }
}

/// OID of the embedded-SCT-list extension.
pub open spec fn sct_oid() -> Seq<char> {
    "1.3.6.1.4.1.11129.2.4.2"@
}

/// Number of length-prefixed entries of the SCT list `v` from `pos`:
/// entries are counted while they fit in `v`, start within the declared
/// list length and are non-empty.
pub open spec fn sct_walk(v: Seq<u8>, pos: int, total: int) -> nat
    decreases v.len() - pos,
{
    if pos < 2 || pos + 2 > v.len() || pos >= 2 + total {
        0
    } else {
        let n = be16(v, pos);
        if n == 0 || pos + 2 + n > v.len() {
            0
        } else {
            1 + sct_walk(v, pos + 2 + n, total)
        }
    }
}

/// SCTs counted in an SCT-list extension value: the entries found, or 1
/// when none can be read.
pub open spec fn sct_value_count(v: Seq<u8>) -> nat {
    if v.len() >= 2 {
        let c = sct_walk(v, 2, be16(v, 0));
        if c > 0 {
            c
        } else {
            1
        }
    } else {
        1
    }
}

/// SCTs of a certificate with extensions `exts`: counted in the first
/// SCT-list extension, 0 without one.
pub open spec fn sct_count_of(exts: Seq<(Seq<char>, Seq<u8>)>) -> nat
    decreases exts.len(),
{
    if exts.len() == 0 {
        0
    } else if exts[0].0 == sct_oid() {
        sct_value_count(exts[0].1)
    } else {
        sct_count_of(exts.drop_first())
    }
}

/// The information of a decodable certificate `der`.
pub open spec fn cert_info_of(der: Seq<u8>) -> CertInfoV {
    CertInfoV {
        subject: x509_subject_text(der),
        issuer: x509_issuer_text(der),
        sans: san_texts(x509_san_list(der)),
        not_after: x509_not_after(der),
        not_before: x509_not_before(der),
        sha256_fingerprint: hex_colon_of(sha256_digest(der)),
        sct_count: sct_count_of(x509_ext_list(der)),
        is_self_signed: x509_subject_text(der) == x509_issuer_text(der),
    }
}

/// Parsing one certificate: its information, or the error message.
pub open spec fn single_cert_spec(der: Seq<u8>) -> Result<CertInfoV, Seq<char>> {
    match x509_error_text(der) {
        Some(m) => Err("x509 parse: "@ + m),
        None => Ok(cert_info_of(der)),
    }
}

fn ipv4_san(b: &Vec<u8>) -> (r: String)
    requires
        b@.len() == 4,
    ensures
        r@ == dec(b@[0] as nat) + seq!['.'] + dec(b@[1] as nat) + seq!['.'] + dec(b@[2] as nat) + seq!['.']
            + dec(b@[3] as nat),
{
    let mut out: Vec<char> = Vec::new();
    push_all(&mut out, &dec_chars(b[0] as u64));
    out.push('.');
    push_all(&mut out, &dec_chars(b[1] as u64));
    out.push('.');
    push_all(&mut out, &dec_chars(b[2] as u64));
    out.push('.');
    push_all(&mut out, &dec_chars(b[3] as u64));
    string_of(&out)
}

/// Display texts of subject alternative names.
pub fn extract_sans(names: &Vec<SanName>) -> (res: Vec<String>)
    ensures
        res@.map_values(|s: String| s@) == san_texts(names@.map_values(|n: SanName| san_view(n))),
{
    let ghost nv = names@.map_values(|n: SanName| san_view(n));
    let mut out: Vec<String> = Vec::new();
    let mut i: usize = 0;
    assert(nv.take(0) =~= Seq::<SanV>::empty());
    while i < names.len()
        invariant
            i <= names@.len(),
            nv == names@.map_values(|n: SanName| san_view(n)),
            out@.map_values(|s: String| s@) == san_texts(nv.take(i as int)),
        decreases names.len() - i,
    {
        assert(nv.take(i + 1).drop_last() =~= nv.take(i as int));
        assert(nv.take(i + 1).last() == san_view(names@[i as int]));
        let ghost prev = out@.map_values(|s: String| s@);
        match &names[i] {
            SanName::Dns(s) => {
                out.push(clone_string(s));
                assert(out@.map_values(|s: String| s@) =~= prev.push(s@));
            },
            SanName::Ip(b) => {
                if b.len() == 4 {
                    out.push(ipv4_san(b));
                } else {
                    out.push(encode(b.as_slice()));
                }
                assert(out@.map_values(|s: String| s@) =~= prev.push(san_text(san_view(names@[i as int]))->0));
            },
            SanName::Other => {},
        }
        i += 1;
    }
    assert(nv.take(names@.len() as int) =~= nv);
    out
}

/// SCTs counted in an SCT-list extension value.
fn count_sct_value(v: &Vec<u8>) -> (r: usize)
    ensures
        r == sct_value_count(v@),
{
    if v.len() < 2 {
        return 1;
    }
    let total = read_be16(v.as_slice(), 0) as usize;
    let mut pos: usize = 2;
    let mut count: usize = 0;
    let mut go = true;
    while go && v.len() - pos >= 2 && pos < 2 + total
        invariant
            2 <= pos <= v@.len(),
            total == be16(v@, 0),
            count <= pos,
            count + (if go {
                sct_walk(v@, pos as int, total as int)
            } else {
                0
            }) == sct_walk(v@, 2, total as int),
        decreases v.len() - pos + (if go { 1int } else { 0int }),
    {
        let n = read_be16(v.as_slice(), pos) as usize;
        if n == 0 || n > v.len() - pos - 2 {
            go = false;
        } else {
            count += 1;
            pos = pos + 2 + n;
        }
    }
    if count > 0 {
        count
    } else {
        1
    }
}

/// SCTs of a certificate with extensions `exts`.
pub fn count_scts(exts: &Vec<(String, Vec<u8>)>) -> (r: usize)
    ensures
        r == sct_count_of(exts@.map_values(|e: (String, Vec<u8>)| (e.0@, e.1@))),
{
    let ghost ev = exts@.map_values(|e: (String, Vec<u8>)| (e.0@, e.1@));
    let mut i: usize = 0;
    assert(ev.skip(0) =~= ev);
    while i < exts.len()
        invariant
            i <= exts@.len(),
            ev == exts@.map_values(|e: (String, Vec<u8>)| (e.0@, e.1@)),
            sct_count_of(ev) == sct_count_of(ev.skip(i as int)),
        decreases exts.len() - i,
    {
        assert(ev.skip(i as int)[0] == (exts@[i as int].0@, exts@[i as int].1@));
        assert(ev.skip(i as int).drop_first() =~= ev.skip(i + 1));
        if crate::fp::lookup::same_text(exts[i].0.as_str(), "1.3.6.1.4.1.11129.2.4.2") {
            return count_sct_value(&exts[i].1);
        }
        i += 1;
    }
    0
}

/// Parse one DER certificate into the information shown of it.
pub fn parse_single_cert(der: &[u8]) -> (res: Result<CertInfo, GripError>)
    ensures
        match res {
            Ok(c) => single_cert_spec(der@) == Ok::<CertInfoV, Seq<char>>(c@),
            Err(e) => e matches GripError::Certificate(m) && single_cert_spec(der@) == Err::<CertInfoV, Seq<char>>(
                m@,
            ),
        },
{
    match x509_check(der) {
        Some(m) => {
            let mut msg: Vec<char> = Vec::new();
            push_str(&mut msg, "x509 parse: ");
            push_str(&mut msg, m.as_str());
            return Err(GripError::Certificate(string_of(&msg)));
        },
        None => {},
    }
    let subject = x509_subject(der);
    let issuer = x509_issuer(der);
    let names = x509_sans(der);
    let sans = extract_sans(&names);
    let not_after = x509_expiry(der);
    let not_before = x509_start(der);
    let digest = sha256(der);
    let sha256_fingerprint = encode_colon(digest.as_slice());
    let exts = x509_extensions(der);
    let sct_count = count_scts(&exts);
    let is_self_signed = crate::fp::lookup::same_text(subject.as_str(), issuer.as_str());
    Ok(
        CertInfo {
            subject,
            issuer,
            sans,
            not_after,
            not_before,
            sha256_fingerprint,
            sct_count,
            is_self_signed,
        },
    )
}

/// A chain of certificates as the server sent them, leaf first.
#[derive(Debug, Clone)]
pub struct CertificateChain(pub Vec<CertInfo>);

/// Most certificates read from one chain.
pub const MAX_CHAIN_LEN: usize = 10;

/// Most DER bytes of one certificate in a `Certificate` message.
pub const MAX_CERT_SIZE: usize = 16384;

/// The views of a list of certificates.
pub open spec fn cert_views(v: Seq<CertInfo>) -> Seq<CertInfoV> {
    v.map_values(|c: CertInfo| c@)
}

/// The body of a `Certificate` message: after the 4-byte handshake header
/// when `buf` starts with type `0x0b`, else all of `buf`.
pub open spec fn cert_body(buf: Seq<u8>) -> Result<Seq<u8>, Seq<char>> {
    if buf.len() > 0 && buf[0] == 0x0b {
        if buf.len() < 4 {
            Err("Certificate handshake too short"@)
        } else if buf.len() < 4 + be24(buf, 1) {
            Err("Certificate length exceeds buffer"@)
        } else {
            Ok(buf.subrange(4, 4 + be24(buf, 1)))
        }
    } else {
        Ok(buf)
    }
}

/// Where the certificate list starts: after a TLS 1.3 request context
/// when the list length found there matches the rest exactly, or when the
/// body's own first three bytes do not match it; else the body itself.
pub open spec fn cert_region(body: Seq<u8>) -> Seq<u8> {
    if body.len() == 0 {
        body
    } else {
        let ctx = body[0] as int;
        if ctx + 4 <= body.len() {
            let after = body.skip(1 + ctx);
            if be24(after, 0) + 3 == after.len() {
                after
            } else if be24(body, 0) + 3 == body.len() {
                body
            } else {
                after
            }
        } else {
            body
        }
    }
}

/// The certificates of the list `r` from `pos` up to `end`, `count`
/// already read: each is a 3-byte length and DER (then, in TLS 1.3, a
/// 2-byte extensions length and extensions, skipped when they fit); at
/// most 10 are read.
pub open spec fn cert_walk(r: Seq<u8>, pos: int, end: int, count: nat) -> Result<Seq<CertInfoV>, Seq<char>>
    decreases r.len() - pos,
{
    if pos < 0 || pos + 3 > end || end > r.len() || count >= 10 {
        Ok(Seq::empty())
    } else {
        let len = be24(r, pos);
        let p = pos + 3;
        let q = p + len;
        if q > end && q > r.len() {
            Err("cert_len "@ + dec(len as nat) + " exceeds buffer"@)
        } else if len > 16384 {
            Err("cert too large: "@ + dec(len as nat))
        } else {
            let q2 = if q + 2 <= end && q < end && q + 2 + be16(r, q) <= end {
                q + 2 + be16(r, q)
            } else {
                q
            };
            match single_cert_spec(r.subrange(p, q)) {
                Err(m) => Err(m),
                Ok(c) => match cert_walk(r, q2, end, count + 1) {
                    Ok(rest) => Ok(seq![c] + rest),
                    Err(m) => Err(m),
                },
            }
        }
    }
}

/// A chain from the result of walking its list: at least one certificate.
pub open spec fn chain_finish(w: Result<Seq<CertInfoV>, Seq<char>>) -> Result<Seq<CertInfoV>, Seq<char>> {
    match w {
        Err(m) => Err(m),
        Ok(certs) => if certs.len() == 0 {
            Err("no certificates in chain"@)
        } else {
            Ok(certs)
        },
    }
}

/// Parsing a TLS `Certificate` message: its certificates, or the error
/// message.
pub open spec fn chain_spec(buf: Seq<u8>) -> Result<Seq<CertInfoV>, Seq<char>> {
    match cert_body(buf) {
        Err(m) => Err(m),
        Ok(body) => {
            let r = cert_region(body);
            if r.len() < 3 {
                Err("Certificate certs_len missing"@)
            } else if be24(r, 0) + 3 > r.len() {
                Err(
                    "Certificate total_len "@ + dec(be24(r, 0) as nat) + " exceeds available "@ + dec(
                        (r.len() - 3) as nat,
                    ),
                )
            } else {
                chain_finish(cert_walk(r, 3, 3 + be24(r, 0), 0))
            }
        },
    }
}

/// Certificates from a DER list, from index `i`.
pub open spec fn der_walk(ders: Seq<Seq<u8>>, i: int) -> Result<Seq<CertInfoV>, Seq<char>>
    decreases ders.len() - i,
{
    if i < 0 || i >= ders.len() {
        Ok(Seq::empty())
    } else if ders[i].len() > 65536 {
        Err("cert too large: "@ + dec(ders[i].len()))
    } else {
        match single_cert_spec(ders[i]) {
            Err(m) => Err(m),
            Ok(c) => match der_walk(ders, i + 1) {
                Ok(rest) => Ok(seq![c] + rest),
                Err(m) => Err(m),
            },
        }
    }
}

/// Building a chain from DER certificates: at least one, at most 10, none
/// above 64 KiB.
pub open spec fn der_list_spec(ders: Seq<Seq<u8>>) -> Result<Seq<CertInfoV>, Seq<char>> {
    if ders.len() == 0 {
        Err("no certificates from TLS handshake"@)
    } else if ders.len() > 10 {
        Err("chain too long: "@ + dec(ders.len()) + " > 10"@)
    } else {
        der_walk(ders, 0)
    }
}

/// A walk's result with `prefix` read before it.
pub open spec fn after_prefix(prefix: Seq<CertInfoV>, r: Result<Seq<CertInfoV>, Seq<char>>) -> Result<
    Seq<CertInfoV>,
    Seq<char>,
> {
    match r {
        Ok(rest) => Ok(prefix + rest),
        Err(m) => Err(m),
    }
}

fn cert_error(parts: &Vec<char>) -> (e: GripError)
    ensures
        e matches GripError::Certificate(m) && m@ == parts@,
{
    GripError::Certificate(string_of(parts))
}

fn cert_error_lit(msg: &str) -> (e: GripError)
    ensures
        e matches GripError::Certificate(m) && m@ == msg@,
{
    let mut v: Vec<char> = Vec::new();
    push_str(&mut v, msg);
    GripError::Certificate(string_of(&v))
}

impl CertificateChain {
    /// Parse a TLS `Certificate` handshake message, with or without its
    /// 4-byte handshake header, in TLS 1.2 or TLS 1.3 layout.
    pub fn parse_tls_certificate(buf: &[u8]) -> (res: Result<CertificateChain, GripError>)
        ensures
            match res {
                Ok(c) => chain_spec(buf@) == Ok::<Seq<CertInfoV>, Seq<char>>(cert_views(c.0@)),
                Err(e) => e matches GripError::Certificate(m) && chain_spec(buf@) == Err::<
                    Seq<CertInfoV>,
                    Seq<char>,
                >(m@),
            },
    {
        let body: &[u8] = if buf.len() > 0 && buf[0] == 0x0b {
            if buf.len() < 4 {
                return Err(cert_error_lit("Certificate handshake too short"));
            }
            let len = read_be24(buf, 1);
            if buf.len() - 4 < len {
                return Err(cert_error_lit("Certificate length exceeds buffer"));
            }
            slice_subrange(buf, 4, 4 + len)
        } else {
            buf
        };
        let r: &[u8] = if body.len() == 0 {
            body
        } else {
            let ctx = body[0] as usize;
            if ctx + 4 <= body.len() {
                let after = slice_subrange(body, 1 + ctx, body.len());
                assert(after@ =~= body@.skip(1 + ctx));
                if read_be24(after, 0) + 3 == after.len() {
                    after
                } else if read_be24(body, 0) + 3 == body.len() {
                    body
                } else {
                    after
                }
            } else {
                body
            }
        };
        assert(r@ == cert_region(body@));
        if r.len() < 3 {
            return Err(cert_error_lit("Certificate certs_len missing"));
        }
        let total = read_be24(r, 0);
        if total > r.len() - 3 {
            let mut msg: Vec<char> = Vec::new();
            push_str(&mut msg, "Certificate total_len ");
            push_all(&mut msg, &dec_chars(total as u64));
            push_str(&mut msg, " exceeds available ");
            push_all(&mut msg, &dec_chars((r.len() - 3) as u64));
            return Err(cert_error(&msg));
        }
        let end = 3 + total;
        let mut certs: Vec<CertInfo> = Vec::new();
        let mut pos: usize = 3;
        while pos <= end && end - pos >= 3 && certs.len() < MAX_CHAIN_LEN
            invariant
                chain_spec(buf@) == chain_finish(cert_walk(r@, 3, end as int, 0)),
                end == 3 + be24(r@, 0),
                end <= r@.len(),
                certs@.len() <= 10,
                cert_walk(r@, 3, end as int, 0) == after_prefix(
                    cert_views(certs@),
                    cert_walk(r@, pos as int, end as int, certs@.len()),
                ),
            decreases r@.len() - pos,
        {
            let len = read_be24(r, pos);
            let p = pos + 3;
            if len > r.len() - p {
                let mut msg: Vec<char> = Vec::new();
                push_str(&mut msg, "cert_len ");
                push_all(&mut msg, &dec_chars(len as u64));
                push_str(&mut msg, " exceeds buffer");
                return Err(cert_error(&msg));
            }
            if len > MAX_CERT_SIZE {
                let mut msg: Vec<char> = Vec::new();
                push_str(&mut msg, "cert too large: ");
                push_all(&mut msg, &dec_chars(len as u64));
                return Err(cert_error(&msg));
            }
            let q = p + len;
            let der = slice_subrange(r, p, q);
            let mut next = q;
            if q < end && end - q >= 2 {
                let ext_len = read_be16(r, q) as usize;
                if ext_len <= end - q - 2 {
                    next = q + 2 + ext_len;
                }
            }
            let info = match parse_single_cert(der) {
                Ok(c) => c,
                Err(e) => {
                    return Err(e);
                },
            };
            let ghost before = cert_views(certs@);
            certs.push(info);
            assert(cert_views(certs@) =~= before.push(info@));
            proof {
                let rest = cert_walk(r@, next as int, end as int, (certs@.len()) as nat);
                match rest {
                    Ok(t) => {
                        assert(before + (seq![info@] + t) =~= cert_views(certs@) + t);
                    },
                    Err(_) => {},
                }
            }
            pos = next;
        }
        if certs.len() == 0 {
            return Err(cert_error_lit("no certificates in chain"));
        }
        assert(cert_views(certs@) + Seq::<CertInfoV>::empty() =~= cert_views(certs@));
        Ok(CertificateChain(certs))
    }

    /// The leaf certificate (first of the chain).
    pub fn leaf(&self) -> (r: Option<&CertInfo>)
        ensures
            match r {
                Some(c) => self.0@.len() > 0 && *c == self.0@[0],
                None => self.0@.len() == 0,
            },
    {
        if self.0.len() == 0 {
            None
        } else {
            Some(&self.0[0])
        }
    }

    /// Build a chain from DER certificates (as a TLS library hands them
    /// over): at least one, at most 10, none above 64 KiB.
    pub fn from_der_list(ders: &Vec<Vec<u8>>) -> (res: Result<CertificateChain, GripError>)
        ensures
            match res {
                Ok(c) => der_list_spec(ders@.map_values(|d: Vec<u8>| d@)) == Ok::<Seq<CertInfoV>, Seq<char>>(
                    cert_views(c.0@),
                ),
                Err(e) => e matches GripError::Certificate(m) && der_list_spec(
                    ders@.map_values(|d: Vec<u8>| d@),
                ) == Err::<Seq<CertInfoV>, Seq<char>>(m@),
            },
    {
        let ghost dv = ders@.map_values(|d: Vec<u8>| d@);
        if ders.len() == 0 {
            return Err(cert_error_lit("no certificates from TLS handshake"));
        }
        if ders.len() > MAX_CHAIN_LEN {
            let mut msg: Vec<char> = Vec::new();
            push_str(&mut msg, "chain too long: ");
            push_all(&mut msg, &dec_chars(ders.len() as u64));
            push_str(&mut msg, " > 10");
            return Err(cert_error(&msg));
        }
        let mut certs: Vec<CertInfo> = Vec::new();
        let mut i: usize = 0;
        while i < ders.len()
            invariant
                i <= ders@.len(),
                dv == ders@.map_values(|d: Vec<u8>| d@),
                der_list_spec(dv) == der_walk(dv, 0),
                certs@.len() == i,
                der_walk(dv, 0) == after_prefix(cert_views(certs@), der_walk(dv, i as int)),
            decreases ders.len() - i,
        {
            assert(dv[i as int] == ders@[i as int]@);
            let der = &ders[i];
            if der.len() > 65536 {
                let mut msg: Vec<char> = Vec::new();
                push_str(&mut msg, "cert too large: ");
                push_all(&mut msg, &dec_chars(der.len() as u64));
                return Err(cert_error(&msg));
            }
            let info = match parse_single_cert(der.as_slice()) {
                Ok(c) => c,
                Err(e) => {
                    return Err(e);
                },
            };
            let ghost before = cert_views(certs@);
            certs.push(info);
            assert(cert_views(certs@) =~= before.push(info@));
            proof {
                match der_walk(dv, i + 1) {
                    Ok(t) => {
                        assert(before + (seq![info@] + t) =~= cert_views(certs@) + t);
                    },
                    Err(_) => {},
                }
            }
            i += 1;
        }
        assert(cert_views(certs@) + Seq::<CertInfoV>::empty() =~= cert_views(certs@));
        Ok(CertificateChain(certs))
    }

    /// Number of certificates.
    pub fn len(&self) -> (r: usize)
        ensures
            r == self.0@.len(),
    {
        self.0.len()
    }

    /// Whether the chain holds no certificate.
    pub fn is_empty(&self) -> (r: bool)
        ensures
            r == (self.0@.len() == 0),
    {
        self.0.len() == 0
    }
}

} // verus!
