//! Small pieces shared by the live and capture pipelines: target parsing,
//! group names, the `--raw` decode of a hello, and the live report.

use crate::cli::args::{any_fp, Cli, Format};
use crate::ui::theme::Palette;
use crate::fp::ja3::{compute_ja3, ja3_hash};
use crate::fp::ja4::{compute_ja4, ja4_ready, ja4_string};
use crate::fp::ja4s::{compute_ja4s, ja4s_string};
use crate::fp::lookup::{lookup, lookup_spec};
use crate::net::probe::ProbeResult;
use crate::output::model::{CertSummary, Fingerprints, LiveReport, NegotiatedInfo, RawHex, VerboseInfo};
use crate::tls::certificate::{CertInfo, CertInfoV};
use crate::tls::cipher::{cipher_name, name};
use crate::tls::client_hello::{sni_of, ClientHelloV};
use crate::tls::extensions::{exts_view, ext_type_of, ExtV, Extension};
use crate::tls::grease::{grease, is_grease};
use crate::tls::version::{real_version_spec, version_of, version_text, TlsVersion};
use crate::util::hex::{encode, hex_of};
use crate::util::ip::{ip_literal, is_ip_literal};
use crate::util::text::{chars_of, clone_string, dec, dec_chars, hex4, push_all, push_hex4, push_str, string_of};
use crate::util::time::{expiry_text, format_expiry};
use crate::output::model::{clone_opt, opt_string, UNCLASSIFIED};
use vstd::prelude::*;

verus! {

/// Value of a run of ASCII digits.
pub open spec fn digits_value(s: Seq<char>) -> nat
    decreases s.len(),
{
    if s.len() == 0 {
        0
    } else {
        digits_value(s.drop_last()) * 10 + ((s.last() as u32) - ('0' as u32)) as nat
    }
}

/// Whether every character is an ASCII digit.
pub open spec fn all_digits(s: Seq<char>) -> bool {
    forall|i: int| 0 <= i < s.len() ==> '0' <= #[trigger] s[i] && s[i] <= '9'
}

/// What `str::parse::<u16>` accepts: an optional `+`, then one or more
/// digits, of value at most 65535.
pub open spec fn port_value(s: Seq<char>) -> Option<u16> {
    let d = if s.len() > 0 && s[0] == '+' {
        s.drop_first()
    } else {
        s
    };
    if d.len() > 0 && all_digits(d) && digits_value(d) <= 65535 {
        Some(digits_value(d) as u16)
    } else {
        None
    }
}

/// The last `:` of `s`, if any.
pub open spec fn last_colon(s: Seq<char>) -> Option<int>
    decreases s.len(),
{
    if s.len() == 0 {
        None
    } else if s.last() == ':' {
        Some(s.len() - 1)
    } else {
        last_colon(s.drop_last())
    }
}

/// `host:port` split of a target: at the last `:`, when the part after it
/// is a port and the part before it is non-empty and holds no `:` (a bare
/// IPv6 literal is not split); otherwise the whole target and the default
/// port.
pub open spec fn split_target(t: Seq<char>, default_port: u16) -> (Seq<char>, u16) {
    match last_colon(t) {
        Some(i) => {
            let host = t.take(i);
            match port_value(t.skip(i + 1)) {
                Some(p) => if host.len() > 0 && !host.contains(':') {
                    (host, p)
                } else {
                    (t, default_port)
                },
                None => (t, default_port),
            }
        },
        None => (t, default_port),
    }
}

proof fn lemma_last_colon(s: Seq<char>)
    ensures
        match last_colon(s) {
            Some(i) => 0 <= i < s.len() && s[i] == ':' && forall|j: int| i < j < s.len() ==> s[j] != ':',
            None => forall|j: int| 0 <= j < s.len() ==> s[j] != ':',
        },
    decreases s.len(),
{
    if s.len() > 0 && s.last() != ':' {
        lemma_last_colon(s.drop_last());
        assert forall|j: int| 0 <= j < s.len() - 1 implies s[j] == s.drop_last()[j] by {}
    }
}

fn parse_port(s: &Vec<char>, from: usize) -> (r: Option<u16>)
    requires
        from <= s@.len(),
    ensures
        r == port_value(s@.skip(from as int)),
{
    let ghost t = s@.skip(from as int);
    let mut i = from;
    if i < s.len() && s[i] == '+' {
        i += 1;
    }
    let ghost d = s@.skip(i as int);
    assert(d =~= (if t.len() > 0 && t[0] == '+' { t.drop_first() } else { t }));
    if i >= s.len() {
        return None;
    }
    let mut v: u32 = 0;
    let start = i;
    assert(d.take(0) =~= Seq::<char>::empty());
    assert(port_value(t) == (if d.len() > 0 && all_digits(d) && digits_value(d) <= 65535 {
        Some(digits_value(d) as u16)
    } else {
        None
    }));
    while i < s.len()
        invariant
            start <= i <= s@.len(),
            start < s@.len(),
            d == s@.skip(start as int),
            port_value(s@.skip(from as int)) == (if d.len() > 0 && all_digits(d) && digits_value(d) <= 65535 {
                Some(digits_value(d) as u16)
            } else {
                None
            }),
            all_digits(d.take(i - start)),
            v == digits_value(d.take(i - start)),
            v <= 65535,
        decreases s.len() - i,
    {
        let c = s[i];
        if !('0' <= c && c <= '9') {
            assert(d[i - start] == c);
            assert(!all_digits(d));
            return None;
        }
        assert(d.take(i + 1 - start).drop_last() =~= d.take(i - start));
        let nv = v * 10 + ((c as u32) - ('0' as u32));
        if nv > 65535 {
            proof {
                if all_digits(d) {
                    lemma_digits_grow(d, (i + 1 - start) as int);
                }
            }
            return None;
        }
        v = nv;
        i += 1;
    }
    assert(d.take(i - start) =~= d);
    Some(v as u16)
}

proof fn lemma_digits_grow(d: Seq<char>, k: int)
    requires
        0 <= k <= d.len(),
        all_digits(d),
    ensures
        digits_value(d.take(k)) <= digits_value(d),
    decreases d.len() - k,
{
    if k < d.len() {
        lemma_digits_grow(d, k + 1);
        assert(d.take(k + 1).drop_last() =~= d.take(k));
    } else {
        assert(d.take(k) =~= d);
    }
}

/// Split a `host:port` target, falling back to `default_port`.
pub fn parse_target_and_port(target: &str, default_port: u16) -> (r: (String, u16))
    ensures
        (r.0@, r.1) == split_target(target@, default_port),
{
    let cs = chars_of(target);
    proof {
        lemma_last_colon(target@);
    }
    let mut i = cs.len();
    while i > 0 && cs[i - 1] != ':'
        invariant
            i <= cs@.len(),
            cs@ == target@,
            forall|j: int| i <= j < cs@.len() ==> cs@[j] != ':',
        decreases i,
    {
        i -= 1;
    }
    if i == 0 {
        assert(last_colon(target@) is None) by {
            if last_colon(target@) is Some {
                let k = last_colon(target@)->0;
                assert(cs@[k] == ':');
            }
        }
        return (string_of(&cs), default_port);
    }
    let idx = i - 1;
    assert(last_colon(target@) == Some(idx as int)) by {
        match last_colon(target@) {
            Some(k) => {
                if k < idx {
                    assert(target@[idx as int] == ':');
                } else if k > idx {
                    assert(cs@[k] != ':');
                }
            },
            None => {
                assert(cs@[idx as int] == ':');
            },
        }
    }
    let port = parse_port(&cs, idx + 1);
    match port {
        Some(p) => {
            let mut host: Vec<char> = Vec::new();
            let mut k: usize = 0;
            let mut colon = false;
            while k < idx
                invariant
                    k <= idx < cs@.len(),
                    host@ == cs@.take(k as int),
                    colon == cs@.take(k as int).contains(':'),
                decreases idx - k,
            {
                let ghost before = cs@.take(k as int);
                if cs[k] == ':' {
                    colon = true;
                }
                host.push(cs[k]);
                k += 1;
                assert(cs@.take(k as int) =~= before.push(cs@[k - 1]));
                assert(cs@.take(k as int).contains(':') == (before.contains(':') || cs@[k - 1] == ':')) by {
                    if cs@[k - 1] == ':' {
                        assert(cs@.take(k as int)[k - 1] == ':');
                    }
                    if before.contains(':') {
                        let j = choose|j: int| 0 <= j < before.len() && before[j] == ':';
                        assert(cs@.take(k as int)[j] == ':');
                    }
                    if cs@.take(k as int).contains(':') {
                        let j = choose|j: int| 0 <= j < k && cs@.take(k as int)[j] == ':';
                        if j < k - 1 {
                            assert(before[j] == ':');
                        }
                    }
                }
            }
            if idx > 0 && !colon {
                (string_of(&host), p)
            } else {
                (string_of(&cs), default_port)
            }
        },
        None => (string_of(&cs), default_port),
    }
}

/// Display name of a TLS named group.
pub open spec fn group_text(g: u16) -> Seq<char> {
    if g == 0x001d {
        "X25519"@
    } else if g == 0x0017 {
        "P-256"@
    } else if g == 0x0018 {
        "P-384"@
    } else if g == 0x0019 {
        "P-521"@
    } else {
        "0x"@ + hex4(g)
    }
}

fn lit(s: &str) -> (r: String)
    ensures
        r@ == s@,
{
    string_of(&chars_of(s))
}

/// Map a TLS named-group id to its display name.
pub fn group_name(g: u16) -> (r: String)
    ensures
        r@ == group_text(g),
{
    if g == 0x001d {
        lit("X25519")
    } else if g == 0x0017 {
        lit("P-256")
    } else if g == 0x0018 {
        lit("P-384")
    } else if g == 0x0019 {
        lit("P-521")
    } else {
        let mut out: Vec<char> = Vec::new();
        push_str(&mut out, "0x");
        push_hex4(&mut out, g);
        string_of(&out)
    }
}

/// The first entry of the first non-empty `supported_groups` extension.
pub open spec fn first_supported_group(exts: Seq<ExtV>) -> Option<u16>
    decreases exts.len(),
{
    if exts.len() == 0 {
        None
    } else {
        match exts[0] {
            ExtV::SupportedGroups(v) => if v.len() > 0 {
                Some(v[0])
            } else {
                first_supported_group(exts.drop_first())
            },
            _ => first_supported_group(exts.drop_first()),
        }
    }
}

/// The group of the first entry of the first non-empty `key_share`
/// extension.
pub open spec fn first_key_share_group(exts: Seq<ExtV>) -> Option<u16>
    decreases exts.len(),
{
    if exts.len() == 0 {
        None
    } else {
        match exts[0] {
            ExtV::KeyShare(k) => if k.len() > 0 {
                Some(k[0].group)
            } else {
                first_key_share_group(exts.drop_first())
            },
            _ => first_key_share_group(exts.drop_first()),
        }
    }
}

/// The first named group of a list of extensions: `supported_groups` is
/// preferred over `key_share` wherever either stands.
pub open spec fn first_group_of(exts: Seq<ExtV>) -> Option<u16> {
    match first_supported_group(exts) {
        Some(g) => Some(g),
        None => first_key_share_group(exts),
    }
}

/// First named group from a list of extensions, if any: the first entry
/// of a non-empty `supported_groups`, else of a non-empty `key_share`.
pub fn first_group(exts: &[Extension]) -> (r: Option<u16>)
    ensures
        r == first_group_of(exts_view(exts@)),
{
    let ghost ev = exts_view(exts@);
    let mut i: usize = 0;
    assert(ev.skip(0) =~= ev);
    while i < exts.len()
        invariant
            i <= exts@.len(),
            ev == exts_view(exts@),
            first_supported_group(ev) == first_supported_group(ev.skip(i as int)),
        decreases exts.len() - i,
    {
        assert(ev.skip(i as int).drop_first() =~= ev.skip(i + 1));
        match &exts[i] {
            Extension::SupportedGroups(v) => {
                if v.len() > 0 {
                    return Some(v[0]);
                }
            },
            _ => {},
        }
        i += 1;
    }
    let mut j: usize = 0;
    while j < exts.len()
        invariant
            j <= exts@.len(),
            ev == exts_view(exts@),
            first_supported_group(ev) is None,
            first_key_share_group(ev) == first_key_share_group(ev.skip(j as int)),
        decreases exts.len() - j,
    {
        assert(ev.skip(j as int).drop_first() =~= ev.skip(j + 1));
        match &exts[j] {
            Extension::KeyShare(k) => {
                if k.len() > 0 {
                    return Some(k[0].group);
                }
            },
            _ => {},
        }
        j += 1;
    }
    None
}

/// `0xXXXX` for each value, space separated.
pub open spec fn hex_words(vals: Seq<u16>) -> Seq<char>
    decreases vals.len(),
{
    if vals.len() == 0 {
        Seq::empty()
    } else if vals.len() == 1 {
        "0x"@ + hex4(vals[0])
    } else {
        hex_words(vals.drop_last()) + seq![' '] + "0x"@ + hex4(vals.last())
    }
}

fn push_hex_words(out: &mut Vec<char>, vals: &Vec<u16>)
    ensures
        final(out)@ == old(out)@ + hex_words(vals@),
{
    let ghost start = out@;
    let mut i: usize = 0;
    assert(vals@.take(0) =~= Seq::<u16>::empty());
    while i < vals.len()
        invariant
            i <= vals@.len(),
            out@ == start + hex_words(vals@.take(i as int)),
        decreases vals.len() - i,
    {
        let ghost before = out@;
        if i > 0 {
            out.push(' ');
        }
        push_str(out, "0x");
        push_hex4(out, vals[i]);
        assert(vals@.take(i + 1).drop_last() =~= vals@.take(i as int));
        if i == 0 {
            assert(out@ =~= start + hex_words(vals@.take(1)));
        } else {
            assert(out@ =~= start + hex_words(vals@.take(i + 1)));
        }
        i += 1;
    }
    assert(vals@.take(vals@.len() as int) =~= vals@);
}

/// The GREASE values of a list, in order.
pub open spec fn only_grease(s: Seq<u16>) -> Seq<u16> {
    s.filter(|v: u16| grease(v))
}

fn grease_values(vals: &Vec<u16>) -> (r: Vec<u16>)
    ensures
        r@ == only_grease(vals@),
{
    let mut out: Vec<u16> = Vec::new();
    let mut i: usize = 0;
    assert(vals@.take(0).filter(|v: u16| grease(v)) =~= Seq::<u16>::empty());
    while i < vals.len()
        invariant
            i <= vals@.len(),
            out@ == vals@.take(i as int).filter(|v: u16| grease(v)),
        decreases vals.len() - i,
    {
        proof {
            assert(vals@.take(i + 1).drop_last() =~= vals@.take(i as int));
            reveal_with_fuel(Seq::<u16>::filter, 1);
        }
        if is_grease(vals[i]) {
            out.push(vals[i]);
        }
        i += 1;
    }
    assert(vals@.take(vals@.len() as int) =~= vals@);
    out
}

/// The extension types of a list of extensions, in order.
pub open spec fn ext_types_of(exts: Seq<ExtV>) -> Seq<u16> {
    exts.map_values(|e: ExtV| ext_type_of(e))
}

/// The `--raw` decode of a `ClientHello`, one field per line.
pub open spec fn describe_text(ch: ClientHelloV) -> Seq<char> {
    let g = only_grease(ch.cipher_suites);
    "content type: 0x16 handshake\nlegacy version: 0x"@ + hex4(ch.legacy_version)
        + "\nhandshake type: 0x01 client hello\nreal version: "@ + version_text(
        real_version_spec(ch.legacy_version, ch.extensions),
    ) + "\nsession id: "@ + dec(ch.session_id.len()) + " bytes\ncipher suites: "@ + hex_words(ch.cipher_suites)
        + "\nextensions: "@ + hex_words(ext_types_of(ch.extensions)) + "\ngrease: "@ + (if g.len() == 0 {
        "none"@
    } else {
        hex_words(g)
    })
}

/// Field-by-field decode of a `ClientHello` for `--raw`.
pub fn describe_client_hello(ch: &crate::tls::ClientHello) -> (r: String)
    ensures
        r@ == describe_text(ch@),
{
    let mut out: Vec<char> = Vec::new();
    push_str(&mut out, "content type: 0x16 handshake\nlegacy version: 0x");
    push_hex4(&mut out, ch.legacy_version);
    push_str(&mut out, "\nhandshake type: 0x01 client hello\nreal version: ");
    let v = ch.real_version().name();
    push_str(&mut out, v.as_str());
    push_str(&mut out, "\nsession id: ");
    push_all(&mut out, &dec_chars(ch.session_id.len() as u64));
    push_str(&mut out, " bytes\ncipher suites: ");
    push_hex_words(&mut out, &ch.cipher_suites);
    push_str(&mut out, "\nextensions: ");
    let mut types: Vec<u16> = Vec::new();
    let mut i: usize = 0;
    while i < ch.extensions.len()
        invariant
            i <= ch.extensions@.len(),
            types@ == ext_types_of(exts_view(ch.extensions@)).take(i as int),
        decreases ch.extensions.len() - i,
    {
        types.push(ch.extensions[i].ext_type());
        i += 1;
        assert(types@ =~= ext_types_of(exts_view(ch.extensions@)).take(i as int));
    }
    assert(types@ =~= ext_types_of(exts_view(ch.extensions@)));
    push_hex_words(&mut out, &types);
    push_str(&mut out, "\ngrease: ");
    let g = grease_values(&ch.cipher_suites);
    if g.len() == 0 {
        push_str(&mut out, "none");
    } else {
        push_hex_words(&mut out, &g);
    }
    assert(out@ =~= describe_text(ch@));
    string_of(&out)
}

/// Copies of a list of strings.
pub fn clone_strings(v: &Vec<String>) -> (r: Vec<String>)
    ensures
        r@.map_values(|s: String| s@) == v@.map_values(|s: String| s@),
{
    let mut out: Vec<String> = Vec::new();
    let mut i: usize = 0;
    while i < v.len()
        invariant
            i <= v@.len(),
            out@.map_values(|s: String| s@) == v@.take(i as int).map_values(|s: String| s@),
        decreases v.len() - i,
    {
        let ghost before = out@;
        let c = clone_string(&v[i]);
        out.push(c);
        assert(out@ =~= before.push(c));
        assert(v@.take(i + 1) =~= v@.take(i as int).push(v@[i as int]));
        assert(out@.map_values(|s: String| s@) =~= before.map_values(|s: String| s@).push(c@));
        assert(v@.take(i + 1).map_values(|s: String| s@) =~= v@.take(i as int).map_values(|s: String| s@).push(
            v@[i as int]@,
        ));
        i += 1;
    }
    assert(v@.take(v@.len() as int) =~= v@);
    out
}

/// The certificate-transparency note of a summary.
pub open spec fn ct_text(n: nat) -> Seq<char> {
    if n == 1 {
        "1 sct embedded"@
    } else if n > 0 {
        dec(n) + " scts embedded"@
    } else {
        "none"@
    }
}

/// Whether `s` summarises certificate `c` as seen at `now`.
pub open spec fn summarises(s: CertSummary, c: CertInfoV, now: i64) -> bool {
    &&& opt_string(s.subject) == Some(c.subject)
    &&& opt_string(s.issuer) == Some(c.issuer)
    &&& s.sans@.map_values(|x: String| x@) == c.sans
    &&& opt_string(s.expires) == Some(expiry_text(c.not_after, now))
    &&& opt_string(s.sha256) == Some(c.sha256_fingerprint)
    &&& opt_string(s.ct_logs) == Some(ct_text(c.sct_count))
}

/// Flatten a certificate into its display summary, with the expiry seen
/// at `now` (Unix seconds).
pub fn summarise_cert(c: &CertInfo, now: i64) -> (r: CertSummary)
    ensures
        summarises(r, c@, now),
{
    let ct = if c.sct_count == 1 {
        lit("1 sct embedded")
    } else if c.sct_count > 0 {
        let mut out: Vec<char> = Vec::new();
        push_all(&mut out, &dec_chars(c.sct_count as u64));
        push_str(&mut out, " scts embedded");
        string_of(&out)
    } else {
        lit("none")
    };
    CertSummary {
        subject: Some(clone_string(&c.subject)),
        issuer: Some(clone_string(&c.issuer)),
        sans: clone_strings(&c.sans),
        expires: Some(format_expiry(c.not_after, now)),
        sha256: Some(clone_string(&c.sha256_fingerprint)),
        ct_logs: Some(ct),
    }
}

/// The versions listed by the first `supported_versions` extension.
pub open spec fn first_versions(exts: Seq<ExtV>) -> Option<Seq<u16>>
    decreases exts.len(),
{
    if exts.len() == 0 {
        None
    } else {
        match exts[0] {
            ExtV::SupportedVersions(v) => Some(v),
            _ => first_versions(exts.drop_first()),
        }
    }
}

/// Display names of the versions a client offered.
pub open spec fn offered_texts(exts: Seq<ExtV>) -> Seq<Seq<char>> {
    match first_versions(exts) {
        Some(v) => v.map_values(|x: u16| version_text(version_of(x))),
        None => Seq::empty(),
    }
}

fn offered_versions(exts: &Vec<Extension>) -> (r: Vec<String>)
    ensures
        r@.map_values(|s: String| s@) == offered_texts(exts_view(exts@)),
{
    let ghost ev = exts_view(exts@);
    let mut i: usize = 0;
    assert(ev.skip(0) =~= ev);
    while i < exts.len()
        invariant
            i <= exts@.len(),
            ev == exts_view(exts@),
            first_versions(ev) == first_versions(ev.skip(i as int)),
        decreases exts.len() - i,
    {
        assert(ev.skip(i as int).drop_first() =~= ev.skip(i + 1));
        if let Extension::SupportedVersions(v) = &exts[i] {
            let mut out: Vec<String> = Vec::new();
            let mut k: usize = 0;
            while k < v.len()
                invariant
                    k <= v@.len(),
                    out@.map_values(|s: String| s@) == v@.take(k as int).map_values(
                        |x: u16| version_text(version_of(x)),
                    ),
                decreases v.len() - k,
            {
                let ghost before = out@;
                let t = TlsVersion::from_u16(v[k]).name();
                out.push(t);
                assert(out@ =~= before.push(t));
                assert(v@.take(k + 1) =~= v@.take(k as int).push(v@[k as int]));
                assert(out@.map_values(|s: String| s@) =~= before.map_values(|s: String| s@).push(t@));
                assert(v@.take(k + 1).map_values(|x: u16| version_text(version_of(x))) =~= v@.take(
                    k as int,
                ).map_values(|x: u16| version_text(version_of(x))).push(version_text(version_of(v@[k as int]))));
                k += 1;
            }
            assert(v@.take(v@.len() as int) =~= v@);
            return out;
        }
        i += 1;
    }
    let out: Vec<String> = Vec::new();
    assert(out@.map_values(|s: String| s@) =~= Seq::<Seq<char>>::empty());
    out
}

/// The key-exchange group shown: from the `ServerHello`, else from the
/// `ClientHello`.
pub open spec fn key_exchange_of(sh_exts: Seq<ExtV>, ch_exts: Seq<ExtV>) -> Option<Seq<char>> {
    match first_group_of(sh_exts) {
        Some(g) => Some(group_text(g)),
        None => match first_group_of(ch_exts) {
            Some(g) => Some(group_text(g)),
            None => None,
        },
    }
}

/// The cipher-suite name shown: its IANA name, or `unknown`.
pub open spec fn cipher_text(id: u16) -> Seq<char> {
    match cipher_name(id) {
        Some(n) => n,
        None => "unknown"@,
    }
}

/// Whether `n` shows what probe `p` negotiated.
pub open spec fn negotiated_ok(n: NegotiatedInfo, p: ProbeResult) -> bool {
    let sh = p.server_hello@;
    let ch = p.client_hello@;
    &&& n.tls_version@ == version_text(real_version_spec(sh.legacy_version, sh.extensions))
    &&& n.offered_versions@.map_values(|s: String| s@) == offered_texts(ch.extensions)
    &&& n.cipher_suite@ == cipher_text(sh.cipher_suite)
    &&& n.cipher_hex@ == "0x"@ + hex4(sh.cipher_suite)
    &&& opt_string(n.key_exchange) == key_exchange_of(sh.extensions, ch.extensions)
    &&& opt_string(n.alpn) == opt_string(p.negotiated_alpn)
    &&& opt_string(n.sni) == sni_of(ch.extensions)
    &&& n.sni_is_ip == (sni_of(ch.extensions) matches Some(s) && ip_literal(s))
}

/// What was negotiated in a completed probe.
pub fn build_negotiated(probe: &ProbeResult) -> (r: NegotiatedInfo)
    ensures
        negotiated_ok(r, *probe),
{
    let sh = &probe.server_hello;
    let ch = &probe.client_hello;
    let tls_version = sh.real_version().name();
    let offered = offered_versions(&ch.extensions);
    let cipher_suite = match name(sh.cipher_suite) {
        Some(n) => lit(n),
        None => lit("unknown"),
    };
    let mut hex: Vec<char> = Vec::new();
    push_str(&mut hex, "0x");
    push_hex4(&mut hex, sh.cipher_suite);
    let key_exchange = match first_group(sh.extensions.as_slice()) {
        Some(g) => Some(group_name(g)),
        None => match first_group(ch.extensions.as_slice()) {
            Some(g) => Some(group_name(g)),
            None => None,
        },
    };
    let (sni, sni_is_ip) = match ch.sni() {
        Some(s) => (Some(lit(s)), is_ip_literal(s)),
        None => (None, false),
    };
    NegotiatedInfo {
        tls_version,
        offered_versions: offered,
        cipher_suite,
        cipher_hex: string_of(&hex),
        key_exchange,
        alpn: clone_opt(&probe.negotiated_alpn),
        sni,
        sni_is_ip,
    }
}

/// How many cipher suites are GREASE values.
pub open spec fn grease_count(s: Seq<u16>) -> nat {
    only_grease(s).len()
}

/// The CT note of the leaf when the whole chain is shown: the leaf's note
/// (or `—`) and the number of intermediates.
pub open spec fn chain_ct_text(leaf_ct: Option<Seq<char>>, chain_len: nat) -> Seq<char> {
    (match leaf_ct {
        Some(t) => t,
        None => "—"@,
    }) + " + "@ + dec((chain_len - 1) as nat) + " intermediates"@
}

/// The live report of a probe: what was negotiated, the certificate
/// summaries, the fingerprints the options ask for (JA4, when asked for,
/// needs the probe's hello to allow it), the known-client lookup, and the raw and verbose
/// extras; `resolved_ips` and `now` come from the caller.
pub fn build_live_report(
    cli: &Cli,
    endpoint: String,
    probe: &ProbeResult,
    handshake_ms: u128,
    verbose: bool,
    resolved_ips: Vec<String>,
    now: i64,
) -> (r: LiveReport)
    requires
        (cli.all_fp || cli.ja4 || !any_fp(*cli)) ==> ja4_ready(probe.client_hello@),
    ensures
        r.target@ == endpoint@,
        negotiated_ok(r.negotiated, *probe),
        opt_string(r.fingerprints.ja3) == (if cli.all_fp || cli.ja3 || !any_fp(*cli) {
            Some(ja3_hash(probe.client_hello@))
        } else {
            None
        }),
        opt_string(r.fingerprints.ja4) == (if cli.all_fp || cli.ja4 || !any_fp(*cli) {
            Some(ja4_string(probe.client_hello@))
        } else {
            None
        }),
        opt_string(r.fingerprints.ja4s) == (if cli.all_fp || cli.ja4s || !any_fp(*cli) {
            Some(ja4s_string(probe.server_hello@))
        } else {
            None
        }),
        opt_string(r.fingerprints.lookup) == (if cli.lookup {
            match lookup_spec(opt_string(r.fingerprints.ja4), opt_string(r.fingerprints.ja3)) {
                Some(n) => Some(n),
                None => Some(UNCLASSIFIED@),
            }
        } else {
            None
        }),
        match probe.cert_chain {
            Some(c) => match r.certificate {
                Some(s) => c.0@.len() > 0 && {
                    let base = summarises(s, c.0@[0]@, now);
                    if cli.cert_chain && c.0@.len() > 1 {
                        &&& opt_string(s.subject) == Some(c.0@[0]@.subject)
                        &&& opt_string(s.ct_logs) == Some(chain_ct_text(Some(ct_text(c.0@[0]@.sct_count)), c.0@.len()))
                    } else {
                        base
                    }
                },
                None => c.0@.len() == 0,
            },
            None => r.certificate is None,
        },
        match r.cert_chain {
            Some(v) => cli.cert_chain && (probe.cert_chain matches Some(c) && v@.len() == c.0@.len() && forall|i: int|
                0 <= i < v@.len() ==> summarises(#[trigger] v@[i], c.0@[i]@, now)),
            None => !(cli.cert_chain && probe.cert_chain is Some),
        },
        match r.raw {
            Some(x) => cli.raw && x.client_hello_hex@ == hex_of(probe.client_hello_raw@) && x.server_hello_hex@
                == hex_of(probe.server_hello_raw@) && x.client_hello_parsed@ == describe_text(probe.client_hello@),
            None => !cli.raw,
        },
        match r.verbose_info {
            Some(v) => verbose && v.handshake_ms == handshake_ms && v.bytes_sent == probe.client_hello_raw@.len()
                && v.bytes_received == probe.server_hello_raw@.len() && v.resolved_ips@ == resolved_ips@
                && v.grease_filtered == grease_count(probe.client_hello.cipher_suites@),
            None => !verbose,
        },
{
    let negotiated = build_negotiated(probe);
    let mut certificate = match &probe.cert_chain {
        Some(c) => match c.leaf() {
            Some(l) => Some(summarise_cert(l, now)),
            None => None,
        },
        None => None,
    };
    let ja3 = if cli.show_ja3(true) {
        Some(compute_ja3(&probe.client_hello))
    } else {
        None
    };
    let ja4 = if cli.show_ja4(true) {
        Some(compute_ja4(&probe.client_hello).0)
    } else {
        None
    };
    let ja4s = if cli.show_ja4s(true) {
        Some(compute_ja4s(&probe.server_hello).0)
    } else {
        None
    };
    let found = if cli.lookup {
        let j4: Option<&str> = match &ja4 {
            Some(s) => Some(s.as_str()),
            None => None,
        };
        let j3: Option<&str> = match &ja3 {
            Some(s) => Some(s.as_str()),
            None => None,
        };
        match lookup(j4, j3) {
            Some(n) => Some(lit(n)),
            None => Some(lit(UNCLASSIFIED)),
        }
    } else {
        None
    };
    let cert_chain = if cli.cert_chain {
        match &probe.cert_chain {
            Some(c) => {
                let mut all: Vec<CertSummary> = Vec::new();
                let mut i: usize = 0;
                while i < c.0.len()
                    invariant
                        i <= c.0@.len(),
                        all@.len() == i,
                        forall|k: int| 0 <= k < i ==> summarises(#[trigger] all@[k], c.0@[k]@, now),
                    decreases c.0.len() - i,
                {
                    all.push(summarise_cert(&c.0[i], now));
                    i += 1;
                }
                Some(all)
            },
            None => None,
        }
    } else {
        None
    };
    let verbose_info = if verbose {
        let g = grease_values(&probe.client_hello.cipher_suites);
        Some(
            VerboseInfo {
                handshake_ms,
                bytes_sent: probe.client_hello_raw.len(),
                bytes_received: probe.server_hello_raw.len(),
                resolved_ips,
                grease_filtered: g.len(),
            },
        )
    } else {
        None
    };
    let raw = if cli.raw {
        Some(
            RawHex {
                client_hello_hex: encode(probe.client_hello_raw.as_slice()),
                server_hello_hex: encode(probe.server_hello_raw.as_slice()),
                client_hello_parsed: describe_client_hello(&probe.client_hello),
            },
        )
    } else {
        None
    };
    if cli.cert_chain {
        if let Some(chain) = &probe.cert_chain {
            if chain.len() > 1 {
                if let Some(cert) = certificate {
                    let mut t: Vec<char> = Vec::new();
                    match &cert.ct_logs {
                        Some(x) => push_str(&mut t, x.as_str()),
                        None => push_str(&mut t, "—"),
                    }
                    push_str(&mut t, " + ");
                    push_all(&mut t, &dec_chars((chain.len() - 1) as u64));
                    push_str(&mut t, " intermediates");
                    certificate = Some(CertSummary { ct_logs: Some(string_of(&t)), ..cert });
                }
            }
        }
    }
    LiveReport {
        target: endpoint,
        negotiated,
        certificate,
        cert_chain,
        fingerprints: Fingerprints { ja3, ja4, ja4s, lookup: found },
        raw,
        verbose_info,
    }
}

/// The one value `--quiet` prints in live mode: the first shown of JA4,
/// JA3, JA4S (in the order the options ask), else JA4, else JA3, else
/// nothing.
pub open spec fn quiet_pick(f: Fingerprints, show_ja3: bool, show_ja4: bool) -> Seq<char> {
    let pick = if show_ja4 {
        opt_string(f.ja4)
    } else if show_ja3 {
        opt_string(f.ja3)
    } else {
        opt_string(f.ja4s)
    };
    match pick {
        Some(v) => v,
        None => match opt_string(f.ja4) {
            Some(v) => v,
            None => match opt_string(f.ja3) {
                Some(v) => v,
                None => Seq::empty(),
            },
        },
    }
}

/// The value `--quiet` prints for a live report.
pub fn live_quiet_value(cli: &Cli, f: &Fingerprints) -> (r: String)
    ensures
        r@ == quiet_pick(*f, cli.all_fp || cli.ja3 || !any_fp(*cli), cli.all_fp || cli.ja4 || !any_fp(*cli)),
{
    let show_ja3 = cli.show_ja3(true);
    let show_ja4 = cli.show_ja4(true);
    let picked: Option<String> = if show_ja4 {
        clone_opt(&f.ja4)
    } else if show_ja3 {
        clone_opt(&f.ja3)
    } else {
        clone_opt(&f.ja4s)
    };
    match picked {
        Some(v) => v,
        None => match &f.ja4 {
            Some(v) => clone_string(v),
            None => match &f.ja3 {
                Some(v) => clone_string(v),
                None => {
                    proof {
                        reveal_strlit("");
                    }
                    lit("")
                },
            },
        },
    }
}

/// Whether the animated checklist may run: human output, no `--quiet`,
/// no `--no-progress`, and an interactive stderr (`stderr_tty`), since
/// frames would otherwise corrupt logs or pipes.
pub fn should_animate(cli: &Cli, stderr_tty: bool) -> (r: bool)
    ensures
        r == (!cli.quiet && !cli.no_progress && cli.format == Format::Human && stderr_tty),
{
    !cli.quiet && !cli.no_progress && cli.format == Format::Human && stderr_tty
}

/// The palette of the report: plain when it goes to a file (`-o`), so
/// that the artifact stays clean; otherwise `detected`.
pub fn report_palette(cli: &Cli, detected: Palette) -> (p: Palette)
    ensures
        p.colored() == (cli.output.is_none() && detected.colored()),
{
    if cli.output.is_some() {
        return Palette::plain();
    }
    detected
}

} // verus!
