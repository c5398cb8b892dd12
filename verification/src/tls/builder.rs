//! `ClientHello` builder for live probing.
//!
//! Every vector in a `ClientHello` has a length prefix, and the handshake
//! and record headers each have their own; this builder computes them all
//! in one place and is the only code that serializes a `ClientHello`.

use crate::tls::bytes::{extend, push_be16, push_len16, u16_be};
use vstd::prelude::*;

verus! {

/// Builder for a TLS `ClientHello` byte array.
///
/// Defaults mimic a modern browser closely enough to get a real
/// `ServerHello`. SNI, random, cipher suites and ALPN can be overridden.
#[derive(Debug)]
pub struct ClientHelloBuilder {
    legacy_version: u16,
    random: [u8; 32],
    session_id: Vec<u8>,
    cipher_suites: Vec<u16>,
    compression_methods: Vec<u8>,
    sni: Option<String>,
    alpn: Vec<String>,
    supported_groups: Vec<u16>,
    signature_algorithms: Vec<u16>,
    supported_versions: Vec<u16>,
    key_share_groups: Vec<u16>,
}

/// Model of a builder: the settings a caller can change.
pub struct BuilderV {
    pub random: Seq<u8>,
    pub cipher_suites: Seq<u16>,
    pub sni: Option<Seq<char>>,
    pub alpn: Seq<Seq<char>>,
}

/// Default cipher suites.
pub open spec fn default_cipher_suites() -> Seq<u16> {
    seq![0x1301, 0x1302, 0x1303, 0xc02b, 0xc02f, 0xc02c, 0xc030, 0xcca9, 0xcca8, 0x009c, 0x009d, 0x002f, 0x0035]
}

/// Supported groups offered: x25519, P-256, P-384.
pub open spec fn default_groups() -> Seq<u16> {
    seq![0x001d, 0x0017, 0x0018]
}

/// Signature algorithms offered.
pub open spec fn default_sig_algs() -> Seq<u16> {
    seq![0x0403, 0x0804, 0x0401, 0x0503, 0x0807, 0x0501, 0x0808, 0x0601]
}

/// Versions offered: TLS 1.3, TLS 1.2.
pub open spec fn default_versions() -> Seq<u16> {
    seq![0x0304, 0x0303]
}

/// Groups for which a (dummy) key share is sent: x25519.
pub open spec fn default_key_share_groups() -> Seq<u16> {
    seq![0x001d]
}

/// The deterministic default random: byte `i` is `i * 0x9e mod 256`.
pub open spec fn default_random() -> Seq<u8> {
    Seq::new(32, |i: int| ((i * 0x9e) % 256) as u8)
}

/// Default ALPN protocols: `h2`, `http/1.1`.
pub open spec fn default_alpn() -> Seq<Seq<char>> {
    seq!["h2"@, "http/1.1"@]
}

/// Big-endian bytes of each value, in order.
pub open spec fn u16s_bytes(s: Seq<u16>) -> Seq<u8> {
    Seq::new(2 * s.len(), |j: int| if j % 2 == 0 { (s[j / 2] / 256) as u8 } else { (s[j / 2] % 256) as u8 })
}

/// One extension on the wire: `type(2) || len(2) || data`.
pub open spec fn ext_bytes(ext_type: u16, data: Seq<u8>) -> Seq<u8> {
    u16_be(ext_type as int) + u16_be(data.len() as int) + data
}

/// SNI payload for host name bytes `host`.
pub open spec fn sni_data(host: Seq<u8>) -> Seq<u8> {
    u16_be(host.len() as int + 3) + seq![0u8] + u16_be(host.len() as int) + host
}

/// One ALPN item: length byte, then the UTF-8 name.
pub open spec fn alpn_item(p: Seq<char>) -> Seq<u8> {
    seq![(vstd::utf8::encode_utf8(p).len() % 256) as u8] + vstd::utf8::encode_utf8(p)
}

/// All ALPN items, in order.
pub open spec fn alpn_inner(ps: Seq<Seq<char>>) -> Seq<u8>
    decreases ps.len(),
{
    if ps.len() == 0 {
        Seq::empty()
    } else {
        alpn_inner(ps.drop_last()) + alpn_item(ps.last())
    }
}

/// One key-share entry with the 32-byte dummy key.
pub open spec fn key_share_entry_bytes(g: u16) -> Seq<u8> {
    u16_be(g as int) + u16_be(32) + Seq::new(32, |i: int| 0x42u8)
}

/// Key-share entries for the groups, in order.
pub open spec fn key_share_bytes(gs: Seq<u16>) -> Seq<u8>
    decreases gs.len(),
{
    if gs.len() == 0 {
        Seq::empty()
    } else {
        key_share_bytes(gs.drop_last()) + key_share_entry_bytes(gs.last())
    }
}

/// The extensions block a builder writes (without its length prefix).
pub open spec fn extensions_bytes(b: BuilderV) -> Seq<u8> {
    let sni = match b.sni {
        Some(h) => ext_bytes(0x0000, sni_data(vstd::utf8::encode_utf8(h))),
        None => Seq::empty(),
    };
    let groups = ext_bytes(0x000a, u16_be(2 * default_groups().len() as int) + u16s_bytes(default_groups()));
    let points = ext_bytes(0x000b, seq![0x01u8, 0x00u8]);
    let sigs = ext_bytes(0x000d, u16_be(2 * default_sig_algs().len() as int) + u16s_bytes(default_sig_algs()));
    let alpn = if b.alpn.len() == 0 {
        Seq::empty()
    } else {
        ext_bytes(0x0010, u16_be(alpn_inner(b.alpn).len() as int) + alpn_inner(b.alpn))
    };
    let versions = ext_bytes(0x002b, seq![(2 * default_versions().len()) as u8] + u16s_bytes(default_versions()));
    let ks = key_share_bytes(default_key_share_groups());
    let key_share = ext_bytes(0x0033, u16_be(ks.len() as int) + ks);
    sni + groups + points + sigs + alpn + versions + key_share
}

/// A `ClientHello` body with legacy version `0x0303`, the given random,
/// an empty session id, the given cipher suites, the null compression
/// method and the given extensions block.
pub open spec fn hello_body(random: Seq<u8>, suites: Seq<u16>, exts: Seq<u8>) -> Seq<u8> {
    u16_be(0x0303) + random + seq![0u8] + u16_be(2 * (suites.len() as int % 65536)) + u16s_bytes(suites)
        + seq![1u8, 0u8] + u16_be(exts.len() as int) + exts
}

/// A handshake message of type `0x01` around `body` (24-bit length).
pub open spec fn handshake_of(body: Seq<u8>) -> Seq<u8> {
    let n = body.len() as int;
    seq![0x01u8, ((n / 65536) % 256) as u8, ((n / 256) % 256) as u8, (n % 256) as u8] + body
}

/// A handshake record (type `0x16`, version `0x0301`) around `hs`.
pub open spec fn record_of(hs: Seq<u8>) -> Seq<u8> {
    seq![0x16u8] + u16_be(0x0301) + u16_be(hs.len() as int) + hs
}

/// The `ClientHello` body a builder writes.
pub open spec fn body_bytes(b: BuilderV) -> Seq<u8> {
    hello_body(b.random, b.cipher_suites, extensions_bytes(b))
}

/// The handshake message a builder writes.
pub open spec fn handshake_bytes(b: BuilderV) -> Seq<u8> {
    handshake_of(body_bytes(b))
}

/// The record a builder writes.
pub open spec fn build_spec(b: BuilderV) -> Seq<u8> {
    record_of(handshake_bytes(b))
}

impl ClientHelloBuilder {
    /// The fixed parts of every builder: those no setter changes.
    #[verifier::type_invariant]
    closed spec fn fixed_parts(self) -> bool {
        &&& self.legacy_version == 0x0303
        &&& self.session_id@ == Seq::<u8>::empty()
        &&& self.compression_methods@ == seq![0u8]
        &&& self.supported_groups@ == default_groups()
        &&& self.signature_algorithms@ == default_sig_algs()
        &&& self.supported_versions@ == default_versions()
        &&& self.key_share_groups@ == default_key_share_groups()
    }

    /// The builder's settings.
    pub closed spec fn view(&self) -> BuilderV {
        BuilderV {
            random: self.random@,
            cipher_suites: self.cipher_suites@,
            sni: match self.sni {
                Some(s) => Some(s@),
                None => None,
            },
            alpn: self.alpn@.map_values(|s: String| s@),
        }
    }

    /// A builder with the default settings.
    pub fn new() -> (b: Self)
        ensures
            b.view() == (BuilderV {
                random: default_random(),
                cipher_suites: default_cipher_suites(),
                sni: None,
                alpn: default_alpn(),
            }),
    {
        let mut random = [0u8; 32];
        let mut i: usize = 0;
        while i < 32
            invariant
                i <= 32,
                forall|j: int| 0 <= j < i ==> random@[j] == ((j * 0x9e) % 256) as u8,
            decreases 32 - i,
        {
            random[i] = (i as u8).wrapping_mul(0x9e);
            proof {
                assert((i as u8).wrapping_mul(0x9e) == ((i * 0x9e) % 256) as u8) by (bit_vector)
                    requires i < 32;
            }
            i += 1;
        }
        assert(random@ =~= default_random());
        let mut alpn: Vec<String> = Vec::new();
        alpn.push(crate::util::text::string_of(&crate::util::text::chars_of("h2")));
        alpn.push(crate::util::text::string_of(&crate::util::text::chars_of("http/1.1")));
        let session_id: Vec<u8> = Vec::new();
        let compression_methods: Vec<u8> = vec![0x00];
        let supported_groups: Vec<u16> = vec![0x001d, 0x0017, 0x0018];
        let signature_algorithms: Vec<u16> = vec![0x0403, 0x0804, 0x0401, 0x0503, 0x0807, 0x0501, 0x0808, 0x0601];
        let supported_versions: Vec<u16> = vec![0x0304, 0x0303];
        let key_share_groups: Vec<u16> = vec![0x001d];
        assert(session_id@ =~= Seq::<u8>::empty());
        assert(compression_methods@ =~= seq![0u8]);
        assert(supported_groups@ =~= default_groups());
        assert(signature_algorithms@ =~= default_sig_algs());
        assert(supported_versions@ =~= default_versions());
        assert(key_share_groups@ =~= default_key_share_groups());
        let b = ClientHelloBuilder {
            legacy_version: 0x0303,
            random,
            session_id,
            cipher_suites: vec![
                0x1301, 0x1302, 0x1303, 0xc02b, 0xc02f, 0xc02c, 0xc030, 0xcca9, 0xcca8, 0x009c,
                0x009d, 0x002f, 0x0035,
            ],
            compression_methods,
            sni: None,
            alpn,
            supported_groups,
            signature_algorithms,
            supported_versions,
            key_share_groups,
        };
        assert(b.alpn@.map_values(|s: String| s@) =~= default_alpn());
        assert(b.cipher_suites@ =~= default_cipher_suites());
        b
    }

    /// Set the SNI host name; `None` omits the extension.
    pub fn with_sni(self, sni: Option<String>) -> (b: Self)
        ensures
            b.view() == (BuilderV {
                sni: match sni {
                    Some(s) => Some(s@),
                    None => None,
                },
                ..self.view()
            }),
    {
        proof {
            use_type_invariant(&self);
        }
        let mut b = self;
        b.sni = sni;
        b
    }

    /// Override the random bytes.
    pub fn with_random(self, random: [u8; 32]) -> (b: Self)
        ensures
            b.view() == (BuilderV { random: random@, ..self.view() }),
    {
        proof {
            use_type_invariant(&self);
        }
        let mut b = self;
        b.random = random;
        b
    }

    /// Override the cipher suites.
    pub fn with_cipher_suites(self, suites: Vec<u16>) -> (b: Self)
        ensures
            b.view() == (BuilderV { cipher_suites: suites@, ..self.view() }),
    {
        proof {
            use_type_invariant(&self);
        }
        let mut b = self;
        b.cipher_suites = suites;
        b
    }

    /// Override the ALPN protocols.
    pub fn with_alpn(self, alpn: Vec<String>) -> (b: Self)
        ensures
            b.view() == (BuilderV { alpn: alpn@.map_values(|s: String| s@), ..self.view() }),
    {
        proof {
            use_type_invariant(&self);
        }
        let mut b = self;
        b.alpn = alpn;
        b
    }
}

/// Appends the big-endian bytes of each value.
fn push_u16s(out: &mut Vec<u8>, vals: &Vec<u16>)
    ensures
        final(out)@ == old(out)@ + u16s_bytes(vals@),
{
    let mut i: usize = 0;
    while i < vals.len()
        invariant
            i <= vals@.len(),
            out@ == old(out)@ + u16s_bytes(vals@.take(i as int)),
        decreases vals.len() - i,
    {
        let v = vals[i];
        let ghost before = out@;
        push_be16(out, v);
        proof {
            assert(u16s_bytes(vals@.take(i + 1)) =~= u16s_bytes(vals@.take(i as int)) + u16_be(v as int));
            assert(out@ =~= old(out)@ + u16s_bytes(vals@.take(i + 1)));
        }
        i += 1;
    }
    assert(vals@.take(vals@.len() as int) =~= vals@);
}

/// Appends `type(2) || len(2) || data`.
fn push_ext(out: &mut Vec<u8>, ext_type: u16, data: &Vec<u8>)
    ensures
        final(out)@ == old(out)@ + ext_bytes(ext_type, data@),
{
    push_be16(out, ext_type);
    push_len16(out, data.len());
    extend(out, data.as_slice());
    assert(out@ =~= old(out)@ + ext_bytes(ext_type, data@));
}

impl ClientHelloBuilder {
    /// The extensions block (without its length prefix).
    fn build_extensions(&self) -> (out: Vec<u8>)
        ensures
            out@ == extensions_bytes(self.view()),
    {
        proof {
            use_type_invariant(self);
        }
        let ghost b = self.view();
        let mut out: Vec<u8> = Vec::new();

        // SNI (0x0000)
        if let Some(sni) = &self.sni {
            let host = sni.as_str().as_bytes();
            let mut data: Vec<u8> = Vec::new();
            let hl = host.len();
            let entry_len = hl % 65536 + 3;
            proof {
                assert(((entry_len / 256) % 256) == (((hl + 3) as int / 256) % 256)
                    && entry_len % 256 == (hl + 3) as int % 256) by (nonlinear_arith)
                    requires entry_len == hl % 65536 + 3;
            }
            push_len16(&mut data, entry_len);
            data.push(0x00);
            push_len16(&mut data, hl);
            extend(&mut data, host);
            assert(data@ =~= sni_data(vstd::utf8::encode_utf8(sni@)));
            push_ext(&mut out, 0x0000, &data);
        }
        let ghost after_sni = out@;

        // Supported Groups (0x000a)
        {
            let mut data: Vec<u8> = Vec::new();
            push_len16(&mut data, self.supported_groups.len() * 2);
            push_u16s(&mut data, &self.supported_groups);
            push_ext(&mut out, 0x000a, &data);
        }

        // EC Point Formats (0x000b): uncompressed
        {
            let data: Vec<u8> = vec![0x01, 0x00];
            assert(data@ =~= seq![0x01u8, 0x00u8]);
            push_ext(&mut out, 0x000b, &data);
        }

        // Signature Algorithms (0x000d)
        {
            let mut data: Vec<u8> = Vec::new();
            push_len16(&mut data, self.signature_algorithms.len() * 2);
            push_u16s(&mut data, &self.signature_algorithms);
            push_ext(&mut out, 0x000d, &data);
        }
        let ghost before_alpn = out@;

        // ALPN (0x0010)
        if self.alpn.len() > 0 {
            let mut inner: Vec<u8> = Vec::new();
            let mut i: usize = 0;
            while i < self.alpn.len()
                invariant
                    i <= self.alpn@.len(),
                    b.alpn == self.alpn@.map_values(|s: String| s@),
                    inner@ == alpn_inner(b.alpn.take(i as int)),
                decreases self.alpn.len() - i,
            {
                let proto = self.alpn[i].as_str().as_bytes();
                inner.push((proto.len() % 256) as u8);
                extend(&mut inner, proto);
                proof {
                    assert(b.alpn.take(i + 1).drop_last() =~= b.alpn.take(i as int));
                    assert(b.alpn.take(i + 1).last() == self.alpn@[i as int]@);
                }
                i += 1;
            }
            assert(b.alpn.take(self.alpn@.len() as int) =~= b.alpn);
            let mut data: Vec<u8> = Vec::new();
            push_len16(&mut data, inner.len());
            extend(&mut data, inner.as_slice());
            push_ext(&mut out, 0x0010, &data);
        }
        let ghost after_alpn = out@;

        // Supported Versions (0x002b)
        {
            let mut data: Vec<u8> = Vec::new();
            data.push((self.supported_versions.len() * 2) as u8);
            push_u16s(&mut data, &self.supported_versions);
            push_ext(&mut out, 0x002b, &data);
        }

        // Key Share (0x0033): one dummy 32-byte key per group
        {
            let mut entries: Vec<u8> = Vec::new();
            let mut i: usize = 0;
            while i < self.key_share_groups.len()
                invariant
                    i <= self.key_share_groups@.len(),
                    entries@ == key_share_bytes(self.key_share_groups@.take(i as int)),
                decreases self.key_share_groups.len() - i,
            {
                let g = self.key_share_groups[i];
                let ghost before = entries@;
                push_be16(&mut entries, g);
                push_be16(&mut entries, 32);
                let mut k: usize = 0;
                while k < 32
                    invariant
                        k <= 32,
                        entries@ == before + u16_be(g as int) + u16_be(32) + Seq::new(k as nat, |j: int| 0x42u8),
                    decreases 32 - k,
                {
                    entries.push(0x42);
                    k += 1;
                    assert(entries@ =~= before + u16_be(g as int) + u16_be(32) + Seq::new(k as nat, |j: int| 0x42u8));
                }
                proof {
                    assert(self.key_share_groups@.take(i + 1).drop_last() =~= self.key_share_groups@.take(i as int));
                    assert(entries@ =~= before + key_share_entry_bytes(g));
                }
                i += 1;
            }
            assert(self.key_share_groups@.take(self.key_share_groups@.len() as int) =~= self.key_share_groups@);
            let mut data: Vec<u8> = Vec::new();
            push_len16(&mut data, entries.len());
            extend(&mut data, entries.as_slice());
            push_ext(&mut out, 0x0033, &data);
        }
        assert(out@ =~= extensions_bytes(b));
        out
    }

    /// The on-wire bytes: TLS record, handshake header, `ClientHello`
    /// body.
    pub fn build(&self) -> (out: Vec<u8>)
        requires
            self.view().cipher_suites.len() % 65536 < 32768,
        ensures
            out@ == build_spec(self.view()),
    {
        proof {
            use_type_invariant(self);
        }
        let extensions = self.build_extensions();
        let mut body: Vec<u8> = Vec::new();
        push_be16(&mut body, self.legacy_version);
        extend(&mut body, self.random.as_slice());
        body.push((self.session_id.len() % 256) as u8);
        extend(&mut body, self.session_id.as_slice());
        push_len16(&mut body, (self.cipher_suites.len() % 65536) * 2);
        push_u16s(&mut body, &self.cipher_suites);
        body.push((self.compression_methods.len() % 256) as u8);
        extend(&mut body, self.compression_methods.as_slice());
        push_len16(&mut body, extensions.len());
        extend(&mut body, extensions.as_slice());
        assert(body@ =~= body_bytes(self.view()));

        let hs_len = body.len();
        let mut handshake: Vec<u8> = Vec::new();
        handshake.push(0x01);
        handshake.push(((hs_len / 65536) % 256) as u8);
        handshake.push(((hs_len / 256) % 256) as u8);
        handshake.push((hs_len % 256) as u8);
        extend(&mut handshake, body.as_slice());
        assert(handshake@ =~= handshake_bytes(self.view()));

        let mut record: Vec<u8> = Vec::new();
        record.push(0x16);
        push_be16(&mut record, 0x0301);
        push_len16(&mut record, handshake.len());
        extend(&mut record, handshake.as_slice());
        assert(record@ =~= build_spec(self.view()));
        record
    }
}

impl Default for ClientHelloBuilder {
    /// The same as [`ClientHelloBuilder::new`].
    fn default() -> (b: Self)
        ensures
            b.view() == (BuilderV {
                random: default_random(),
                cipher_suites: default_cipher_suites(),
                sni: None,
                alpn: default_alpn(),
            }),
    {
        Self::new()
    }
}

} // verus!
