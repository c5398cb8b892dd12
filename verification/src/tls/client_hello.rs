//! `ClientHello` parsing.
//!
//! Wire format of the handshake body:
//! ```text
//! 0-1    Client Version (legacy, usually 0x0303)
//! 2-33   Random (32 bytes)
//! 34     Session ID Length, then Session ID
//! ..     Cipher Suites Length (2), then Cipher Suites (2 each)
//! ..     Compression Methods Length (1), then Compression Methods
//! ..     Extensions Length (2), then Extensions — absent if no bytes left
//! ```
//! Every length prefix is validated; the raw handshake bytes are kept.

use crate::error::{dec_of, detail_text, detail_value, eof, eof_err, hex2_chars, malformed, malformed_err, ErrV, GripError, GripResult, KindV, ParseKind};
use crate::tls::bytes::{be16, be24, copy_range, read_be16, read_be24};
use crate::tls::extensions::common::{read_u16s, u16s};
use crate::tls::extensions::{exts_from, exts_view, parse_extensions, ExtV, Extension};
use crate::tls::record::{record_spec, ContentType, RecordV, TlsRecord};
use crate::tls::version::{real_version_spec, TlsVersion};
use crate::util::text::{chars_of, dec, hex2, string_of};
use vstd::prelude::*;

verus! {

/// Parsed `ClientHello`.
#[derive(Debug, Clone, PartialEq, Eq)]
pub struct ClientHello {
    /// Legacy version field (e.g. `0x0303`); the real version is in the
    /// extensions.
    pub legacy_version: u16,
    /// 32 random bytes.
    pub random: [u8; 32],
    /// Session ID (may be empty).
    pub session_id: Vec<u8>,
    /// Cipher suites as sent (GREASE still present).
    pub cipher_suites: Vec<u16>,
    /// Compression methods (usually `[0]`).
    pub compression_methods: Vec<u8>,
    /// Extensions in wire order.
    pub extensions: Vec<Extension>,
    /// Original bytes of the handshake message.
    pub raw: Vec<u8>,
}

/// Model of a `ClientHello`.
pub struct ClientHelloV {
    pub legacy_version: u16,
    pub random: Seq<u8>,
    pub session_id: Seq<u8>,
    pub cipher_suites: Seq<u16>,
    pub compression_methods: Seq<u8>,
    pub extensions: Seq<ExtV>,
    pub raw: Seq<u8>,
}

impl View for ClientHello {
    type V = ClientHelloV;

    open spec fn view(&self) -> ClientHelloV {
        ClientHelloV {
            legacy_version: self.legacy_version,
            random: self.random@,
            session_id: self.session_id@,
            cipher_suites: self.cipher_suites@,
            compression_methods: self.compression_methods@,
            extensions: exts_view(self.extensions@),
            raw: self.raw@,
        }
    }
}

/// What the handshake body `body` (whose whole message is `raw`) parses
/// to. Error offsets count from the start of the handshake message.
pub open spec fn ch_body_spec(body: Seq<u8>, raw: Seq<u8>) -> Result<ClientHelloV, ErrV> {
    let n = body.len() as int;
    if n < 2 {
        Err(eof_err(4, 2, n))
    } else if n < 34 {
        Err(eof_err(6, 32, n - 2))
    } else if n < 35 {
        Err(eof_err(38, 1, n - 34))
    } else {
        let sid_len = body[34] as int;
        if n < 35 + sid_len {
            Err(eof_err(39, sid_len, n - 35))
        } else {
            let p_cs = 35 + sid_len;
            if n < p_cs + 2 {
                Err(eof_err(4 + p_cs, 2, n - p_cs))
            } else {
                let cs_len = be16(body, p_cs);
                let p_suites = p_cs + 2;
                if cs_len % 2 != 0 {
                    Err(ErrV::Parse { offset: (4 + p_cs) as nat, kind: KindV::OddCipherSuiteLength(cs_len as nat) })
                } else if n < p_suites + cs_len {
                    Err(eof_err(4 + p_suites, cs_len, n - p_suites))
                } else {
                    let p_comp = p_suites + cs_len;
                    if n < p_comp + 1 {
                        Err(eof_err(4 + p_comp, 1, n - p_comp))
                    } else {
                        let comp_len = body[p_comp] as int;
                        if n < p_comp + 1 + comp_len {
                            Err(eof_err(4 + p_comp + 1, comp_len, n - (p_comp + 1)))
                        } else {
                            let p_ext = p_comp + 1 + comp_len;
                            let fields = ClientHelloV {
                                legacy_version: be16(body, 0) as u16,
                                random: body.subrange(2, 34),
                                session_id: body.subrange(35, 35 + sid_len),
                                cipher_suites: u16s(body, p_suites, (cs_len / 2) as nat),
                                compression_methods: body.subrange(p_comp + 1, p_ext),
                                extensions: Seq::empty(),
                                raw,
                            };
                            if p_ext >= n {
                                Ok(fields)
                            } else if n < p_ext + 2 {
                                Err(eof_err(4 + p_ext, 2, n - p_ext))
                            } else {
                                let ext_len = be16(body, p_ext);
                                let p_list = p_ext + 2;
                                if n < p_list + ext_len {
                                    Err(ErrV::Parse {
                                        offset: (4 + p_list) as nat,
                                        kind: KindV::ExtensionsLengthMismatch {
                                            declared: ext_len as nat,
                                            actual: (n - p_list) as nat,
                                        },
                                    })
                                } else {
                                    match exts_from(body.subrange(p_list, p_list + ext_len), 0) {
                                        Err(e) => Err(e),
                                        Ok(exts) => if p_list + ext_len != n {
                                            Err(malformed_err(4 + p_list, ch_trailing_text((n - (p_list + ext_len)) as nat)))
                                        } else {
                                            Ok(ClientHelloV { extensions: exts, ..fields })
                                        },
                                    }
                                }
                            }
                        }
                    }
                }
            }
        }
    }
}

/// Detail of trailing bytes after the extensions.
#[verifier::opaque]
pub open spec fn ch_trailing_text(extra: nat) -> Seq<char> {
    "trailing bytes after extensions: "@ + dec(extra)
}

/// Detail of a handshake message of type `b` that is not a `ClientHello`.
#[verifier::opaque]
pub open spec fn ch_type_text(b: u8) -> Seq<char> {
    "handshake type 0x"@ + hex2(b) + " != 0x01"@
}

/// Detail of a handshake record whose first message byte `b` is not a
/// `ClientHello`.
#[verifier::opaque]
pub open spec fn ch_record_type_text(b: u8) -> Seq<char> {
    "expected ClientHello handshake type 0x01, got 0x"@ + hex2(b)
}

/// The first byte of `s`, or 0 when it is empty.
pub open spec fn first_byte(s: Seq<u8>) -> u8 {
    if s.len() == 0 {
        0
    } else {
        s[0]
    }
}

/// What a handshake message (type, 24-bit length, body) parses to.
pub open spec fn ch_handshake_spec(buf: Seq<u8>) -> Result<ClientHelloV, ErrV> {
    if buf.len() < 4 {
        Err(eof_err(0, 4, buf.len() as int))
    } else if buf[0] != 0x01 {
        Err(malformed_err(0, ch_type_text(buf[0])))
    } else {
        let hs_len = be24(buf, 1);
        if buf.len() < 4 + hs_len {
            Err(eof_err(1, 4 + hs_len, buf.len() as int))
        } else {
            ch_body_spec(buf.subrange(4, 4 + hs_len), buf.subrange(0, 4 + hs_len))
        }
    }
}

/// What `ClientHello::parse` makes of `buf`: a record when `buf` starts
/// with `0x16`, otherwise a bare handshake message.
pub open spec fn client_hello_spec(buf: Seq<u8>) -> Result<ClientHelloV, ErrV> {
    if buf.len() > 0 && buf[0] == 0x16 {
        match record_spec(buf, 0) {
            Err(e) => Err(e),
            Ok((rec, _)) => if rec.content_type != ContentType::Handshake {
                Err(malformed_err(0, "expected Handshake record"@))
            } else if rec.payload.len() == 0 || rec.payload[0] != 0x01 {
                Err(malformed_err(5, ch_record_type_text(first_byte(rec.payload))))
            } else {
                ch_handshake_spec(rec.payload)
            },
        }
    } else {
        ch_handshake_spec(buf)
    }
}

/// The host name of the first SNI extension, unless it is empty.
pub open spec fn sni_of(exts: Seq<ExtV>) -> Option<Seq<char>>
    decreases exts.len(),
{
    if exts.len() == 0 {
        None
    } else {
        match exts[0] {
            ExtV::Sni(s) => if s.len() == 0 {
                None
            } else {
                Some(s)
            },
            _ => sni_of(exts.drop_first()),
        }
    }
}

/// The protocol list of the first ALPN extension.
pub open spec fn alpn_of(exts: Seq<ExtV>) -> Option<Seq<Seq<char>>>
    decreases exts.len(),
{
    if exts.len() == 0 {
        None
    } else {
        match exts[0] {
            ExtV::Alpn(v) => Some(v),
            _ => alpn_of(exts.drop_first()),
        }
    }
}

/// Copies the 32 bytes at `pos` into an array.
pub fn read_random(body: &[u8], pos: usize) -> (r: [u8; 32])
    requires
        pos + 32 <= body@.len(),
    ensures
        r@ == body@.subrange(pos as int, pos + 32),
{
    let mut random = [0u8; 32];
    let mut i: usize = 0;
    while i < 32
        invariant
            i <= 32,
            pos + 32 <= body.len(),
            forall|j: int| 0 <= j < i ==> random@[j] == body@[pos + j],
        decreases 32 - i,
    {
        random[i] = body[pos + i];
        i += 1;
    }
    assert(random@ =~= body@.subrange(pos as int, pos + 32));
    random
}

impl ClientHello {
    /// Parse a `ClientHello` from bytes that are either a full TLS record
    /// (`0x16 0x03 …`) or just the handshake message (starting `0x01`).
    pub fn parse(buf: &[u8]) -> (res: GripResult<Self>)
        ensures
            match res {
                Ok(ch) => client_hello_spec(buf@) == Ok::<ClientHelloV, ErrV>(ch@),
                Err(e) => client_hello_spec(buf@) == Err::<ClientHelloV, ErrV>(e@),
            },
    {
        if buf.len() > 0 && buf[0] == 0x16 {
            let (rec, _) = TlsRecord::parse(buf, 0)?;
            if rec.content_type != ContentType::Handshake {
                return Err(malformed(0, string_of(&chars_of("expected Handshake record"))));
            }
            if rec.payload.len() == 0 || rec.payload[0] != 0x01 {
                let got: u8 = if rec.payload.len() == 0 {
                    0
                } else {
                    rec.payload[0]
                };
                proof {
                    reveal(ch_record_type_text);
                }
                return Err(malformed(5, detail_value("expected ClientHello handshake type 0x01, got 0x", &hex2_chars(got))));
            }
            Self::parse_handshake(rec.payload.as_slice())
        } else {
            Self::parse_handshake(buf)
        }
    }

    /// Parse the handshake message: type `0x01`, 24-bit length, body.
    fn parse_handshake(buf: &[u8]) -> (res: GripResult<Self>)
        ensures
            match res {
                Ok(ch) => ch_handshake_spec(buf@) == Ok::<ClientHelloV, ErrV>(ch@),
                Err(e) => ch_handshake_spec(buf@) == Err::<ClientHelloV, ErrV>(e@),
            },
    {
        if buf.len() < 4 {
            return Err(eof(0, 4, buf.len()));
        }
        if buf[0] != 0x01 {
            proof {
                reveal(ch_type_text);
            }
            return Err(malformed(0, detail_text("handshake type 0x", &hex2_chars(buf[0]), " != 0x01")));
        }
        let hs_len = read_be24(buf, 1);
        if buf.len() < 4 + hs_len {
            return Err(eof(1, 4 + hs_len, buf.len()));
        }
        let body = vstd::slice::slice_subrange(buf, 4, 4 + hs_len);
        let raw = copy_range(buf, 0, 4 + hs_len);
        Self::parse_body(body, raw)
    }

    /// Parse the handshake body; `raw` is the whole message.
    fn parse_body(body: &[u8], raw: Vec<u8>) -> (res: GripResult<Self>)
        ensures
            match res {
                Ok(ch) => ch_body_spec(body@, raw@) == Ok::<ClientHelloV, ErrV>(ch@),
                Err(e) => ch_body_spec(body@, raw@) == Err::<ClientHelloV, ErrV>(e@),
            },
    {
        let n = body.len();
        if n < 2 {
            return Err(eof(4, 2, n));
        }
        let legacy_version = read_be16(body, 0);
        if n < 34 {
            return Err(eof(6, 32, n - 2));
        }
        let random = read_random(body, 2);
        if n < 35 {
            return Err(eof(38, 1, n - 34));
        }
        let sid_len = body[34] as usize;
        if n - 35 < sid_len {
            return Err(eof(39, sid_len, n - 35));
        }
        let session_id = copy_range(body, 35, 35 + sid_len);
        let p_cs = 35 + sid_len;
        if n - p_cs < 2 {
            return Err(eof(4 + p_cs, 2, n - p_cs));
        }
        let cs_len = read_be16(body, p_cs) as usize;
        let p_suites = p_cs + 2;
        if cs_len % 2 != 0 {
            return Err(GripError::Parse { offset: 4 + p_cs, kind: ParseKind::OddCipherSuiteLength(cs_len) });
        }
        if n - p_suites < cs_len {
            return Err(eof(4 + p_suites, cs_len, n - p_suites));
        }
        let cipher_suites = read_u16s(body, p_suites, cs_len / 2);
        let p_comp = p_suites + cs_len;
        if n - p_comp < 1 {
            return Err(eof(4 + p_comp, 1, n - p_comp));
        }
        let comp_len = body[p_comp] as usize;
        if n - (p_comp + 1) < comp_len {
            return Err(eof(4 + p_comp + 1, comp_len, n - (p_comp + 1)));
        }
        let compression_methods = copy_range(body, p_comp + 1, p_comp + 1 + comp_len);
        let p_ext = p_comp + 1 + comp_len;
        let extensions = if p_ext < n {
            if n - p_ext < 2 {
                return Err(eof(4 + p_ext, 2, n - p_ext));
            }
            let ext_len = read_be16(body, p_ext) as usize;
            let p_list = p_ext + 2;
            if n - p_list < ext_len {
                return Err(GripError::Parse {
                    offset: 4 + p_list,
                    kind: ParseKind::ExtensionsLengthMismatch { declared: ext_len, actual: n - p_list },
                });
            }
            let ext_bytes = vstd::slice::slice_subrange(body, p_list, p_list + ext_len);
            let exts = parse_extensions(ext_bytes)?;
            if p_list + ext_len != n {
                proof {
                    reveal(ch_trailing_text);
                }
                return Err(malformed(4 + p_list, detail_value("trailing bytes after extensions: ", &dec_of(n - (p_list + ext_len)))));
            }
            exts
        } else {
            Vec::new()
        };
        let ch = ClientHello {
            legacy_version,
            random,
            session_id,
            cipher_suites,
            compression_methods,
            extensions,
            raw,
        };
        assert(exts_view(Seq::<Extension>::empty()) =~= Seq::<ExtV>::empty());
        Ok(ch)
    }

    /// The SNI host name, unless absent or empty.
    pub fn sni(&self) -> (res: Option<&str>)
        ensures
            match res {
                Some(s) => sni_of(self@.extensions) == Some(s@),
                None => sni_of(self@.extensions) is None,
            },
    {
        let mut i: usize = 0;
        assert(exts_view(self.extensions@).skip(0) =~= exts_view(self.extensions@));
        while i < self.extensions.len()
            invariant
                i <= self.extensions@.len(),
                sni_of(self@.extensions) == sni_of(self@.extensions.skip(i as int)),
            decreases self.extensions.len() - i,
        {
            assert(self@.extensions.skip(i as int).drop_first() =~= self@.extensions.skip(i + 1));
            if let Extension::Sni(s) = &self.extensions[i] {
                if s.as_str().is_empty() {
                    return None;
                }
                return Some(s.as_str());
            }
            i += 1;
        }
        None
    }

    /// The ALPN protocol list, if present.
    pub fn alpn(&self) -> (res: Option<&Vec<String>>)
        ensures
            match res {
                Some(v) => alpn_of(self@.extensions) == Some(v@.map_values(|s: String| s@)),
                None => alpn_of(self@.extensions) is None,
            },
    {
        let mut i: usize = 0;
        assert(exts_view(self.extensions@).skip(0) =~= exts_view(self.extensions@));
        while i < self.extensions.len()
            invariant
                i <= self.extensions@.len(),
                alpn_of(self@.extensions) == alpn_of(self@.extensions.skip(i as int)),
            decreases self.extensions.len() - i,
        {
            assert(self@.extensions.skip(i as int).drop_first() =~= self@.extensions.skip(i + 1));
            if let Extension::Alpn(v) = &self.extensions[i] {
                return Some(v);
            }
            i += 1;
        }
        None
    }

    /// Real TLS version (checks `supported_versions`).
    pub fn real_version(&self) -> (r: TlsVersion)
        ensures
            r == real_version_spec(self.legacy_version, self@.extensions),
    {
        crate::tls::version::real_version(self.legacy_version, self.extensions.as_slice())
    }
}

} // verus!
