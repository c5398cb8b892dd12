//! `ServerHello` parsing.
//!
//! Like `ClientHello`, but with a single selected cipher suite and a
//! single compression method. A TLS 1.3 `HelloRetryRequest` is a
//! `ServerHello` whose random is a fixed magic value (RFC 8446 §4.1.4).

use crate::error::{detail_text, detail_value, eof, eof_err, hex2_chars, malformed, malformed_err, ErrV, GripError, GripResult, KindV, ParseKind};
use crate::tls::bytes::{be16, be24, copy_range, read_be16, read_be24};
use crate::tls::client_hello::{first_byte, read_random};
use crate::tls::extensions::{exts_from, exts_view, parse_extensions, ExtV, Extension};
use crate::tls::record::{record_spec, ContentType, TlsRecord};
use crate::tls::version::{real_version_spec, TlsVersion};
use crate::util::text::{chars_of, hex2, string_of};
use vstd::prelude::*;

verus! {

/// Magic `random` of a `HelloRetryRequest`.
pub const HRR_RANDOM: [u8; 32] = [
    0xCF, 0x21, 0xAD, 0x74, 0xE5, 0x9A, 0x61, 0x11, 0xBE, 0x1D, 0x8C, 0x02, 0x1E, 0x65, 0xB8, 0x91,
    0xC2, 0xA2, 0x11, 0x16, 0x7A, 0xBB, 0x8C, 0x5E, 0x07, 0x9E, 0x09, 0xE2, 0xC8, 0xA8, 0x33, 0x9C,
];

/// Parsed `ServerHello` (or `HelloRetryRequest`).
#[derive(Debug, Clone, PartialEq, Eq)]
pub struct ServerHello {
    /// Legacy version.
    pub legacy_version: u16,
    /// Random bytes (or the HRR magic).
    pub random: [u8; 32],
    /// Session ID echoed from the `ClientHello`.
    pub session_id: Vec<u8>,
    /// Selected cipher suite.
    pub cipher_suite: u16,
    /// Compression method (usually `0`).
    pub compression_method: u8,
    /// Extensions.
    pub extensions: Vec<Extension>,
    /// True if this is a `HelloRetryRequest`.
    pub is_hello_retry_request: bool,
    /// Raw handshake bytes.
    pub raw: Vec<u8>,
}

/// Model of a `ServerHello`.
pub struct ServerHelloV {
    pub legacy_version: u16,
    pub random: Seq<u8>,
    pub session_id: Seq<u8>,
    pub cipher_suite: u16,
    pub compression_method: u8,
    pub extensions: Seq<ExtV>,
    pub is_hello_retry_request: bool,
    pub raw: Seq<u8>,
}

impl View for ServerHello {
    type V = ServerHelloV;

    open spec fn view(&self) -> ServerHelloV {
        ServerHelloV {
            legacy_version: self.legacy_version,
            random: self.random@,
            session_id: self.session_id@,
            cipher_suite: self.cipher_suite,
            compression_method: self.compression_method,
            extensions: exts_view(self.extensions@),
            is_hello_retry_request: self.is_hello_retry_request,
            raw: self.raw@,
        }
    }
}

/// What the handshake body `body` (whose whole message is `raw`) parses
/// to. Error offsets count from the start of the handshake message.
pub open spec fn sh_body_spec(body: Seq<u8>, raw: Seq<u8>) -> Result<ServerHelloV, ErrV> {
    let n = body.len() as int;
    if n < 2 {
        Err(eof_err(4, 2, n))
    } else if n < 34 {
        Err(eof_err(6, 32, n - 2))
    } else if n < 35 {
        Err(eof_err(38, 1, n - 34))
    } else {
        let sid_len = body[34] as int;
        if n < 35 + sid_len {
            Err(eof_err(39, sid_len, n - 35))
        } else {
            let p_cs = 35 + sid_len;
            if n < p_cs + 2 {
                Err(eof_err(4 + p_cs, 2, n - p_cs))
            } else if n < p_cs + 3 {
                Err(eof_err(4 + p_cs + 2, 1, n - (p_cs + 2)))
            } else {
                let p_ext = p_cs + 3;
                let fields = ServerHelloV {
                    legacy_version: be16(body, 0) as u16,
                    random: body.subrange(2, 34),
                    session_id: body.subrange(35, p_cs),
                    cipher_suite: be16(body, p_cs) as u16,
                    compression_method: body[p_cs + 2],
                    extensions: Seq::empty(),
                    is_hello_retry_request: body.subrange(2, 34) == HRR_RANDOM@,
                    raw,
                };
                if p_ext >= n {
                    Ok(fields)
                } else if n < p_ext + 2 {
                    Err(eof_err(4 + p_ext, 2, n - p_ext))
                } else {
                    let ext_len = be16(body, p_ext);
                    let p_list = p_ext + 2;
                    if n < p_list + ext_len {
                        Err(ErrV::Parse {
                            offset: (4 + p_list) as nat,
                            kind: KindV::ExtensionsLengthMismatch {
                                declared: ext_len as nat,
                                actual: (n - p_list) as nat,
                            },
                        })
                    } else {
                        match exts_from(body.subrange(p_list, p_list + ext_len), 0) {
                            Err(e) => Err(e),
                            Ok(exts) => if p_list + ext_len != n {
                                Err(malformed_err(4 + p_list, "trailing bytes after ServerHello extensions"@))
                            } else {
                                Ok(ServerHelloV { extensions: exts, ..fields })
                            },
                        }
                    }
                }
            }
        }
    }
}

/// Detail of a handshake message of type `b` that is not a `ServerHello`.
#[verifier::opaque]
pub open spec fn sh_type_text(b: u8) -> Seq<char> {
    "handshake type 0x"@ + hex2(b) + " != 0x02"@
}

/// Detail of a handshake record whose first message byte `b` is not a
/// `ServerHello`.
#[verifier::opaque]
pub open spec fn sh_record_type_text(b: u8) -> Seq<char> {
    "expected ServerHello type 0x02, got 0x"@ + hex2(b)
}

/// What a handshake message (type `0x02`, 24-bit length, body) parses to.
pub open spec fn sh_handshake_spec(buf: Seq<u8>) -> Result<ServerHelloV, ErrV> {
    if buf.len() < 4 {
        Err(eof_err(0, 4, buf.len() as int))
    } else if buf[0] != 0x02 {
        Err(malformed_err(0, sh_type_text(buf[0])))
    } else {
        let hs_len = be24(buf, 1);
        if buf.len() < 4 + hs_len {
            Err(eof_err(1, 4 + hs_len, buf.len() as int))
        } else {
            sh_body_spec(buf.subrange(4, 4 + hs_len), buf.subrange(0, 4 + hs_len))
        }
    }
}

/// What `ServerHello::parse` makes of `buf`: a record when `buf` starts
/// with `0x16`, otherwise a bare handshake message.
pub open spec fn server_hello_spec(buf: Seq<u8>) -> Result<ServerHelloV, ErrV> {
    if buf.len() > 0 && buf[0] == 0x16 {
        match record_spec(buf, 0) {
            Err(e) => Err(e),
            Ok((rec, _)) => if rec.content_type != ContentType::Handshake {
                Err(malformed_err(0, "expected Handshake record"@))
            } else if rec.payload.len() == 0 || rec.payload[0] != 0x02 {
                Err(malformed_err(5, sh_record_type_text(first_byte(rec.payload))))
            } else {
                sh_handshake_spec(rec.payload)
            },
        }
    } else {
        sh_handshake_spec(buf)
    }
}

/// Whether 32 random bytes are the `HelloRetryRequest` magic.
pub fn is_hrr_random(random: &[u8; 32]) -> (r: bool)
    ensures
        r == (random@ == HRR_RANDOM@),
{
    let magic = HRR_RANDOM;
    let mut i: usize = 0;
    while i < 32
        invariant
            i <= 32,
            magic@ == HRR_RANDOM@,
            forall|j: int| 0 <= j < i ==> random@[j] == magic@[j],
        decreases 32 - i,
    {
        if random[i] != magic[i] {
            return false;
        }
        i += 1;
    }
    assert(random@ =~= HRR_RANDOM@);
    true
}

impl ServerHello {
    /// Parse a `ServerHello` from a full record or a bare handshake
    /// message.
    pub fn parse(buf: &[u8]) -> (res: GripResult<Self>)
        ensures
            match res {
                Ok(sh) => server_hello_spec(buf@) == Ok::<ServerHelloV, ErrV>(sh@),
                Err(e) => server_hello_spec(buf@) == Err::<ServerHelloV, ErrV>(e@),
            },
    {
        if buf.len() > 0 && buf[0] == 0x16 {
            let (rec, _) = TlsRecord::parse(buf, 0)?;
            if rec.content_type != ContentType::Handshake {
                return Err(malformed(0, string_of(&chars_of("expected Handshake record"))));
            }
            if rec.payload.len() == 0 || rec.payload[0] != 0x02 {
                let got: u8 = if rec.payload.len() == 0 {
                    0
                } else {
                    rec.payload[0]
                };
                proof {
                    reveal(sh_record_type_text);
                }
                return Err(malformed(5, detail_value("expected ServerHello type 0x02, got 0x", &hex2_chars(got))));
            }
            Self::parse_handshake(rec.payload.as_slice())
        } else {
            Self::parse_handshake(buf)
        }
    }

    fn parse_handshake(buf: &[u8]) -> (res: GripResult<Self>)
        ensures
            match res {
                Ok(sh) => sh_handshake_spec(buf@) == Ok::<ServerHelloV, ErrV>(sh@),
                Err(e) => sh_handshake_spec(buf@) == Err::<ServerHelloV, ErrV>(e@),
            },
    {
        if buf.len() < 4 {
            return Err(eof(0, 4, buf.len()));
        }
        if buf[0] != 0x02 {
            proof {
                reveal(sh_type_text);
            }
            return Err(malformed(0, detail_text("handshake type 0x", &hex2_chars(buf[0]), " != 0x02")));
        }
        let hs_len = read_be24(buf, 1);
        if buf.len() < 4 + hs_len {
            return Err(eof(1, 4 + hs_len, buf.len()));
        }
        let body = vstd::slice::slice_subrange(buf, 4, 4 + hs_len);
        let raw = copy_range(buf, 0, 4 + hs_len);
        Self::parse_body(body, raw)
    }

    fn parse_body(body: &[u8], raw: Vec<u8>) -> (res: GripResult<Self>)
        ensures
            match res {
                Ok(sh) => sh_body_spec(body@, raw@) == Ok::<ServerHelloV, ErrV>(sh@),
                Err(e) => sh_body_spec(body@, raw@) == Err::<ServerHelloV, ErrV>(e@),
            },
    {
        let n = body.len();
        if n < 2 {
            return Err(eof(4, 2, n));
        }
        let legacy_version = read_be16(body, 0);
        if n < 34 {
            return Err(eof(6, 32, n - 2));
        }
        let random = read_random(body, 2);
        let is_hrr = is_hrr_random(&random);
        if n < 35 {
            return Err(eof(38, 1, n - 34));
        }
        let sid_len = body[34] as usize;
        if n - 35 < sid_len {
            return Err(eof(39, sid_len, n - 35));
        }
        let session_id = copy_range(body, 35, 35 + sid_len);
        let p_cs = 35 + sid_len;
        if n - p_cs < 2 {
            return Err(eof(4 + p_cs, 2, n - p_cs));
        }
        let cipher_suite = read_be16(body, p_cs);
        if n - (p_cs + 2) < 1 {
            return Err(eof(4 + p_cs + 2, 1, n - (p_cs + 2)));
        }
        let compression_method = body[p_cs + 2];
        let p_ext = p_cs + 3;
        let extensions = if p_ext < n {
            if n - p_ext < 2 {
                return Err(eof(4 + p_ext, 2, n - p_ext));
            }
            let ext_len = read_be16(body, p_ext) as usize;
            let p_list = p_ext + 2;
            if n - p_list < ext_len {
                return Err(GripError::Parse {
                    offset: 4 + p_list,
                    kind: ParseKind::ExtensionsLengthMismatch { declared: ext_len, actual: n - p_list },
                });
            }
            let ext_bytes = vstd::slice::slice_subrange(body, p_list, p_list + ext_len);
            let exts = parse_extensions(ext_bytes)?;
            if p_list + ext_len != n {
                return Err(malformed(4 + p_list, string_of(&chars_of("trailing bytes after ServerHello extensions"))));
            }
            exts
        } else {
            Vec::new()
        };
        assert(exts_view(Seq::<Extension>::empty()) =~= Seq::<ExtV>::empty());
        Ok(ServerHello {
            legacy_version,
            random,
            session_id,
            cipher_suite,
            compression_method,
            extensions,
            is_hello_retry_request: is_hrr,
            raw,
        })
    }

    /// Real negotiated version (checks `supported_versions`).
    pub fn real_version(&self) -> (r: TlsVersion)
        ensures
            r == real_version_spec(self.legacy_version, self@.extensions),
    {
        crate::tls::version::real_version(self.legacy_version, self.extensions.as_slice())
    }
}

/// The HelloRetryRequest random of RFC 8446 (SHA-256 of
/// "HelloRetryRequest").
pub open spec fn hello_retry_magic() -> Seq<u8> {
    seq![
        0xCFu8, 0x21u8, 0xADu8, 0x74u8, 0xE5u8, 0x9Au8, 0x61u8, 0x11u8, 0xBEu8, 0x1Du8, 0x8Cu8, 0x02u8, 0x1Eu8,
        0x65u8, 0xB8u8, 0x91u8, 0xC2u8, 0xA2u8, 0x11u8, 0x16u8, 0x7Au8, 0xBBu8, 0x8Cu8, 0x5Eu8, 0x07u8, 0x9Eu8,
        0x09u8, 0xE2u8, 0xC8u8, 0xA8u8, 0x33u8, 0x9Cu8,
    ]
}

proof fn lemma_body_hrr(body: Seq<u8>, raw: Seq<u8>)
    ensures
        sh_body_spec(body, raw) matches Ok(sh) ==> sh.random.len() == 32 && sh.is_hello_retry_request == (sh.random
            == hello_retry_magic()),
{
    assert(HRR_RANDOM@ =~= hello_retry_magic());
}

/// A parsed ServerHello is flagged as a HelloRetryRequest exactly when its
/// 32-byte random is the HelloRetryRequest magic of RFC 8446.
pub proof fn lemma_hello_retry_flag(buf: Seq<u8>)
    ensures
        server_hello_spec(buf) matches Ok(sh) ==> sh.random.len() == 32 && sh.is_hello_retry_request == (sh.random
            == hello_retry_magic()),
{
    if buf.len() > 0 && buf[0] == 0x16 {
        match record_spec(buf, 0) {
            Ok((rec, _)) => {
                let b = rec.payload;
                if b.len() >= 4 {
                    let hs_len = be24(b, 1);
                    lemma_body_hrr(b.subrange(4, 4 + hs_len), b.subrange(0, 4 + hs_len));
                }
            },
            Err(_) => {},
        }
    } else if buf.len() >= 4 {
        let hs_len = be24(buf, 1);
        lemma_body_hrr(buf.subrange(4, 4 + hs_len), buf.subrange(0, 4 + hs_len));
    }
}

} // verus!
