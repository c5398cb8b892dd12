//! Decisions of the raw handshake read loop.
//!
//! The caller writes the `ClientHello`, then reads from the socket and
//! hands each chunk (or each idle poll) to [`DriveState`], which keeps the
//! bytes, picks the first `ServerHello` and any clear-text `Certificate`
//! out of the complete records seen so far, and says when to stop: once a
//! `ServerHello` and a chain are in (or the `ServerHello` is TLS 1.3,
//! whose certificates are encrypted), or past 64 KiB. A fatal alert record
//! ends the scan of the buffer.

use crate::error::ErrV;
use crate::tls::bytes::{be16, extend, read_be16};
use crate::tls::certificate::{cert_views, chain_spec, CertInfoV, CertificateChain};
use crate::tls::record::{record_spec, ContentType, TlsRecord};
use crate::tls::server_hello::{server_hello_spec, ServerHello, ServerHelloV};
use crate::tls::version::{real_version_spec, TlsVersion};
use vstd::prelude::*;
use vstd::slice::slice_subrange;

verus! {

/// What the read loop has caught so far.
pub struct CaughtV {
    pub server_hello: Option<ServerHelloV>,
    pub server_hello_raw: Seq<u8>,
    pub chain: Option<Seq<CertInfoV>>,
}

/// The chain of a `Certificate` record `rb` with payload `payload`: parsed
/// from the whole record, else from its payload.
pub open spec fn record_chain(rb: Seq<u8>, payload: Seq<u8>) -> Option<Seq<CertInfoV>> {
    match chain_spec(rb) {
        Ok(c) => Some(c),
        Err(_) => match chain_spec(payload) {
            Ok(c) => Some(c),
            Err(_) => None,
        },
    }
}

/// What one complete record `rb` (at offset `pos`) adds: the first
/// `ServerHello`, or the chain of a `Certificate` message.
pub open spec fn absorb_record(c: CaughtV, rb: Seq<u8>, pos: int) -> CaughtV {
    match record_spec(rb, pos) {
        Ok((rec, _)) => if rec.content_type == ContentType::Handshake && rec.payload.len() > 0 {
            if rec.payload[0] == 0x02 && c.server_hello is None {
                match server_hello_spec(rb) {
                    Ok(sh) => CaughtV { server_hello: Some(sh), server_hello_raw: rb, ..c },
                    Err(_) => c,
                }
            } else if rec.payload[0] == 0x0b {
                match record_chain(rb, rec.payload) {
                    Some(ch) => CaughtV { chain: Some(ch), ..c },
                    None => c,
                }
            } else {
                c
            }
        } else {
            c
        },
        Err(_) => c,
    }
}

/// Scanning the complete records of `buf` from `pos`; an alert record ends
/// the scan.
pub open spec fn absorb_from(buf: Seq<u8>, pos: int, c: CaughtV) -> CaughtV
    decreases buf.len() - pos,
{
    if pos < 0 || pos + 5 > buf.len() {
        c
    } else {
        let n = be16(buf, pos + 3);
        if buf.len() < pos + 5 + n {
            c
        } else {
            let rb = buf.subrange(pos, pos + 5 + n);
            let c1 = absorb_record(c, rb, pos);
            if rb[0] == 0x15 {
                c1
            } else {
                absorb_from(buf, pos + 5 + n, c1)
            }
        }
    }
}

/// Whether the loop has what it came for: a `ServerHello`, and a chain
/// unless the `ServerHello` is TLS 1.3.
pub open spec fn caught_enough(c: CaughtV) -> bool {
    match c.server_hello {
        Some(sh) => c.chain is Some || real_version_spec(sh.legacy_version, sh.extensions) == TlsVersion::Tls13,
        None => false,
    }
}

/// The chain of the first `Certificate` record in `buf` (from `pos`) that
/// parses, for a chain the loop did not catch.
pub open spec fn scan_chain(buf: Seq<u8>, pos: int) -> Option<Seq<CertInfoV>>
    decreases buf.len() - pos,
{
    if pos < 0 || pos + 5 > buf.len() {
        None
    } else {
        let n = be16(buf, pos + 3);
        if buf.len() < pos + 5 + n {
            None
        } else {
            let rb = buf.subrange(pos, pos + 5 + n);
            let found = if rb[0] == 0x16 && n >= 4 {
                match record_spec(rb, pos) {
                    Ok((rec, _)) => if rec.payload.len() > 0 && rec.payload[0] == 0x0b {
                        record_chain(rb, rec.payload)
                    } else {
                        None
                    },
                    Err(_) => None,
                }
            } else {
                None
            };
            if found is Some {
                found
            } else {
                scan_chain(buf, pos + 5 + n)
            }
        }
    }
}

/// Outcome of the read loop.
pub struct RawOutcome {
    /// The `ServerHello` (the probe fails without one).
    pub server_hello: Option<ServerHello>,
    /// Bytes of the `ServerHello` record.
    pub server_hello_raw: Vec<u8>,
    /// Certificate chain, when it came in the clear.
    pub cert_chain: Option<CertificateChain>,
    /// Every byte read.
    pub buf: Vec<u8>,
}

/// State of the read loop.
pub struct DriveState {
    buf: Vec<u8>,
    server_hello: Option<ServerHello>,
    server_hello_raw: Vec<u8>,
    cert_chain: Option<CertificateChain>,
}

/// The view of an optional `ServerHello`.
pub open spec fn sh_view(s: Option<ServerHello>) -> Option<ServerHelloV> {
    match s {
        Some(h) => Some(h@),
        None => None,
    }
}

/// The view of an optional chain.
pub open spec fn chain_view(c: Option<CertificateChain>) -> Option<Seq<CertInfoV>> {
    match c {
        Some(ch) => Some(cert_views(ch.0@)),
        None => None,
    }
}

/// What the read loop holds: its bytes and its catch.
pub struct DriveV {
    pub buf: Seq<u8>,
    pub caught: CaughtV,
}

impl View for DriveState {
    type V = DriveV;

    closed spec fn view(&self) -> DriveV {
        DriveV {
            buf: self.buf@,
            caught: CaughtV {
                server_hello: sh_view(self.server_hello),
                server_hello_raw: self.server_hello_raw@,
                chain: chain_view(self.cert_chain),
            },
        }
    }
}

/// What the loop does after a chunk: whether to stop, and the version and
/// cipher of a `ServerHello` caught by this chunk.
pub struct DataStep {
    /// Stop reading.
    pub stop: bool,
    /// A `ServerHello` first caught now: its real version and cipher suite.
    pub new_server_hello: Option<(TlsVersion, u16)>,
}

/// A caught state with nothing in it.
pub open spec fn nothing_caught() -> CaughtV {
    CaughtV { server_hello: None, server_hello_raw: Seq::empty(), chain: None }
}

fn absorb_one(
    rb: &[u8],
    pos: usize,
    server_hello: &mut Option<ServerHello>,
    server_hello_raw: &mut Vec<u8>,
    cert_chain: &mut Option<CertificateChain>,
)
    requires
        pos + 3 <= usize::MAX,
    ensures
        absorb_record(
            CaughtV {
                server_hello: sh_view(*old(server_hello)),
                server_hello_raw: old(server_hello_raw)@,
                chain: chain_view(*old(cert_chain)),
            },
            rb@,
            pos as int,
        ) == (CaughtV {
            server_hello: sh_view(*final(server_hello)),
            server_hello_raw: final(server_hello_raw)@,
            chain: chain_view(*final(cert_chain)),
        }),
{
    match TlsRecord::parse(rb, pos) {
        Ok((rec, _)) => {
            if rec.content_type == ContentType::Handshake && rec.payload.len() > 0 {
                if rec.payload[0] == 0x02 && server_hello.is_none() {
                    match ServerHello::parse(rb) {
                        Ok(sh) => {
                            *server_hello = Some(sh);
                            let mut raw: Vec<u8> = Vec::new();
                            extend(&mut raw, rb);
                            *server_hello_raw = raw;
                        },
                        Err(_) => {},
                    }
                } else if rec.payload[0] == 0x0b {
                    match CertificateChain::parse_tls_certificate(rb) {
                        Ok(c) => {
                            *cert_chain = Some(c);
                        },
                        Err(_) => match CertificateChain::parse_tls_certificate(rec.payload.as_slice()) {
                            Ok(c) => {
                                *cert_chain = Some(c);
                            },
                            Err(_) => {},
                        },
                    }
                }
            }
        },
        Err(_) => {},
    }
}

impl DriveState {
    /// An empty read loop.
    pub fn new() -> (r: DriveState)
        ensures
            r@.buf == Seq::<u8>::empty(),
            r@.caught == nothing_caught(),
    {
        DriveState { buf: Vec::new(), server_hello: None, server_hello_raw: Vec::new(), cert_chain: None }
    }

    /// Take a chunk read from the socket: rescan the complete records of
    /// everything read so far, and say whether to stop.
    pub fn on_data(&mut self, chunk: &[u8]) -> (step: DataStep)
        ensures
            final(self)@.buf == old(self)@.buf + chunk@,
            final(self)@.caught == absorb_from(final(self)@.buf, 0, old(self)@.caught),
            step.stop == (caught_enough(final(self)@.caught) || final(self)@.buf.len() > 65536),
            match step.new_server_hello {
                Some((v, c)) => old(self)@.caught.server_hello is None && (final(self)@.caught.server_hello matches Some(
                    sh,
                ) && v == real_version_spec(sh.legacy_version, sh.extensions) && c == sh.cipher_suite),
                None => !(old(self)@.caught.server_hello is None && final(self)@.caught.server_hello is Some),
            },
    {
        let had = self.server_hello.is_some();
        extend(&mut self.buf, chunk);
        let ghost b = self.buf@;
        let ghost c0 = self@.caught;
        let mut pos: usize = 0;
        let mut go = true;
        while go && pos < self.buf.len() && self.buf.len() - pos >= 5
            invariant
                self.buf@ == b,
                pos <= b.len(),
                absorb_from(b, 0, c0) == (if go {
                    absorb_from(b, pos as int, self@.caught)
                } else {
                    self@.caught
                }),
            decreases b.len() - pos + (if go { 1int } else { 0int }),
        {
            let n = read_be16(self.buf.as_slice(), pos + 3) as usize;
            if self.buf.len() - pos - 5 < n {
                go = false;
            } else {
                let rb = slice_subrange(self.buf.as_slice(), pos, pos + 5 + n);
                absorb_one(rb, pos, &mut self.server_hello, &mut self.server_hello_raw, &mut self.cert_chain);
                if rb[0] == 0x15 {
                    go = false;
                } else {
                    pos = pos + 5 + n;
                }
            }
        }
        let enough = match &self.server_hello {
            Some(sh) => self.cert_chain.is_some() || sh.real_version() == TlsVersion::Tls13,
            None => false,
        };
        let new_server_hello = if !had {
            match &self.server_hello {
                Some(sh) => Some((sh.real_version(), sh.cipher_suite)),
                None => None,
            }
        } else {
            None
        };
        DataStep { stop: enough || self.buf.len() > 65536, new_server_hello }
    }

    /// An idle poll (the read timed out): stop once a `ServerHello` is in,
    /// or past 64 KiB.
    pub fn on_idle(&self) -> (stop: bool)
        ensures
            stop == (self@.caught.server_hello is Some || self@.buf.len() > 65536),
    {
        self.server_hello.is_some() || self.buf.len() > 65536
    }

    /// The outcome: the catch, with a chain found by rescanning every byte
    /// when none was caught.
    pub fn finish(self) -> (r: RawOutcome)
        ensures
            sh_view(r.server_hello) == self@.caught.server_hello,
            r.server_hello_raw@ == self@.caught.server_hello_raw,
            r.buf@ == self@.buf,
            chain_view(r.cert_chain) == match self@.caught.chain {
                Some(c) => Some(c),
                None => scan_chain(self@.buf, 0),
            },
    {
        let chain = match self.cert_chain {
            Some(c) => Some(c),
            None => scan(&self.buf),
        };
        RawOutcome { server_hello: self.server_hello, server_hello_raw: self.server_hello_raw, cert_chain: chain, buf: self.buf }
    }
}

/// The chain of the first `Certificate` record of `buf` that parses.
fn scan(buf: &Vec<u8>) -> (r: Option<CertificateChain>)
    ensures
        chain_view(r) == scan_chain(buf@, 0),
{
    let mut pos: usize = 0;
    while pos < buf.len() && buf.len() - pos >= 5
        invariant
            pos <= buf@.len(),
            scan_chain(buf@, 0) == scan_chain(buf@, pos as int),
        decreases buf.len() - pos,
    {
        let n = read_be16(buf.as_slice(), pos + 3) as usize;
        if buf.len() - pos - 5 < n {
            return None;
        }
        let rb = slice_subrange(buf.as_slice(), pos, pos + 5 + n);
        if rb[0] == 0x16 && n >= 4 {
            match TlsRecord::parse(rb, pos) {
                Ok((rec, _)) => {
                    if rec.payload.len() > 0 && rec.payload[0] == 0x0b {
                        match CertificateChain::parse_tls_certificate(rb) {
                            Ok(c) => {
                                return Some(c);
                            },
                            Err(_) => {},
                        }
                        match CertificateChain::parse_tls_certificate(rec.payload.as_slice()) {
                            Ok(c) => {
                                return Some(c);
                            },
                            Err(_) => {},
                        }
                    }
                },
                Err(_) => {},
            }
        }
        pos = pos + 5 + n;
    }
    None
}

} // verus!
