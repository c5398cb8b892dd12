//! `ClientHello` extraction from a reassembled stream.
//!
//! The stream is scanned for TLS records: at each position holding `0x16`
//! a record is parsed; a handshake record whose first payload byte is
//! `0x01` is parsed as a `ClientHello` (kept when that succeeds), and the
//! scan moves past the record. Where no record parses, the scan moves on
//! by one byte; an incomplete trailing record is ignored.

use crate::error::ErrV;
use crate::tls::client_hello::{client_hello_spec, ClientHello, ClientHelloV};
use crate::tls::record::{record_spec, ContentType, RecordV, TlsRecord};
use vstd::prelude::*;
use vstd::slice::slice_subrange;

verus! {

/// A parsed record takes at least its header and at most the buffer.
pub proof fn lemma_record_len(buf: Seq<u8>, offset: int)
    requires
        record_spec(buf, offset) is Ok,
    ensures
        5 <= record_spec(buf, offset)->Ok_0.1 <= buf.len(),
{
}

/// The `ClientHello`s found scanning `s` from `pos`.
pub open spec fn scan_hellos(s: Seq<u8>, pos: int) -> Seq<ClientHelloV>
    decreases s.len() - pos,
{
    if pos < 0 || pos + 5 > s.len() {
        Seq::empty()
    } else if s[pos] != 0x16 {
        scan_hellos(s, pos + 1)
    } else {
        match record_spec(s.skip(pos), pos) {
            Ok((rec, n)) => {
                proof {
                    lemma_record_len(s.skip(pos), pos);
                }
                let found = if rec.content_type == ContentType::Handshake && rec.payload.len() > 0
                    && rec.payload[0] == 0x01 {
                    match client_hello_spec(s.subrange(pos, pos + n)) {
                        Ok(ch) => seq![ch],
                        Err(_) => Seq::empty(),
                    }
                } else {
                    Seq::empty()
                };
                found + scan_hellos(s, pos + n)
            },
            Err(_) => scan_hellos(s, pos + 1),
        }
    }
}

/// The views of a list of `ClientHello`s.
pub open spec fn hello_views(v: Seq<ClientHello>) -> Seq<ClientHelloV> {
    v.map_values(|c: ClientHello| c@)
}

/// Every `ClientHello` in a reassembled TCP stream, in stream order.
pub fn extract_client_hellos(stream: &[u8]) -> (res: Vec<ClientHello>)
    ensures
        hello_views(res@) == scan_hellos(stream@, 0),
{
    let mut out: Vec<ClientHello> = Vec::new();
    let mut pos: usize = 0;
    while pos < stream.len() && stream.len() - pos >= 5
        invariant
            pos <= stream@.len(),
            scan_hellos(stream@, 0) == hello_views(out@) + scan_hellos(stream@, pos as int),
        decreases stream.len() - pos,
    {
        let ghost prev = hello_views(out@);
        if stream[pos] != 0x16 {
            pos += 1;
            continue;
        }
        let rec_slice = slice_subrange(stream, pos, stream.len());
        assert(rec_slice@ =~= stream@.skip(pos as int));
        match TlsRecord::parse(rec_slice, pos) {
            Ok((rec, consumed)) => {
                proof {
                    lemma_record_len(stream@.skip(pos as int), pos as int);
                }
                let ghost mut found = Seq::<ClientHelloV>::empty();
                if rec.content_type == ContentType::Handshake && rec.payload.len() > 0 && rec.payload[0] == 0x01 {
                    let full_record = slice_subrange(stream, pos, pos + consumed);
                    match ClientHello::parse(full_record) {
                        Ok(ch) => {
                            out.push(ch);
                            proof {
                                found = seq![ch@];
                            }
                        },
                        Err(_) => {},
                    }
                }
                assert(hello_views(out@) =~= prev + found);
                pos += consumed;
            },
            Err(_) => {
                pos += 1;
            },
        }
    }
    assert(hello_views(out@) + Seq::<ClientHelloV>::empty() =~= hello_views(out@));
    out
}

/// The scan resyncs past junk: bytes holding no `0x16` in front of a
/// stream change nothing that is extracted from it.
pub proof fn lemma_scan_skips_noise(noise: Seq<u8>, s: Seq<u8>)
    requires
        forall|i: int| 0 <= i < noise.len() ==> noise[i] != 0x16,
    ensures
        scan_hellos(noise + s, 0) == scan_hellos(s, 0),
{
    lemma_noise_prefix(noise, s, 0);
    crate::tls::roundtrip::lemma_scan_shift(noise, s, 0);
}

proof fn lemma_noise_prefix(noise: Seq<u8>, s: Seq<u8>, i: int)
    requires
        0 <= i <= noise.len(),
        forall|k: int| 0 <= k < noise.len() ==> noise[k] != 0x16,
    ensures
        scan_hellos(noise + s, i) == scan_hellos(noise + s, noise.len() as int),
    decreases noise.len() - i,
{
    let t = noise + s;
    if i < noise.len() {
        lemma_noise_prefix(noise, s, i + 1);
        if i + 5 <= t.len() {
            assert(t[i] == noise[i]);
        } else {
            assert(noise.len() + 5 > t.len());
        }
    }
}

} // verus!
