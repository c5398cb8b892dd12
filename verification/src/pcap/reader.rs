//! Pcap reader over the bytes of a capture file: the 24-byte global header
//! and then one 16-byte record header and its data per packet.
//!
//! All four magic variants (microsecond / nanosecond, big / little
//! endian) are recognised. A record whose captured length exceeds a
//! non-zero original length, or 10 MiB, is an error.

use crate::error::GripError;
use crate::tls::bytes::{be32, copy_range, le32, read_be32, read_le32};
use crate::util::text::{dec, dec_chars, hex8, push_all, push_hex8, push_str, string_of};
use vstd::prelude::*;

verus! {

/// Pcap global header fields.
#[derive(Debug, Clone, Copy, PartialEq, Eq, Structural)]
pub struct PcapHeader {
    /// Snaplen.
    pub snaplen: u32,
    /// Link type (DLT).
    pub network: u32,
    /// Whether timestamps are in nanoseconds (else microseconds).
    pub is_nano: bool,
}

/// One packet record.
#[derive(Debug, Clone)]
pub struct PcapRecord {
    /// Seconds since the epoch.
    pub ts_sec: u32,
    /// Microseconds or nanoseconds, as the header says.
    pub ts_frac: u32,
    /// Captured length.
    pub incl_len: u32,
    /// Original length on the wire.
    pub orig_len: u32,
    /// Packet data (`incl_len` bytes).
    pub data: Vec<u8>,
}

/// What a record holds.
pub struct PcapRecordV {
    pub ts_sec: u32,
    pub ts_frac: u32,
    pub incl_len: u32,
    pub orig_len: u32,
    pub data: Seq<u8>,
}

impl View for PcapRecord {
    type V = PcapRecordV;

    open spec fn view(&self) -> PcapRecordV {
        PcapRecordV {
            ts_sec: self.ts_sec,
            ts_frac: self.ts_frac,
            incl_len: self.incl_len,
            orig_len: self.orig_len,
            data: self.data@,
        }
    }
}

/// Reader state: the capture bytes, the read position, the header, the
/// byte order and whether the end was reached.
pub struct PcapReaderV {
    pub data: Seq<u8>,
    pub pos: nat,
    pub header: PcapHeader,
    pub big_endian: bool,
    pub done: bool,
}

/// Iterator-like reader over the records of a capture.
pub struct PcapReader {
    data: Vec<u8>,
    pos: usize,
    header: PcapHeader,
    swapped: bool,
    done: bool,
}

impl View for PcapReader {
    type V = PcapReaderV;

    closed spec fn view(&self) -> PcapReaderV {
        PcapReaderV {
            data: self.data@,
            pos: self.pos as nat,
            header: self.header,
            big_endian: self.swapped,
            done: self.done,
        }
    }
}

/// The message of a read that ran out of bytes.
pub open spec fn eof_text() -> Seq<char> {
    "failed to fill whole buffer"@
}

/// Byte order and timestamp unit of a capture, by its magic number: `(big
/// endian, nanoseconds)`.
pub open spec fn magic_mode(b: Seq<u8>) -> Option<(bool, bool)> {
    let be = be32(b, 0);
    let le = le32(b, 0);
    if be == 0xa1b2_c3d4 {
        Some((true, false))
    } else if be == 0xa1b2_3c4d {
        Some((true, true))
    } else if le == 0xa1b2_c3d4 {
        Some((false, false))
    } else if le == 0xa1b2_3c4d {
        Some((false, true))
    } else {
        None
    }
}

/// The 32-bit value at `i` in the capture's byte order.
pub open spec fn u32_at(b: Seq<u8>, i: int, big_endian: bool) -> u32 {
    if big_endian {
        be32(b, i) as u32
    } else {
        le32(b, i) as u32
    }
}

/// Message for an unrecognised magic number.
pub open spec fn magic_text(b: Seq<u8>) -> Seq<char> {
    "unknown pcap magic 0x"@ + hex8(be32(b, 0) as u32)
}

/// Message for a captured length above the original length.
pub open spec fn incl_text(incl: u32, orig: u32) -> Seq<char> {
    "incl_len "@ + dec(incl as nat) + " > orig_len "@ + dec(orig as nat)
}

/// Message for a packet above 10 MiB.
pub open spec fn too_large_text(incl: u32) -> Seq<char> {
    "packet too large: "@ + dec(incl as nat)
}

/// The reader over capture `d` once its header is read (when its magic
/// number is known).
pub open spec fn opened(d: Seq<u8>) -> PcapReaderV {
    let mode = magic_mode(d)->Some_0;
    PcapReaderV {
        data: d,
        pos: 24,
        header: PcapHeader { snaplen: u32_at(d, 16, mode.0), network: u32_at(d, 20, mode.0), is_nano: mode.1 },
        big_endian: mode.0,
        done: false,
    }
}

/// What reading the next record gives.
pub enum NextV {
    End,
    Record(PcapRecordV),
    IoError(Seq<char>),
    PcapError(Seq<char>),
}

/// The view of a `next` result.
pub open spec fn next_view(r: Option<Result<PcapRecord, GripError>>) -> NextV {
    match r {
        None => NextV::End,
        Some(Ok(rec)) => NextV::Record(rec@),
        Some(Err(GripError::Io(m))) => NextV::IoError(m@),
        Some(Err(GripError::Pcap(m))) => NextV::PcapError(m@),
        Some(Err(_)) => NextV::End,
    }
}

/// Reading one record: the state after it and what it gives.
#[verifier::opaque]
pub open spec fn next_spec(r: PcapReaderV) -> (PcapReaderV, NextV) {
    let d = r.data;
    let p = r.pos as int;
    if r.done {
        (r, NextV::End)
    } else if d.len() < p + 16 {
        (PcapReaderV { done: true, pos: d.len(), ..r }, NextV::End)
    } else {
        let be = r.big_endian;
        let incl = u32_at(d, p + 8, be);
        let orig = u32_at(d, p + 12, be);
        let after = PcapReaderV { pos: (p + 16) as nat, ..r };
        if incl > orig && orig != 0 {
            (after, NextV::PcapError(incl_text(incl, orig)))
        } else if incl > 10 * 1024 * 1024 {
            (after, NextV::PcapError(too_large_text(incl)))
        } else if d.len() < p + 16 + incl {
            (PcapReaderV { pos: d.len(), ..r }, NextV::IoError(eof_text()))
        } else {
            (
                PcapReaderV { pos: (p + 16 + incl) as nat, ..r },
                NextV::Record(
                    PcapRecordV {
                        ts_sec: u32_at(d, p, be),
                        ts_frac: u32_at(d, p + 4, be),
                        incl_len: incl,
                        orig_len: orig,
                        data: d.subrange(p + 16, p + 16 + incl),
                    },
                ),
            )
        }
    }
}

fn read_u32_in(b: &[u8], i: usize, big_endian: bool) -> (v: u32)
    requires
        i + 4 <= b@.len(),
    ensures
        v == u32_at(b@, i as int, big_endian),
{
    if big_endian {
        read_be32(b, i)
    } else {
        read_le32(b, i)
    }
}

fn eof_error() -> (e: GripError)
    ensures
        e matches GripError::Io(m) && m@ == eof_text(),
{
    GripError::Io(string_of(&chars_of_lit()))
}

fn chars_of_lit() -> (v: Vec<char>)
    ensures
        v@ == eof_text(),
{
    let mut v: Vec<char> = Vec::new();
    push_str(&mut v, "failed to fill whole buffer");
    v
}

impl PcapReader {
    /// Open a capture held in `data`: parse its global header.
    ///
    /// An input shorter than the header is an I/O error (the read comes
    /// up short); an unknown magic number is a pcap error.
    pub fn new(data: Vec<u8>) -> (res: Result<PcapReader, GripError>)
        ensures
            match res {
                Ok(r) => {
                    &&& data@.len() >= 24
                    &&& magic_mode(data@) is Some
                    &&& r@ == opened(data@)
                    &&& magic_mode(data@) == Some((r@.big_endian, r@.header.is_nano))
                    &&& r@.header.snaplen == u32_at(data@, 16, r@.big_endian)
                    &&& r@.header.network == u32_at(data@, 20, r@.big_endian)
                    &&& r@.data == data@
                    &&& r@.pos == 24
                    &&& !r@.done
                },
                Err(e) => if data@.len() < 24 {
                    e matches GripError::Io(m) && m@ == eof_text()
                } else {
                    magic_mode(data@) is None && (e matches GripError::Pcap(m) && m@ == magic_text(data@))
                },
            },
    {
        if data.len() < 24 {
            return Err(eof_error());
        }
        let magic_be = read_be32(data.as_slice(), 0);
        let magic_le = read_le32(data.as_slice(), 0);
        let (is_be, is_nano) = if magic_be == 0xa1b2_c3d4 {
            (true, false)
        } else if magic_be == 0xa1b2_3c4d {
            (true, true)
        } else if magic_le == 0xa1b2_c3d4 {
            (false, false)
        } else if magic_le == 0xa1b2_3c4d {
            (false, true)
        } else {
            let mut msg: Vec<char> = Vec::new();
            push_str(&mut msg, "unknown pcap magic 0x");
            push_hex8(&mut msg, magic_be);
            return Err(GripError::pcap(string_of(&msg)));
        };
        let snaplen = read_u32_in(data.as_slice(), 16, is_be);
        let network = read_u32_in(data.as_slice(), 20, is_be);
        Ok(PcapReader { data, pos: 24, header: PcapHeader { snaplen, network, is_nano }, swapped: is_be, done: false })
    }

    /// The global header.
    pub fn header(&self) -> (h: &PcapHeader)
        ensures
            *h == self@.header,
    {
        &self.header
    }

    /// The next record: `None` at the end (fewer than 16 bytes left for a
    /// record header); a pcap error for a bad captured length; an I/O
    /// error when the data is cut short.
    pub fn next(&mut self) -> (res: Option<Result<PcapRecord, GripError>>)
        requires
            old(self)@.pos <= old(self)@.data.len(),
        ensures
            (final(self)@, next_view(res)) == next_spec(old(self)@),
            final(self)@.pos <= final(self)@.data.len(),
            res matches Some(Err(e)) ==> (e is Io || e is Pcap),
    {
        proof {
            reveal(next_spec);
        }
        if self.done {
            return None;
        }
        let p = self.pos;
        let n = self.data.len();
        if n - p < 16 {
            self.done = true;
            self.pos = n;
            return None;
        }
        let be = self.swapped;
        let ts_sec = read_u32_in(self.data.as_slice(), p, be);
        let ts_frac = read_u32_in(self.data.as_slice(), p + 4, be);
        let incl_len = read_u32_in(self.data.as_slice(), p + 8, be);
        let orig_len = read_u32_in(self.data.as_slice(), p + 12, be);
        self.pos = p + 16;
        if incl_len > orig_len && orig_len != 0 {
            let mut msg: Vec<char> = Vec::new();
            push_str(&mut msg, "incl_len ");
            push_all(&mut msg, &dec_chars(incl_len as u64));
            push_str(&mut msg, " > orig_len ");
            push_all(&mut msg, &dec_chars(orig_len as u64));
            return Some(Err(GripError::pcap(string_of(&msg))));
        }
        if incl_len > 10 * 1024 * 1024 {
            let mut msg: Vec<char> = Vec::new();
            push_str(&mut msg, "packet too large: ");
            push_all(&mut msg, &dec_chars(incl_len as u64));
            return Some(Err(GripError::pcap(string_of(&msg))));
        }
        let len = incl_len as usize;
        if n - (p + 16) < len {
            self.pos = n;
            return Some(Err(eof_error()));
        }
        let data = copy_range(self.data.as_slice(), p + 16, p + 16 + len);
        self.pos = p + 16 + len;
        Some(Ok(PcapRecord { ts_sec, ts_frac, incl_len, orig_len, data }))
    }
}

/// The four little-endian bytes of `v`.
pub open spec fn le32_bytes(v: u32) -> Seq<u8> {
    seq![(v % 256) as u8, ((v / 256) % 256) as u8, ((v / 65536) % 256) as u8, (v / 16777216) as u8]
}

/// A little-endian, microsecond capture header (version 2.4) with the
/// given snapshot length and link type.
pub open spec fn capture_header(snaplen: u32, network: u32) -> Seq<u8> {
    le32_bytes(0xa1b2_c3d4) + seq![2u8, 0u8, 4u8, 0u8] + le32_bytes(0) + le32_bytes(0) + le32_bytes(snaplen)
        + le32_bytes(network)
}

/// One little-endian record: its timestamps, lengths and data.
pub open spec fn record_bytes(r: PcapRecordV) -> Seq<u8> {
    le32_bytes(r.ts_sec) + le32_bytes(r.ts_frac) + le32_bytes(r.incl_len) + le32_bytes(r.orig_len) + r.data
}

/// Records back to back.
pub open spec fn records_bytes(rs: Seq<PcapRecordV>) -> Seq<u8>
    decreases rs.len(),
{
    if rs.len() == 0 {
        Seq::empty()
    } else {
        record_bytes(rs[0]) + records_bytes(rs.drop_first())
    }
}

/// What reading `n` more times from `r` gives, in order.
pub open spec fn reads(r: PcapReaderV, n: nat) -> Seq<NextV>
    decreases n,
{
    if n == 0 {
        Seq::empty()
    } else {
        let (r2, x) = next_spec(r);
        seq![x] + reads(r2, (n - 1) as nat)
    }
}

/// Whether a record is one a reader accepts as written: its captured
/// length is its data's length, no larger than its original length, and
/// at most 10 MiB.
pub open spec fn well_formed_record(r: PcapRecordV) -> bool {
    &&& r.data.len() == r.incl_len
    &&& r.incl_len <= r.orig_len
    &&& r.incl_len <= 10 * 1024 * 1024
}

proof fn lemma_le32(s: Seq<u8>, i: int, v: u32)
    requires
        0 <= i,
        i + 4 <= s.len(),
        s.subrange(i, i + 4) == le32_bytes(v),
    ensures
        le32(s, i) == v,
{
    assert(s[i] == le32_bytes(v)[0]);
    assert(s[i + 1] == le32_bytes(v)[1]);
    assert(s[i + 2] == le32_bytes(v)[2]);
    assert(s[i + 3] == le32_bytes(v)[3]);
    let x = v as int;
    assert((x / 16777216) * 16777216 + ((x / 65536) % 256) * 65536 + ((x / 256) % 256) * 256 + x % 256 == x)
        by (nonlinear_arith)
        requires
            0 <= x < 0x1_0000_0000,
    ;
}

#[verifier::rlimit(40)]
proof fn lemma_reads_from(pre: Seq<u8>, rs: Seq<PcapRecordV>, h: PcapHeader)
    requires
        forall|i: int| 0 <= i < rs.len() ==> well_formed_record(#[trigger] rs[i]),
    ensures
        reads(
            PcapReaderV { data: pre + records_bytes(rs), pos: pre.len(), header: h, big_endian: false, done: false },
            rs.len() + 1,
        ) == rs.map_values(|r: PcapRecordV| NextV::Record(r)) + seq![NextV::End],
    decreases rs.len(),
{
    reveal(next_spec);
    let d = pre + records_bytes(rs);
    let st = PcapReaderV { data: d, pos: pre.len(), header: h, big_endian: false, done: false };
    if rs.len() == 0 {
        assert(d =~= pre);
        let (r2, x) = next_spec(st);
        assert(x == NextV::End);
        assert(reads(r2, 0) == Seq::<NextV>::empty());
        assert(rs.map_values(|r: PcapRecordV| NextV::Record(r)) =~= Seq::<NextV>::empty());
        assert(seq![x] + Seq::<NextV>::empty() =~= seq![NextV::End]);
    } else {
        let r0 = rs[0];
        let rest = rs.drop_first();
        assert(well_formed_record(r0));
        assert forall|i: int| 0 <= i < rest.len() implies well_formed_record(#[trigger] rest[i]) by {
            assert(rest[i] == rs[i + 1]);
        }
        let rb = record_bytes(r0);
        let p = pre.len() as int;
        assert(records_bytes(rs) == rb + records_bytes(rest));
        assert(d =~= pre + rb + records_bytes(rest));
        assert(rb.len() == 16 + r0.data.len());
        assert(d.subrange(p, p + 4) =~= le32_bytes(r0.ts_sec));
        assert(d.subrange(p + 4, p + 8) =~= le32_bytes(r0.ts_frac));
        assert(d.subrange(p + 8, p + 12) =~= le32_bytes(r0.incl_len));
        assert(d.subrange(p + 12, p + 16) =~= le32_bytes(r0.orig_len));
        lemma_le32(d, p, r0.ts_sec);
        lemma_le32(d, p + 4, r0.ts_frac);
        lemma_le32(d, p + 8, r0.incl_len);
        lemma_le32(d, p + 12, r0.orig_len);
        assert(d.subrange(p + 16, p + 16 + r0.incl_len) =~= r0.data);
        let next_st = PcapReaderV { pos: (p + 16 + r0.incl_len) as nat, ..st };
        assert(next_spec(st) == (next_st, NextV::Record(r0)));
        lemma_reads_from(pre + rb, rest, h);
        assert(next_st == PcapReaderV {
            data: (pre + rb) + records_bytes(rest),
            pos: (pre + rb).len(),
            header: h,
            big_endian: false,
            done: false,
        });
        assert(rs.map_values(|r: PcapRecordV| NextV::Record(r)) =~= seq![NextV::Record(r0)] + rest.map_values(
            |r: PcapRecordV| NextV::Record(r),
        ));
        assert(reads(st, rs.len() + 1) == seq![NextV::Record(r0)] + reads(next_st, rest.len() + 1));
    }
}

/// A capture written as a little-endian header and well-formed records
/// reads back as exactly those records, then the end: the header is
/// recognised with its snapshot length and link type, and each read gives
/// the next record.
pub proof fn lemma_capture_reads_back(snaplen: u32, network: u32, rs: Seq<PcapRecordV>)
    requires
        forall|i: int| 0 <= i < rs.len() ==> well_formed_record(#[trigger] rs[i]),
    ensures
        ({
            let d = capture_header(snaplen, network) + records_bytes(rs);
            &&& d.len() >= 24
            &&& magic_mode(d) == Some((false, false))
            &&& opened(d).header == (PcapHeader { snaplen, network, is_nano: false })
            &&& reads(opened(d), rs.len() + 1) == rs.map_values(|r: PcapRecordV| NextV::Record(r)) + seq![NextV::End]
        }),
{
    let hd = capture_header(snaplen, network);
    let d = hd + records_bytes(rs);
    assert(hd.len() == 24);
    assert(d.subrange(0, 4) =~= le32_bytes(0xa1b2_c3d4));
    lemma_le32(d, 0, 0xa1b2_c3d4);
    assert(be32(d, 0) != 0xa1b2_c3d4 && be32(d, 0) != 0xa1b2_3c4d) by {
        assert(d[0] == 0xd4u8);
    }
    assert(d.subrange(16, 20) =~= le32_bytes(snaplen));
    assert(d.subrange(20, 24) =~= le32_bytes(network));
    lemma_le32(d, 16, snaplen);
    lemma_le32(d, 20, network);
    let h = PcapHeader { snaplen, network, is_nano: false };
    assert(opened(d) == PcapReaderV { data: hd + records_bytes(rs), pos: hd.len(), header: h, big_endian: false, done: false });
    lemma_reads_from(hd, rs, h);
}

/// The four magic numbers, as the bytes a capture file starts with: each
/// names its byte order and timestamp unit. `d4 c3 b2 a1` is little
/// endian with microseconds, `4d 3c b2 a1` little endian with
/// nanoseconds, `a1 b2 c3 d4` big endian with microseconds, `a1 b2 3c 4d`
/// big endian with nanoseconds; a capture starting with any of them opens
/// in that mode.
pub proof fn lemma_magic_bytes(d: Seq<u8>)
    requires
        d.len() >= 4,
    ensures
        (d[0] == 0xd4 && d[1] == 0xc3 && d[2] == 0xb2 && d[3] == 0xa1) ==> magic_mode(d) == Some((false, false)),
        (d[0] == 0x4d && d[1] == 0x3c && d[2] == 0xb2 && d[3] == 0xa1) ==> magic_mode(d) == Some((false, true)),
        (d[0] == 0xa1 && d[1] == 0xb2 && d[2] == 0xc3 && d[3] == 0xd4) ==> magic_mode(d) == Some((true, false)),
        (d[0] == 0xa1 && d[1] == 0xb2 && d[2] == 0x3c && d[3] == 0x4d) ==> magic_mode(d) == Some((true, true)),
{
}

/// A little-endian, nanosecond capture header (version 2.4) with the
/// given snapshot length and link type.
pub open spec fn nano_capture_header(snaplen: u32, network: u32) -> Seq<u8> {
    le32_bytes(0xa1b2_3c4d) + seq![2u8, 0u8, 4u8, 0u8] + le32_bytes(0) + le32_bytes(0) + le32_bytes(snaplen)
        + le32_bytes(network)
}

/// A little-endian nanosecond capture written record by record opens with
/// its snapshot length, link type and nanosecond timestamps, and reads
/// back exactly those records, then the end.
pub proof fn lemma_nano_capture_reads_back(snaplen: u32, network: u32, rs: Seq<PcapRecordV>)
    requires
        forall|i: int| 0 <= i < rs.len() ==> well_formed_record(#[trigger] rs[i]),
    ensures
        ({
            let d = nano_capture_header(snaplen, network) + records_bytes(rs);
            &&& d.len() >= 24
            &&& magic_mode(d) == Some((false, true))
            &&& opened(d).header == (PcapHeader { snaplen, network, is_nano: true })
            &&& reads(opened(d), rs.len() + 1) == rs.map_values(|r: PcapRecordV| NextV::Record(r)) + seq![NextV::End]
        }),
{
    let hd = nano_capture_header(snaplen, network);
    let d = hd + records_bytes(rs);
    assert(hd.len() == 24);
    assert(d.subrange(0, 4) =~= le32_bytes(0xa1b2_3c4d));
    lemma_le32(d, 0, 0xa1b2_3c4d);
    assert(be32(d, 0) != 0xa1b2_c3d4 && be32(d, 0) != 0xa1b2_3c4d) by {
        assert(d[0] == 0x4du8);
    }
    assert(le32(d, 0) != 0xa1b2_c3d4);
    assert(d.subrange(16, 20) =~= le32_bytes(snaplen));
    assert(d.subrange(20, 24) =~= le32_bytes(network));
    lemma_le32(d, 16, snaplen);
    lemma_le32(d, 20, network);
    let h = PcapHeader { snaplen, network, is_nano: true };
    assert(opened(d) == PcapReaderV { data: hd + records_bytes(rs), pos: hd.len(), header: h, big_endian: false, done: false });
    lemma_reads_from(hd, rs, h);
}

} // verus!
