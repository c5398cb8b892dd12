//! TLS record layer.
//!
//! Every TLS message on the wire starts with a 5-byte header: content
//! type (1), legacy version (2, big-endian), payload length (2,
//! big-endian), then the payload. The length is bounded to 16384
//! (RFC 8446 §5.1); larger lengths are rejected.

use crate::error::{eof, eof_err, ErrV, GripError, GripResult, KindV, ParseKind};
use crate::tls::bytes::{be16, copy_range, read_be16, u16_be};
use crate::util::text::{chars_of, string_of};
use vstd::prelude::*;

verus! {

/// TLS content type (first byte of a record header).
#[derive(Debug, Clone, Copy, PartialEq, Eq, Structural)]
pub enum ContentType {
    /// `0x14`.
    ChangeCipherSpec,
    /// `0x15`.
    Alert,
    /// `0x16` — handshake messages.
    Handshake,
    /// `0x17`.
    ApplicationData,
    /// Any other byte, preserved.
    Unknown(u8),
}

/// The content type a header byte denotes.
pub open spec fn content_type_of(b: u8) -> ContentType {
    if b == 0x14 {
        ContentType::ChangeCipherSpec
    } else if b == 0x15 {
        ContentType::Alert
    } else if b == 0x16 {
        ContentType::Handshake
    } else if b == 0x17 {
        ContentType::ApplicationData
    } else {
        ContentType::Unknown(b)
    }
}

/// The header byte of a content type.
pub open spec fn content_type_byte(c: ContentType) -> u8 {
    match c {
        ContentType::ChangeCipherSpec => 0x14,
        ContentType::Alert => 0x15,
        ContentType::Handshake => 0x16,
        ContentType::ApplicationData => 0x17,
        ContentType::Unknown(v) => v,
    }
}

impl From<u8> for ContentType {
    /// Content type of a header byte.
    fn from(b: u8) -> (c: Self) {
        if b == 0x14 {
            ContentType::ChangeCipherSpec
        } else if b == 0x15 {
            ContentType::Alert
        } else if b == 0x16 {
            ContentType::Handshake
        } else if b == 0x17 {
            ContentType::ApplicationData
        } else {
            ContentType::Unknown(b)
        }
    }
}

impl vstd::std_specs::convert::FromSpecImpl<u8> for ContentType {
    open spec fn obeys_from_spec() -> bool {
        true
    }

    open spec fn from_spec(b: u8) -> ContentType {
        content_type_of(b)
    }
}

impl From<ContentType> for u8 {
    /// Header byte of a content type.
    fn from(c: ContentType) -> (b: u8) {
        match c {
            ContentType::ChangeCipherSpec => 0x14,
            ContentType::Alert => 0x15,
            ContentType::Handshake => 0x16,
            ContentType::ApplicationData => 0x17,
            ContentType::Unknown(v) => v,
        }
    }
}

impl vstd::std_specs::convert::FromSpecImpl<ContentType> for u8 {
    open spec fn obeys_from_spec() -> bool {
        true
    }

    open spec fn from_spec(c: ContentType) -> u8 {
        content_type_byte(c)
    }
}

/// A single TLS record.
#[derive(Debug, Clone, PartialEq, Eq)]
pub struct TlsRecord {
    /// Content type.
    pub content_type: ContentType,
    /// Legacy version (e.g. `0x0303`).
    pub legacy_version: u16,
    /// Payload bytes (exactly `length` bytes from the wire).
    pub payload: Vec<u8>,
}

/// Model of a record.
pub struct RecordV {
    pub content_type: ContentType,
    pub legacy_version: u16,
    pub payload: Seq<u8>,
}

impl View for TlsRecord {
    type V = RecordV;

    open spec fn view(&self) -> RecordV {
        RecordV {
            content_type: self.content_type,
            legacy_version: self.legacy_version,
            payload: self.payload@,
        }
    }
}

impl TlsRecord {
    /// Largest accepted record payload (2^14 bytes).
    pub const MAX_LENGTH: usize = 16384;
}

/// What parsing one record from `buf` gives: the record and the bytes
/// consumed, or the error (offsets are reported relative to `offset`).
pub open spec fn record_spec(buf: Seq<u8>, offset: int) -> Result<(RecordV, nat), ErrV> {
    if buf.len() < 5 {
        Err(eof_err(offset, 5, buf.len() as int))
    } else {
        let length = be16(buf, 3);
        if length > 16384 {
            Err(ErrV::Parse {
                offset: (offset + 3) as nat,
                kind: KindV::BadLength { context: "record"@, length: length as nat },
            })
        } else if buf.len() < 5 + length {
            Err(eof_err(offset, 5 + length, buf.len() as int))
        } else {
            Ok((
                RecordV {
                    content_type: content_type_of(buf[0]),
                    legacy_version: be16(buf, 1) as u16,
                    payload: buf.subrange(5, 5 + length),
                },
                (5 + length) as nat,
            ))
        }
    }
}

/// The records found by scanning `buf` from `pos`: records are read one
/// after another; a trailing fragment shorter than a header ends the scan,
/// any other malformed record is an error.
pub open spec fn records_from(buf: Seq<u8>, pos: int) -> Result<Seq<RecordV>, ErrV>
    decreases buf.len() - pos,
{
    if pos < 0 || pos >= buf.len() || buf.len() - pos < 5 {
        Ok(Seq::empty())
    } else {
        match record_spec(buf.subrange(pos, buf.len() as int), pos) {
            Err(e) => Err(e),
            Ok((r, n)) => match records_from(buf, pos + n) {
                Err(e) => Err(e),
                Ok(rest) => Ok(seq![r] + rest),
            },
        }
    }
}

/// `prefix` in front of the records of a successful scan; errors pass
/// through.
pub open spec fn prepend_records(prefix: Seq<RecordV>, r: Result<Seq<RecordV>, ErrV>) -> Result<
    Seq<RecordV>,
    ErrV,
> {
    match r {
        Ok(t) => Ok(prefix + t),
        Err(e) => Err(e),
    }
}

impl TlsRecord {
    /// Parse a single record from `buf`; `offset` is where `buf` starts in
    /// the enclosing stream and is used for error positions.
    ///
    /// Returns the record and the number of bytes consumed (`5 + length`).
    pub fn parse(buf: &[u8], offset: usize) -> (res: GripResult<(Self, usize)>)
        requires
            offset + 3 <= usize::MAX,
        ensures
            match res {
                Ok((r, n)) => record_spec(buf@, offset as int) == Ok::<(RecordV, nat), ErrV>((r@, n as nat)),
                Err(e) => record_spec(buf@, offset as int) == Err::<(RecordV, nat), ErrV>(e@),
            },
    {
        if buf.len() < 5 {
            return Err(eof(offset, 5, buf.len()));
        }
        let content_type = ContentType::from(buf[0]);
        let legacy_version = read_be16(buf, 1);
        let length = read_be16(buf, 3) as usize;
        if length > Self::MAX_LENGTH {
            let context = string_of(&chars_of("record"));
            return Err(GripError::Parse {
                offset: offset + 3,
                kind: ParseKind::BadLength { context, length },
            });
        }
        if buf.len() < 5 + length {
            return Err(eof(offset, 5 + length, buf.len()));
        }
        let payload = copy_range(buf, 5, 5 + length);
        Ok((TlsRecord { content_type, legacy_version, payload }, 5 + length))
    }

    /// Parse all records in `buf` (e.g. a reassembled TCP stream).
    ///
    /// A trailing fragment shorter than a header is ignored; the first
    /// malformed record is an error.
    pub fn parse_all(buf: &[u8]) -> (res: GripResult<Vec<Self>>)
        ensures
            match res {
                Ok(v) => records_from(buf@, 0) == Ok::<Seq<RecordV>, ErrV>(v@.map_values(|r: TlsRecord| r@)),
                Err(e) => records_from(buf@, 0) == Err::<Seq<RecordV>, ErrV>(e@),
            },
    {
        let mut records: Vec<TlsRecord> = Vec::new();
        let mut pos: usize = 0;
        while pos < buf.len()
            invariant
                pos <= buf@.len(),
                records_from(buf@, 0) == prepend_records(
                    records@.map_values(|r: TlsRecord| r@),
                    records_from(buf@, pos as int),
                ),
            ensures
                pos <= buf@.len(),
                pos >= buf@.len() || buf@.len() - pos < 5,
                records_from(buf@, 0) == prepend_records(
                    records@.map_values(|r: TlsRecord| r@),
                    records_from(buf@, pos as int),
                ),
            decreases buf.len() - pos,
        {
            if buf.len() - pos < 5 {
                break;
            }
            let ghost old_records = records@.map_values(|r: TlsRecord| r@);
            let tail = slice_tail(buf, pos);
            match Self::parse(tail, pos) {
                Ok((rec, consumed)) => {
                    records.push(rec);
                    proof {
                        let new_records = records@.map_values(|r: TlsRecord| r@);
                        assert(new_records =~= old_records + seq![rec@]);
                        match records_from(buf@, (pos + consumed) as int) {
                            Ok(t) => {
                                assert(old_records + (seq![rec@] + t) =~= new_records + t);
                            },
                            Err(_) => {},
                        }
                    }
                    pos += consumed;
                },
                Err(e) => {
                    return Err(e);
                },
            }
        }
        proof {
            let rv = records@.map_values(|r: TlsRecord| r@);
            assert(rv + Seq::<RecordV>::empty() =~= rv);
        }
        Ok(records)
    }
}

/// The bytes of `buf` from `start` on.
pub fn slice_tail(buf: &[u8], start: usize) -> (res: &[u8])
    requires
        start <= buf@.len(),
    ensures
        res@ == buf@.subrange(start as int, buf@.len() as int),
{
    vstd::slice::slice_subrange(buf, start, buf.len())
}

/// The bytes of one record: content type, version and payload length
/// (big-endian), payload.
pub open spec fn record_bytes(r: RecordV) -> Seq<u8> {
    seq![content_type_byte(r.content_type)] + u16_be(r.legacy_version as int) + u16_be(r.payload.len() as int)
        + r.payload
}

/// Records back to back.
pub open spec fn records_bytes(rs: Seq<RecordV>) -> Seq<u8>
    decreases rs.len(),
{
    if rs.len() == 0 {
        Seq::empty()
    } else {
        record_bytes(rs[0]) + records_bytes(rs.drop_first())
    }
}

/// Whether a record can be written and read back as it is: a payload of
/// at most 16384 bytes, and a content type its header byte denotes.
pub open spec fn writable_record(r: RecordV) -> bool {
    r.payload.len() <= 16384 && content_type_of(content_type_byte(r.content_type)) == r.content_type
}

proof fn lemma_be16_of(s: Seq<u8>, i: int, v: int)
    requires
        0 <= v < 65536,
        0 <= i,
        i + 2 <= s.len(),
        s.subrange(i, i + 2) == u16_be(v),
    ensures
        be16(s, i) == v,
{
    assert(s[i] == u16_be(v)[0]);
    assert(s[i + 1] == u16_be(v)[1]);
    assert(((v / 256) % 256) * 256 + v % 256 == v) by (nonlinear_arith)
        requires
            0 <= v < 65536,
    ;
}

proof fn lemma_records_from(pre: Seq<u8>, rs: Seq<RecordV>)
    requires
        forall|i: int| 0 <= i < rs.len() ==> writable_record(#[trigger] rs[i]),
    ensures
        records_from(pre + records_bytes(rs), pre.len() as int) == Ok::<Seq<RecordV>, ErrV>(rs),
    decreases rs.len(),
{
    let d = pre + records_bytes(rs);
    if rs.len() == 0 {
        assert(d =~= pre);
        assert(rs =~= Seq::<RecordV>::empty());
    } else {
        let r0 = rs[0];
        let rest = rs.drop_first();
        assert(writable_record(r0));
        assert forall|i: int| 0 <= i < rest.len() implies writable_record(#[trigger] rest[i]) by {
            assert(rest[i] == rs[i + 1]);
        }
        let rb = record_bytes(r0);
        let p = pre.len() as int;
        let n = r0.payload.len() as int;
        assert(records_bytes(rs) == rb + records_bytes(rest));
        assert(d =~= (pre + rb) + records_bytes(rest));
        let buf = d.subrange(p, d.len() as int);
        assert(buf.subrange(1, 3) =~= u16_be(r0.legacy_version as int));
        assert(buf.subrange(3, 5) =~= u16_be(n));
        lemma_be16_of(buf, 1, r0.legacy_version as int);
        lemma_be16_of(buf, 3, n);
        assert(buf[0] == content_type_byte(r0.content_type));
        assert(buf.subrange(5, 5 + n) =~= r0.payload);
        assert(record_spec(buf, p) == Ok::<(RecordV, nat), ErrV>((r0, (5 + n) as nat)));
        lemma_records_from(pre + rb, rest);
        assert((pre + rb).len() == p + 5 + n);
        assert(records_from(d, p + 5 + n) == Ok::<Seq<RecordV>, ErrV>(rest));
        assert(seq![r0] + rest =~= rs);
        assert(records_from(d, p) == Ok::<Seq<RecordV>, ErrV>(seq![r0] + rest));
    }
}

/// Records written back to back read back as exactly those records.
pub proof fn lemma_records_read_back(rs: Seq<RecordV>)
    requires
        forall|i: int| 0 <= i < rs.len() ==> writable_record(#[trigger] rs[i]),
    ensures
        records_from(records_bytes(rs), 0) == Ok::<Seq<RecordV>, ErrV>(rs),
{
    lemma_records_from(Seq::<u8>::empty(), rs);
    assert(Seq::<u8>::empty() + records_bytes(rs) =~= records_bytes(rs));
}

} // verus!
