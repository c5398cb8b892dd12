//! Length-prefixed integer lists shared by extension parsers.

use crate::error::{dec_of, detail_text, detail_two, KindV, ParseKind};
use crate::tls::bytes::{be16, read_be16, copy_range};
use crate::util::text::{chars_of, dec, string_of};
use vstd::prelude::*;

verus! {

/// `count` big-endian `u16` values stored from `start` on.
pub open spec fn u16s(data: Seq<u8>, start: int, count: nat) -> Seq<u16> {
    Seq::new(count, |i: int| be16(data, start + 2 * i) as u16)
}

/// A `u16` list `len(2) || u16*`: the length must fit in the data and be
/// even.
pub open spec fn u16_list_spec(data: Seq<u8>) -> Option<Seq<u16>> {
    if data.len() < 2 {
        None
    } else {
        let len = be16(data, 0);
        if len + 2 > data.len() || len % 2 != 0 {
            None
        } else {
            Some(u16s(data, 2, (len / 2) as nat))
        }
    }
}

/// Why a `u16` list is malformed (the detail of its error).
pub open spec fn u16_list_fault(data: Seq<u8>) -> Seq<char> {
    if data.len() < 2 {
        "u16 list too short"@
    } else if be16(data, 0) + 2 > data.len() {
        "u16 list len "@ + dec(be16(data, 0) as nat) + " exceeds data "@ + dec((data.len() - 2) as nat)
    } else {
        "u16 list len "@ + dec(be16(data, 0) as nat) + " not divisible by 2"@
    }
}

/// A `u8` list `len(1) || u8*`; empty data is an empty list.
pub open spec fn u8_list_spec(data: Seq<u8>) -> Option<Seq<u8>> {
    if data.len() == 0 {
        Some(Seq::empty())
    } else {
        let len = data[0] as int;
        if len + 1 > data.len() {
            None
        } else {
            Some(data.subrange(1, len + 1))
        }
    }
}

/// Reads `count` big-endian `u16` values from `start`.
pub fn read_u16s(data: &[u8], start: usize, count: usize) -> (res: Vec<u16>)
    requires
        start + 2 * count <= data@.len(),
    ensures
        res@ == u16s(data@, start as int, count as nat),
{
    let mut out: Vec<u16> = Vec::with_capacity(count);
    let mut i: usize = 0;
    while i < count
        invariant
            i <= count,
            start + 2 * count <= data.len(),
            out@ == u16s(data@, start as int, i as nat),
        decreases count - i,
    {
        let v = read_be16(data, start + 2 * i);
        out.push(v);
        i += 1;
        assert(out@ =~= u16s(data@, start as int, i as nat));
    }
    out
}

/// A `BadExtension` error for `ext_type` with a fixed detail.
pub fn bad_extension(ext_type: u16, detail: &str) -> (k: ParseKind)
    ensures
        k@ == (KindV::BadExtension { ext_type, detail: detail@ }),
{
    ParseKind::BadExtension { ext_type, detail: string_of(&chars_of(detail)) }
}

/// A `BadExtension` error for `ext_type` with the given detail.
pub fn bad_extension_text(ext_type: u16, detail: String) -> (k: ParseKind)
    ensures
        k@ == (KindV::BadExtension { ext_type, detail: detail@ }),
{
    ParseKind::BadExtension { ext_type, detail }
}

/// Parse a `u16` list: `len(2) || u16*`.
pub fn parse_u16_list(data: &[u8]) -> (res: Result<Vec<u16>, ParseKind>)
    ensures
        match res {
            Ok(v) => u16_list_spec(data@) == Some(v@),
            Err(k) => u16_list_spec(data@) is None
                && k@ == (KindV::BadExtension { ext_type: 0xffff, detail: u16_list_fault(data@) }),
        },
{
    if data.len() < 2 {
        return Err(bad_extension(0xffff, "u16 list too short"));
    }
    let len = read_be16(data, 0) as usize;
    if len + 2 > data.len() {
        return Err(bad_extension_text(0xffff, detail_two("u16 list len ", &dec_of(len), " exceeds data ", &dec_of(data.len() - 2))));
    }
    if len % 2 != 0 {
        return Err(bad_extension_text(0xffff, detail_text("u16 list len ", &dec_of(len), " not divisible by 2")));
    }
    Ok(read_u16s(data, 2, len / 2))
}

/// Parse a `u8` list: `len(1) || u8*` (EC point formats).
pub fn parse_u8_list(data: &[u8]) -> (res: Result<Vec<u8>, ParseKind>)
    ensures
        match res {
            Ok(v) => u8_list_spec(data@) == Some(v@),
            Err(k) => u8_list_spec(data@) is None
                && k@ == (KindV::BadExtension { ext_type: 0x000b, detail: "u8 list len "@ + dec(data@[0] as nat) + " exceeds data "@
                    + dec((data@.len() - 1) as nat) }),
        },
{
    if data.len() == 0 {
        return Ok(Vec::new());
    }
    let len = data[0] as usize;
    if len + 1 > data.len() {
        return Err(bad_extension_text(0x000b, detail_two("u8 list len ", &dec_of(len), " exceeds data ", &dec_of(data.len() - 1))));
    }
    Ok(copy_range(data, 1, len + 1))
}

} // verus!
