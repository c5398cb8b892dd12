//! Key Share (`0x0033`) parsing.
//!
//! `ClientHello`: `list_len(2) || entries*`, each entry
//! `group(2) || key_len(2) || key`. `ServerHello`: one entry without the
//! outer length. Both are handled.

use super::common::{bad_extension, bad_extension_text};
use crate::error::{dec_of, detail_value};
use crate::util::text::dec;
use super::{KeyShareEntry, KeyShareV};
use crate::error::{KindV, ParseKind};
use crate::tls::bytes::{be16, copy_range, read_be16};
use crate::util::text::opt_prepend;
use vstd::prelude::*;

verus! {

/// The entries packed in `data[pos..end]`. Reading stops when fewer than
/// 4 bytes remain; a key running past `end` is malformed.
pub open spec fn key_share_entries(data: Seq<u8>, pos: int, end: int) -> Option<Seq<KeyShareV>>
    decreases end - pos,
{
    if pos + 4 > end {
        Some(Seq::empty())
    } else {
        let key_len = be16(data, pos + 2);
        if pos + 4 + key_len > end {
            None
        } else {
            opt_prepend(
                seq![KeyShareV {
                    group: be16(data, pos) as u16,
                    key_exchange: data.subrange(pos + 4, pos + 4 + key_len),
                }],
                key_share_entries(data, pos + 4 + key_len, end),
            )
        }
    }
}

/// The entries of a key-share payload: a list whose length covers the
/// data exactly, otherwise a single entry whose key covers the rest.
pub open spec fn key_share_spec(data: Seq<u8>) -> Option<Seq<KeyShareV>> {
    if data.len() < 2 {
        None
    } else if be16(data, 0) + 2 == data.len() {
        key_share_entries(data, 2, data.len() as int)
    } else if data.len() >= 4 && 4 + be16(data, 2) == data.len() {
        Some(seq![KeyShareV { group: be16(data, 0) as u16, key_exchange: data.subrange(4, data.len() as int) }])
    } else {
        None
    }
}

/// Why a key-share payload is malformed (the detail of its error).
pub open spec fn key_share_fault(data: Seq<u8>) -> Seq<char> {
    if data.len() < 2 {
        "key_share too short"@
    } else if be16(data, 0) + 2 == data.len() {
        "key_share key_len exceeds data"@
    } else {
        "key_share malformed len "@ + dec(data.len())
    }
}

/// Parse `data` into key shares.
pub fn parse(data: &[u8]) -> (res: Result<Vec<KeyShareEntry>, ParseKind>)
    ensures
        match res {
            Ok(v) => key_share_spec(data@) == Some(v@.map_values(|e: KeyShareEntry| e@)),
            Err(k) => key_share_spec(data@) is None
                && k@ == (KindV::BadExtension { ext_type: 0x0033, detail: key_share_fault(data@) }),
        },
{
    if data.len() < 2 {
        return Err(bad_extension(0x0033, "key_share too short"));
    }
    let list_len = read_be16(data, 0) as usize;
    if list_len + 2 == data.len() {
        return parse_list(data, 2, data.len());
    }
    if data.len() >= 4 {
        let group = read_be16(data, 0);
        let key_len = read_be16(data, 2) as usize;
        if 4 + key_len == data.len() {
            let entry = KeyShareEntry { group, key_exchange: copy_range(data, 4, data.len()) };
            let mut v: Vec<KeyShareEntry> = Vec::new();
            v.push(entry);
            assert(v@.map_values(|e: KeyShareEntry| e@) =~= seq![entry@]);
            return Ok(v);
        }
    }
    Err(bad_extension_text(0x0033, detail_value("key_share malformed len ", &dec_of(data.len()))))
}

/// The entries in `data[pos..end]`.
fn parse_list(data: &[u8], pos: usize, end: usize) -> (res: Result<Vec<KeyShareEntry>, ParseKind>)
    requires
        pos <= end <= data@.len(),
    ensures
        match res {
            Ok(v) => key_share_entries(data@, pos as int, end as int) == Some(v@.map_values(|e: KeyShareEntry| e@)),
            Err(k) => key_share_entries(data@, pos as int, end as int) is None
                && k@ == (KindV::BadExtension { ext_type: 0x0033, detail: "key_share key_len exceeds data"@ }),
        },
{
    let mut out: Vec<KeyShareEntry> = Vec::new();
    let mut p = pos;
    while end - p >= 4
        invariant
            pos <= p <= end <= data@.len(),
            key_share_entries(data@, pos as int, end as int) == opt_prepend(
                out@.map_values(|e: KeyShareEntry| e@),
                key_share_entries(data@, p as int, end as int),
            ),
        decreases end - p,
    {
        let ghost before = out@.map_values(|e: KeyShareEntry| e@);
        let group = read_be16(data, p);
        let key_len = read_be16(data, p + 2) as usize;
        if key_len > end - p - 4 {
            return Err(bad_extension(0x0033, "key_share key_len exceeds data"));
        }
        let entry = KeyShareEntry { group, key_exchange: copy_range(data, p + 4, p + 4 + key_len) };
        let ghost ev = entry@;
        out.push(entry);
        proof {
            let after = out@.map_values(|e: KeyShareEntry| e@);
            assert(after =~= before + seq![ev]);
            match key_share_entries(data@, (p + 4 + key_len) as int, end as int) {
                Some(t) => {
                    assert(before + (seq![ev] + t) =~= after + t);
                },
                None => {},
            }
        }
        p = p + 4 + key_len;
    }
    proof {
        let v = out@.map_values(|e: KeyShareEntry| e@);
        assert(v + Seq::<KeyShareV>::empty() =~= v);
    }
    Ok(out)
}

} // verus!
