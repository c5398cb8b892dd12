//! ALPN (`0x0010`) parsing.

use super::common::{bad_extension, bad_extension_text};
use crate::error::{dec_of, detail_text};
use crate::util::text::dec;
use crate::error::{KindV, ParseKind};
use crate::tls::bytes::{be16, read_be16};
use crate::util::text::{utf8_text, opt_prepend, utf8_lossy};
use vstd::prelude::*;

verus! {

/// The protocol names of the list occupying `data[pos..end]`: each is
/// `len(1) || name`; a name running past `end` is malformed.
pub open spec fn alpn_items(data: Seq<u8>, pos: int, end: int) -> Option<Seq<Seq<char>>>
    decreases end - pos,
{
    if pos >= end {
        Some(Seq::empty())
    } else {
        let len = data[pos] as int;
        if pos + 1 + len > end {
            None
        } else {
            opt_prepend(
                seq![utf8_text(data.subrange(pos + 1, pos + 1 + len))],
                alpn_items(data, pos + 1 + len, end),
            )
        }
    }
}

/// The protocol list of an ALPN payload `list_len(2) || items`.
pub open spec fn alpn_spec(data: Seq<u8>) -> Option<Seq<Seq<char>>> {
    if data.len() < 2 {
        None
    } else {
        let list_len = be16(data, 0);
        if list_len + 2 > data.len() {
            None
        } else {
            alpn_items(data, 2, 2 + list_len)
        }
    }
}

/// Why an ALPN payload is malformed (the detail of its error).
pub open spec fn alpn_fault(data: Seq<u8>) -> Seq<char> {
    if data.len() < 2 {
        "ALPN too short"@
    } else if be16(data, 0) + 2 > data.len() {
        "ALPN list len "@ + dec(be16(data, 0) as nat) + " exceeds data"@
    } else {
        "ALPN string length exceeds list"@
    }
}

/// Parse ALPN `data` into the protocol list.
pub fn parse(data: &[u8]) -> (res: Result<Vec<String>, ParseKind>)
    ensures
        match res {
            Ok(v) => alpn_spec(data@) == Some(v@.map_values(|s: String| s@)),
            Err(k) => alpn_spec(data@) is None
                && k@ == (KindV::BadExtension { ext_type: 0x0010, detail: alpn_fault(data@) }),
        },
{
    if data.len() < 2 {
        return Err(bad_extension(0x0010, "ALPN too short"));
    }
    let list_len = read_be16(data, 0) as usize;
    if list_len + 2 > data.len() {
        return Err(bad_extension_text(0x0010, detail_text("ALPN list len ", &dec_of(list_len), " exceeds data")));
    }
    let mut out: Vec<String> = Vec::new();
    let mut pos: usize = 2;
    let end = 2 + list_len;
    while pos < end
        invariant
            2 <= pos,
            end <= data@.len(),
            end == 2 + be16(data@, 0),
            alpn_spec(data@) == opt_prepend(
                out@.map_values(|s: String| s@),
                alpn_items(data@, pos as int, end as int),
            ),
        decreases end - pos,
    {
        let ghost before = out@.map_values(|s: String| s@);
        let str_len = data[pos] as usize;
        if str_len > end - pos - 1 {
            return Err(bad_extension(0x0010, "ALPN string length exceeds list"));
        }
        let name = vstd::slice::slice_subrange(data, pos + 1, pos + 1 + str_len);
        let s = utf8_lossy(name);
        out.push(s);
        proof {
            let after = out@.map_values(|s: String| s@);
            assert(after =~= before + seq![utf8_text(data@.subrange(pos + 1, pos + 1 + str_len))]);
            match alpn_items(data@, pos + 1 + str_len, end as int) {
                Some(t) => {
                    assert(before + (seq![utf8_text(data@.subrange(pos + 1, pos + 1 + str_len))] + t)
                        =~= after + t);
                },
                None => {},
            }
        }
        pos = pos + 1 + str_len;
    }
    proof {
        let v = out@.map_values(|s: String| s@);
        assert(v + Seq::<Seq<char>>::empty() =~= v);
    }
    Ok(out)
}

} // verus!
