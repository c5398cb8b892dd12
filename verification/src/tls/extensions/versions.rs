//! Supported Versions (`0x002b`) parsing.
//!
//! `ClientHello`: `len(1) || versions*`. `ServerHello`: a single
//! `version(2)`. A bare even-length list of at most 20 bytes is accepted
//! as a fallback.

use super::common::{bad_extension_text, read_u16s, u16s};
use crate::error::{dec_of, detail_value};
use crate::util::text::dec;
use crate::error::{KindV, ParseKind};
use crate::tls::bytes::be16;
use vstd::prelude::*;

verus! {

/// The version list of a `supported_versions` payload.
pub open spec fn versions_spec(data: Seq<u8>) -> Option<Seq<u16>> {
    if data.len() == 0 {
        Some(Seq::empty())
    } else if data[0] as int + 1 == data.len() && (data[0] as int) % 2 == 0 {
        Some(u16s(data, 1, (data[0] as int / 2) as nat))
    } else if data.len() == 2 {
        Some(seq![be16(data, 0) as u16])
    } else if data.len() % 2 == 0 && data.len() <= 20 {
        Some(u16s(data, 0, data.len() / 2))
    } else {
        None
    }
}

/// Parse `data` into the version list.
pub fn parse(data: &[u8]) -> (res: Result<Vec<u16>, ParseKind>)
    ensures
        match res {
            Ok(v) => versions_spec(data@) == Some(v@),
            Err(k) => versions_spec(data@) is None && k@ == (KindV::BadExtension {
                ext_type: 0x002b,
                detail: "supported_versions malformed len "@ + dec(data@.len()),
            }),
        },
{
    if data.len() == 0 {
        return Ok(Vec::new());
    }
    let list_len = data[0] as usize;
    if list_len + 1 == data.len() && list_len % 2 == 0 {
        return Ok(read_u16s(data, 1, list_len / 2));
    }
    if data.len() == 2 {
        let v = read_u16s(data, 0, 1);
        assert(v@ =~= seq![be16(data@, 0) as u16]);
        return Ok(v);
    }
    if data.len() % 2 == 0 && data.len() <= 20 {
        return Ok(read_u16s(data, 0, data.len() / 2));
    }
    Err(bad_extension_text(0x002b, detail_value("supported_versions malformed len ", &dec_of(data.len()))))
}

} // verus!
