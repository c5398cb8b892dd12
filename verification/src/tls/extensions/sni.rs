//! SNI (`0x0000`) parsing.

use super::common::{bad_extension, bad_extension_text};
use crate::error::{dec_of, detail_two};
use crate::util::text::dec;
use crate::error::{KindV, ParseKind};
use crate::tls::bytes::{be16, read_be16};
use crate::tls::record::slice_tail;
use crate::util::text::{utf8_text, utf8_lossy};
use vstd::prelude::*;

verus! {

/// The host name in an SNI payload `list_len(2) || type(1) || len(2) ||
/// name`. A list shorter than an entry, or an entry that is not a host
/// name, gives the empty name; lengths beyond the data are malformed.
pub open spec fn sni_spec(data: Seq<u8>) -> Option<Seq<char>> {
    if data.len() < 2 {
        None
    } else {
        let list_len = be16(data, 0);
        if data.len() < 2 + list_len {
            None
        } else if list_len < 3 || data[2] != 0 {
            Some(Seq::empty())
        } else {
            let name_len = be16(data, 3);
            if 5 + name_len > data.len() {
                None
            } else {
                Some(utf8_text(data.subrange(5, 5 + name_len)))
            }
        }
    }
}

/// Why an SNI payload is malformed (the detail of its error).
pub open spec fn sni_fault(data: Seq<u8>) -> Seq<char> {
    if data.len() < 2 {
        "SNI too short for list length"@
    } else if data.len() < 2 + be16(data, 0) {
        "SNI list_len "@ + dec(be16(data, 0) as nat) + " exceeds data "@ + dec((data.len() - 2) as nat)
    } else {
        "SNI name_len exceeds data"@
    }
}

/// Parse SNI `data` into the host name.
pub fn parse(data: &[u8]) -> (res: Result<String, ParseKind>)
    ensures
        match res {
            Ok(s) => sni_spec(data@) == Some(s@),
            Err(k) => sni_spec(data@) is None
                && k@ == (KindV::BadExtension { ext_type: 0x0000, detail: sni_fault(data@) }),
        },
{
    if data.len() < 2 {
        return Err(bad_extension(0x0000, "SNI too short for list length"));
    }
    let list_len = read_be16(data, 0) as usize;
    if data.len() < 2 + list_len {
        return Err(bad_extension_text(0x0000, detail_two("SNI list_len ", &dec_of(list_len), " exceeds data ", &dec_of(data.len() - 2))));
    }
    if list_len < 3 {
        return Ok(String::new());
    }
    if data[2] != 0 {
        return Ok(String::new());
    }
    let name_len = read_be16(data, 3) as usize;
    if 5 + name_len > data.len() {
        return Err(bad_extension(0x0000, "SNI name_len exceeds data"));
    }
    let name = vstd::slice::slice_subrange(data, 5, 5 + name_len);
    Ok(utf8_lossy(name))
}

} // verus!
