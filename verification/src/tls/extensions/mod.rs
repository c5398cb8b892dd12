//! TLS extensions.
//!
//! Each extension is `type(2) || length(2) || data(length)`; they are
//! walked linearly. The extensions that fingerprinting needs are parsed
//! into structured values; every other one, and any known one whose
//! payload is malformed, is kept as [`Extension::Unknown`].

pub mod alpn;
pub mod common;
pub mod key_share;
pub mod sni;
pub mod versions;

use crate::error::{eof, eof_err, ErrV, GripResult};
use crate::tls::bytes::{be16, copy_range, read_be16};
use vstd::prelude::*;

verus! {

/// Entry inside a `KeyShare` extension.
#[derive(Debug, Clone, PartialEq, Eq)]
pub struct KeyShareEntry {
    /// Named group.
    pub group: u16,
    /// Public key bytes.
    pub key_exchange: Vec<u8>,
}

/// Model of a key-share entry.
pub struct KeyShareV {
    pub group: u16,
    pub key_exchange: Seq<u8>,
}

impl View for KeyShareEntry {
    type V = KeyShareV;

    open spec fn view(&self) -> KeyShareV {
        KeyShareV { group: self.group, key_exchange: self.key_exchange@ }
    }
}

/// A parsed TLS extension.
#[derive(Debug, Clone, PartialEq, Eq)]
pub enum Extension {
    /// `0x0000` — Server Name Indication.
    Sni(String),
    /// `0x000a` — Supported Groups.
    SupportedGroups(Vec<u16>),
    /// `0x000b` — EC Point Formats.
    EcPointFormats(Vec<u8>),
    /// `0x000d` — Signature Algorithms.
    SignatureAlgorithms(Vec<u16>),
    /// `0x0010` — ALPN.
    Alpn(Vec<String>),
    /// `0x002b` — Supported Versions.
    SupportedVersions(Vec<u16>),
    /// `0x0033` — Key Share.
    KeyShare(Vec<KeyShareEntry>),
    /// Any other extension, or a known one kept opaque.
    Unknown(u16, Vec<u8>),
}

/// Model of an extension.
pub enum ExtV {
    Sni(Seq<char>),
    SupportedGroups(Seq<u16>),
    EcPointFormats(Seq<u8>),
    SignatureAlgorithms(Seq<u16>),
    Alpn(Seq<Seq<char>>),
    SupportedVersions(Seq<u16>),
    KeyShare(Seq<KeyShareV>),
    Unknown(u16, Seq<u8>),
}

impl View for Extension {
    type V = ExtV;

    open spec fn view(&self) -> ExtV {
        match self {
            Extension::Sni(s) => ExtV::Sni(s@),
            Extension::SupportedGroups(v) => ExtV::SupportedGroups(v@),
            Extension::EcPointFormats(v) => ExtV::EcPointFormats(v@),
            Extension::SignatureAlgorithms(v) => ExtV::SignatureAlgorithms(v@),
            Extension::Alpn(v) => ExtV::Alpn(v@.map_values(|s: String| s@)),
            Extension::SupportedVersions(v) => ExtV::SupportedVersions(v@),
            Extension::KeyShare(v) => ExtV::KeyShare(v@.map_values(|e: KeyShareEntry| e@)),
            Extension::Unknown(t, d) => ExtV::Unknown(*t, d@),
        }
    }
}

/// Model of a list of extensions.
pub open spec fn exts_view(v: Seq<Extension>) -> Seq<ExtV> {
    v.map_values(|e: Extension| e@)
}

/// The numeric type id of an extension.
pub open spec fn ext_type_of(e: ExtV) -> u16 {
    match e {
        ExtV::Sni(_) => 0x0000,
        ExtV::SupportedGroups(_) => 0x000a,
        ExtV::EcPointFormats(_) => 0x000b,
        ExtV::SignatureAlgorithms(_) => 0x000d,
        ExtV::Alpn(_) => 0x0010,
        ExtV::SupportedVersions(_) => 0x002b,
        ExtV::KeyShare(_) => 0x0033,
        ExtV::Unknown(t, _) => t,
    }
}

impl Extension {
    /// The numeric extension type id.
    pub fn ext_type(&self) -> (t: u16)
        ensures
            t == ext_type_of(self@),
    {
        match self {
            Extension::Sni(_) => 0x0000,
            Extension::SupportedGroups(_) => 0x000a,
            Extension::EcPointFormats(_) => 0x000b,
            Extension::SignatureAlgorithms(_) => 0x000d,
            Extension::Alpn(_) => 0x0010,
            Extension::SupportedVersions(_) => 0x002b,
            Extension::KeyShare(_) => 0x0033,
            Extension::Unknown(t, _) => *t,
        }
    }
}

/// The structured reading of extension `ext_type` with payload `data`,
/// or `None` when a known extension's payload is malformed.
pub open spec fn single_spec(ext_type: u16, data: Seq<u8>) -> Option<ExtV> {
    if ext_type == 0x0000 {
        match sni::sni_spec(data) {
            Some(s) => Some(ExtV::Sni(s)),
            None => None,
        }
    } else if ext_type == 0x000a {
        match common::u16_list_spec(data) {
            Some(v) => Some(ExtV::SupportedGroups(v)),
            None => None,
        }
    } else if ext_type == 0x000b {
        match common::u8_list_spec(data) {
            Some(v) => Some(ExtV::EcPointFormats(v)),
            None => None,
        }
    } else if ext_type == 0x000d {
        match common::u16_list_spec(data) {
            Some(v) => Some(ExtV::SignatureAlgorithms(v)),
            None => None,
        }
    } else if ext_type == 0x0010 {
        match alpn::alpn_spec(data) {
            Some(v) => Some(ExtV::Alpn(v)),
            None => None,
        }
    } else if ext_type == 0x002b {
        match versions::versions_spec(data) {
            Some(v) => Some(ExtV::SupportedVersions(v)),
            None => None,
        }
    } else if ext_type == 0x0033 {
        match key_share::key_share_spec(data) {
            Some(v) => Some(ExtV::KeyShare(v)),
            None => None,
        }
    } else {
        Some(ExtV::Unknown(ext_type, data))
    }
}

/// The extension read from type and payload; a malformed known payload
/// becomes `Unknown`.
pub open spec fn ext_or_unknown(ext_type: u16, data: Seq<u8>) -> ExtV {
    match single_spec(ext_type, data) {
        Some(e) => e,
        None => ExtV::Unknown(ext_type, data),
    }
}

/// The extensions of `buf` from `pos` on.
pub open spec fn exts_from(buf: Seq<u8>, pos: int) -> Result<Seq<ExtV>, ErrV>
    decreases buf.len() - pos,
{
    if pos < 0 || pos >= buf.len() {
        Ok(Seq::empty())
    } else if buf.len() - pos < 4 {
        Err(eof_err(pos, 4, buf.len() - pos))
    } else {
        let ext_type = be16(buf, pos) as u16;
        let ext_len = be16(buf, pos + 2);
        if buf.len() - (pos + 4) < ext_len {
            Err(eof_err(pos + 4, ext_len, buf.len() - (pos + 4)))
        } else {
            match exts_from(buf, pos + 4 + ext_len) {
                Ok(rest) => Ok(seq![ext_or_unknown(ext_type, buf.subrange(pos + 4, pos + 4 + ext_len))] + rest),
                Err(e) => Err(e),
            }
        }
    }
}

/// `prefix` in front of a successful scan; errors pass through.
pub open spec fn prepend_exts(prefix: Seq<ExtV>, r: Result<Seq<ExtV>, ErrV>) -> Result<Seq<ExtV>, ErrV> {
    match r {
        Ok(t) => Ok(prefix + t),
        Err(e) => Err(e),
    }
}

/// The type ids on the wire of the extension blocks of `buf` from `pos`
/// on, as far as the blocks are complete.
pub open spec fn wire_types(buf: Seq<u8>, pos: int) -> Seq<u16>
    decreases buf.len() - pos,
{
    if pos < 0 || pos >= buf.len() || buf.len() - pos < 4 {
        Seq::empty()
    } else {
        let ext_len = be16(buf, pos + 2);
        if buf.len() - (pos + 4) < ext_len {
            Seq::empty()
        } else {
            seq![be16(buf, pos) as u16] + wire_types(buf, pos + 4 + ext_len)
        }
    }
}

/// Whatever a payload parses into, the extension keeps its wire type.
pub proof fn lemma_ext_keeps_type(ext_type: u16, data: Seq<u8>)
    ensures
        ext_type_of(ext_or_unknown(ext_type, data)) == ext_type,
{
}

/// The type of each parsed extension is the type id written on the wire
/// for it, in order, whichever variant its payload parsed into.
pub proof fn lemma_parsed_types_are_wire_types(buf: Seq<u8>, pos: int)
    requires
        exts_from(buf, pos) is Ok,
    ensures
        exts_from(buf, pos)->Ok_0.map_values(|e: ExtV| ext_type_of(e)) == wire_types(buf, pos),
    decreases buf.len() - pos,
{
    if pos < 0 || pos >= buf.len() {
        assert(exts_from(buf, pos)->Ok_0.map_values(|e: ExtV| ext_type_of(e)) =~= Seq::<u16>::empty());
    } else {
        let ext_type = be16(buf, pos) as u16;
        let ext_len = be16(buf, pos + 2);
        let next = pos + 4 + ext_len;
        lemma_parsed_types_are_wire_types(buf, next);
        let e = ext_or_unknown(ext_type, buf.subrange(pos + 4, next));
        lemma_ext_keeps_type(ext_type, buf.subrange(pos + 4, next));
        let rest = exts_from(buf, next)->Ok_0;
        assert((seq![e] + rest).map_values(|x: ExtV| ext_type_of(x)) =~= seq![ext_type] + rest.map_values(
            |x: ExtV| ext_type_of(x),
        ));
    }
}

/// Parse one extension's payload.
pub fn parse_single(ext_type: u16, data: &[u8]) -> (res: Option<Extension>)
    ensures
        match res {
            Some(e) => single_spec(ext_type, data@) == Some(e@),
            None => single_spec(ext_type, data@) is None,
        },
{
    if ext_type == 0x0000 {
        match sni::parse(data) {
            Ok(s) => Some(Extension::Sni(s)),
            Err(_) => None,
        }
    } else if ext_type == 0x000a {
        match common::parse_u16_list(data) {
            Ok(v) => Some(Extension::SupportedGroups(v)),
            Err(_) => None,
        }
    } else if ext_type == 0x000b {
        match common::parse_u8_list(data) {
            Ok(v) => Some(Extension::EcPointFormats(v)),
            Err(_) => None,
        }
    } else if ext_type == 0x000d {
        match common::parse_u16_list(data) {
            Ok(v) => Some(Extension::SignatureAlgorithms(v)),
            Err(_) => None,
        }
    } else if ext_type == 0x0010 {
        match alpn::parse(data) {
            Ok(v) => Some(Extension::Alpn(v)),
            Err(_) => None,
        }
    } else if ext_type == 0x002b {
        match versions::parse(data) {
            Ok(v) => Some(Extension::SupportedVersions(v)),
            Err(_) => None,
        }
    } else if ext_type == 0x0033 {
        match key_share::parse(data) {
            Ok(v) => Some(Extension::KeyShare(v)),
            Err(_) => None,
        }
    } else {
        let d = copy_range(data, 0, data.len());
        assert(d@ =~= data@);
        Some(Extension::Unknown(ext_type, d))
    }
}

/// Parse a raw extensions block (without its 2-byte length prefix) into
/// extensions, in wire order.
pub fn parse_extensions(buf: &[u8]) -> (res: GripResult<Vec<Extension>>)
    ensures
        match res {
            Ok(v) => exts_from(buf@, 0) == Ok::<Seq<ExtV>, ErrV>(exts_view(v@)),
            Err(e) => exts_from(buf@, 0) == Err::<Seq<ExtV>, ErrV>(e@),
        },
{
    let mut exts: Vec<Extension> = Vec::new();
    let mut pos: usize = 0;
    while pos < buf.len()
        invariant
            pos <= buf@.len(),
            exts_from(buf@, 0) == prepend_exts(exts_view(exts@), exts_from(buf@, pos as int)),
        decreases buf.len() - pos,
    {
        if buf.len() - pos < 4 {
            return Err(eof(pos, 4, buf.len() - pos));
        }
        let ext_type = read_be16(buf, pos);
        let ext_len = read_be16(buf, pos + 2) as usize;
        pos += 4;
        if buf.len() - pos < ext_len {
            return Err(eof(pos, ext_len, buf.len() - pos));
        }
        let data = vstd::slice::slice_subrange(buf, pos, pos + ext_len);
        let ghost before = exts_view(exts@);
        let ext = match parse_single(ext_type, data) {
            Some(e) => e,
            None => {
                let d = copy_range(data, 0, data.len());
                assert(d@ =~= data@);
                Extension::Unknown(ext_type, d)
            },
        };
        let ghost ev = ext@;
        assert(ev == ext_or_unknown(ext_type, buf@.subrange(pos as int, pos + ext_len)));
        exts.push(ext);
        proof {
            let after = exts_view(exts@);
            assert(after =~= before + seq![ev]);
            match exts_from(buf@, (pos + ext_len) as int) {
                Ok(t) => {
                    assert(before + (seq![ev] + t) =~= after + t);
                },
                Err(_) => {},
            }
        }
        pos += ext_len;
    }
    proof {
        let v = exts_view(exts@);
        assert(v + Seq::<ExtV>::empty() =~= v);
    }
    Ok(exts)
}

} // verus!
