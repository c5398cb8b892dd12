//! Cipher suite names and display helpers.
//!
//! The IANA names of the suites most commonly seen in `ClientHello`s.
//! Unknown ids are displayed as `0xXXXX`; an unknown cipher is never an
//! error.

use crate::util::text::{chars_of, hex4, push_hex4, push_str, string_of};
use vstd::prelude::*;

verus! {

/// Well-known cipher suite ids.
pub const TLS_AES_128_GCM_SHA256: u16 = 0x1301;
/// Well-known cipher suite ids.
pub const TLS_AES_256_GCM_SHA384: u16 = 0x1302;
/// Well-known cipher suite ids.
pub const TLS_CHACHA20_POLY1305_SHA256: u16 = 0x1303;

/// The IANA name of cipher suite `id`, if it is one we know.
pub open spec fn cipher_name(id: u16) -> Option<Seq<char>> {
    if id == 0x0000 {
        Some("TLS_NULL_WITH_NULL_NULL"@)
    } else if id == 0x0005 {
        Some("TLS_RSA_WITH_RC4_128_SHA"@)
    } else if id == 0x000a {
        Some("TLS_RSA_WITH_3DES_EDE_CBC_SHA"@)
    } else if id == 0x002f {
        Some("TLS_RSA_WITH_AES_128_CBC_SHA"@)
    } else if id == 0x0035 {
        Some("TLS_RSA_WITH_AES_256_CBC_SHA"@)
    } else if id == 0x009c {
        Some("TLS_RSA_WITH_AES_128_GCM_SHA256"@)
    } else if id == 0x009d {
        Some("TLS_RSA_WITH_AES_256_GCM_SHA384"@)
    } else if id == 0x1301 {
        Some("TLS_AES_128_GCM_SHA256"@)
    } else if id == 0x1302 {
        Some("TLS_AES_256_GCM_SHA384"@)
    } else if id == 0x1303 {
        Some("TLS_CHACHA20_POLY1305_SHA256"@)
    } else if id == 0x1304 {
        Some("TLS_AES_128_CCM_SHA256"@)
    } else if id == 0x1305 {
        Some("TLS_AES_128_CCM_8_SHA256"@)
    } else if id == 0xc00a {
        Some("TLS_ECDHE_ECDSA_WITH_AES_256_CBC_SHA"@)
    } else if id == 0xc009 {
        Some("TLS_ECDHE_ECDSA_WITH_AES_128_CBC_SHA"@)
    } else if id == 0xc013 {
        Some("TLS_ECDHE_RSA_WITH_AES_128_CBC_SHA"@)
    } else if id == 0xc014 {
        Some("TLS_ECDHE_RSA_WITH_AES_256_CBC_SHA"@)
    } else if id == 0xc02b {
        Some("TLS_ECDHE_ECDSA_WITH_AES_128_GCM_SHA256"@)
    } else if id == 0xc02c {
        Some("TLS_ECDHE_ECDSA_WITH_AES_256_GCM_SHA384"@)
    } else if id == 0xc02f {
        Some("TLS_ECDHE_RSA_WITH_AES_128_GCM_SHA256"@)
    } else if id == 0xc030 {
        Some("TLS_ECDHE_RSA_WITH_AES_256_GCM_SHA384"@)
    } else if id == 0xcca8 {
        Some("TLS_ECDHE_RSA_WITH_CHACHA20_POLY1305_SHA256"@)
    } else if id == 0xcca9 {
        Some("TLS_ECDHE_ECDSA_WITH_CHACHA20_POLY1305_SHA256"@)
    } else {
        None
    }
}

/// The IANA name for a cipher suite, or `None` if unknown.
pub fn name(id: u16) -> (res: Option<&'static str>)
    ensures
        match res {
            Some(s) => cipher_name(id) == Some(s@),
            None => cipher_name(id) is None,
        },
{
    match id {
        0x0000 => Some("TLS_NULL_WITH_NULL_NULL"),
        0x0005 => Some("TLS_RSA_WITH_RC4_128_SHA"),
        0x000a => Some("TLS_RSA_WITH_3DES_EDE_CBC_SHA"),
        0x002f => Some("TLS_RSA_WITH_AES_128_CBC_SHA"),
        0x0035 => Some("TLS_RSA_WITH_AES_256_CBC_SHA"),
        0x009c => Some("TLS_RSA_WITH_AES_128_GCM_SHA256"),
        0x009d => Some("TLS_RSA_WITH_AES_256_GCM_SHA384"),
        0x1301 => Some("TLS_AES_128_GCM_SHA256"),
        0x1302 => Some("TLS_AES_256_GCM_SHA384"),
        0x1303 => Some("TLS_CHACHA20_POLY1305_SHA256"),
        0x1304 => Some("TLS_AES_128_CCM_SHA256"),
        0x1305 => Some("TLS_AES_128_CCM_8_SHA256"),
        0xc00a => Some("TLS_ECDHE_ECDSA_WITH_AES_256_CBC_SHA"),
        0xc009 => Some("TLS_ECDHE_ECDSA_WITH_AES_128_CBC_SHA"),
        0xc013 => Some("TLS_ECDHE_RSA_WITH_AES_128_CBC_SHA"),
        0xc014 => Some("TLS_ECDHE_RSA_WITH_AES_256_CBC_SHA"),
        0xc02b => Some("TLS_ECDHE_ECDSA_WITH_AES_128_GCM_SHA256"),
        0xc02c => Some("TLS_ECDHE_ECDSA_WITH_AES_256_GCM_SHA384"),
        0xc02f => Some("TLS_ECDHE_RSA_WITH_AES_128_GCM_SHA256"),
        0xc030 => Some("TLS_ECDHE_RSA_WITH_AES_256_GCM_SHA384"),
        0xcca8 => Some("TLS_ECDHE_RSA_WITH_CHACHA20_POLY1305_SHA256"),
        0xcca9 => Some("TLS_ECDHE_ECDSA_WITH_CHACHA20_POLY1305_SHA256"),
        _ => None,
    }
}

/// What [`display`] shows for a cipher suite: its name, or `0x` and four
/// hex digits.
pub open spec fn cipher_display(id: u16) -> Seq<char> {
    match cipher_name(id) {
        Some(n) => n,
        None => "0x"@ + hex4(id),
    }
}

/// A cipher suite as its IANA name, or as `0xXXXX` when unknown.
pub fn display(id: u16) -> (res: String)
    ensures
        res@ == cipher_display(id),
{
    match name(id) {
        Some(n) => string_of(&chars_of(n)),
        None => {
            let mut out: Vec<char> = Vec::new();
            push_str(&mut out, "0x");
            push_hex4(&mut out, id);
            string_of(&out)
        },
    }
}

} // verus!
