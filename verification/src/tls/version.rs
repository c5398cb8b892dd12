//! TLS version handling.
//!
//! The `legacy_version` field lies for TLS 1.3: it always reads `0x0303`.
//! The real version is in the `supported_versions` extension (`0x002b`);
//! this module centralizes that logic.

use crate::tls::extensions::{exts_view, ExtV, Extension};
use crate::tls::grease::{filter_grease, without_grease};
use crate::util::text::{chars_of, dec, dec_string, hex4, push_hex4, push_str, string_of};
use vstd::prelude::*;

verus! {

/// TLS protocol version as seen on the wire.
#[derive(Debug, Clone, Copy, PartialEq, Eq, Structural, Hash, PartialOrd, Ord)]
pub enum TlsVersion {
    /// SSL 3.0 — `0x0300`.
    Ssl30,
    /// TLS 1.0 — `0x0301`.
    Tls10,
    /// TLS 1.1 — `0x0302`.
    Tls11,
    /// TLS 1.2 — `0x0303`.
    Tls12,
    /// TLS 1.3 — `0x0304`.
    Tls13,
    /// Unknown / future version.
    Unknown(u16),
}

/// The version a wire value denotes.
pub open spec fn version_of(v: u16) -> TlsVersion {
    if v == 0x0300 {
        TlsVersion::Ssl30
    } else if v == 0x0301 {
        TlsVersion::Tls10
    } else if v == 0x0302 {
        TlsVersion::Tls11
    } else if v == 0x0303 {
        TlsVersion::Tls12
    } else if v == 0x0304 {
        TlsVersion::Tls13
    } else {
        TlsVersion::Unknown(v)
    }
}

/// The wire value of a version.
pub open spec fn wire_of(v: TlsVersion) -> u16 {
    match v {
        TlsVersion::Ssl30 => 0x0300,
        TlsVersion::Tls10 => 0x0301,
        TlsVersion::Tls11 => 0x0302,
        TlsVersion::Tls12 => 0x0303,
        TlsVersion::Tls13 => 0x0304,
        TlsVersion::Unknown(x) => x,
    }
}

/// Two-digit JA4 code of a version; unknown versions are `00`.
pub open spec fn ja4_code(v: TlsVersion) -> Seq<char> {
    match v {
        TlsVersion::Ssl30 => "30"@,
        TlsVersion::Tls10 => "10"@,
        TlsVersion::Tls11 => "11"@,
        TlsVersion::Tls12 => "12"@,
        TlsVersion::Tls13 => "13"@,
        TlsVersion::Unknown(_) => "00"@,
    }
}

/// Display name of a version.
pub open spec fn version_text(v: TlsVersion) -> Seq<char> {
    match v {
        TlsVersion::Ssl30 => "SSL 3.0"@,
        TlsVersion::Tls10 => "TLS 1.0"@,
        TlsVersion::Tls11 => "TLS 1.1"@,
        TlsVersion::Tls12 => "TLS 1.2"@,
        TlsVersion::Tls13 => "TLS 1.3"@,
        TlsVersion::Unknown(x) => "Unknown(0x"@ + hex4(x) + ")"@,
    }
}

impl TlsVersion {
    /// Convert a raw wire value.
    pub fn from_u16(v: u16) -> (r: Self)
        ensures
            r == version_of(v),
    {
        match v {
            0x0300 => TlsVersion::Ssl30,
            0x0301 => TlsVersion::Tls10,
            0x0302 => TlsVersion::Tls11,
            0x0303 => TlsVersion::Tls12,
            0x0304 => TlsVersion::Tls13,
            other => TlsVersion::Unknown(other),
        }
    }

    /// Raw wire value.
    pub fn as_u16(self) -> (r: u16)
        ensures
            r == wire_of(self),
    {
        match self {
            TlsVersion::Ssl30 => 0x0300,
            TlsVersion::Tls10 => 0x0301,
            TlsVersion::Tls11 => 0x0302,
            TlsVersion::Tls12 => 0x0303,
            TlsVersion::Tls13 => 0x0304,
            TlsVersion::Unknown(v) => v,
        }
    }

    /// Two-digit string for JA4, e.g. `13` for TLS 1.3; unknown is `00`.
    pub fn ja4_str(self) -> (r: &'static str)
        ensures
            r@ == ja4_code(self),
    {
        match self {
            TlsVersion::Ssl30 => "30",
            TlsVersion::Tls10 => "10",
            TlsVersion::Tls11 => "11",
            TlsVersion::Tls12 => "12",
            TlsVersion::Tls13 => "13",
            TlsVersion::Unknown(_) => "00",
        }
    }

    /// Decimal string for JA3, e.g. `771` for TLS 1.2.
    pub fn ja3_decimal(self) -> (r: String)
        ensures
            r@ == dec(wire_of(self) as nat),
    {
        dec_string(self.as_u16() as u64)
    }

    /// Display name, e.g. `TLS 1.3` or `Unknown(0x9999)`.
    pub fn name(self) -> (r: String)
        ensures
            r@ == version_text(self),
    {
        match self {
            TlsVersion::Ssl30 => string_of(&chars_of("SSL 3.0")),
            TlsVersion::Tls10 => string_of(&chars_of("TLS 1.0")),
            TlsVersion::Tls11 => string_of(&chars_of("TLS 1.1")),
            TlsVersion::Tls12 => string_of(&chars_of("TLS 1.2")),
            TlsVersion::Tls13 => string_of(&chars_of("TLS 1.3")),
            TlsVersion::Unknown(v) => {
                let mut out: Vec<char> = Vec::new();
                push_str(&mut out, "Unknown(0x");
                push_hex4(&mut out, v);
                push_str(&mut out, ")");
                string_of(&out)
            },
        }
    }
}

/// Largest value of a non-empty sequence.
pub open spec fn seq_max(s: Seq<u16>) -> u16
    decreases s.len(),
{
    if s.len() <= 1 {
        s[0]
    } else {
        let m = seq_max(s.drop_last());
        if s.last() > m {
            s.last()
        } else {
            m
        }
    }
}

/// The real version: the highest non-GREASE version of the first
/// `supported_versions` extension that lists one, otherwise the legacy
/// field.
pub open spec fn real_version_spec(legacy: u16, exts: Seq<ExtV>) -> TlsVersion
    decreases exts.len(),
{
    if exts.len() == 0 {
        version_of(legacy)
    } else {
        match exts[0] {
            ExtV::SupportedVersions(v) => if without_grease(v).len() > 0 {
                version_of(seq_max(without_grease(v)))
            } else {
                real_version_spec(legacy, exts.drop_first())
            },
            _ => real_version_spec(legacy, exts.drop_first()),
        }
    }
}

/// Largest value of a non-empty list.
pub fn max_u16(v: &Vec<u16>) -> (m: u16)
    requires
        v@.len() > 0,
    ensures
        m == seq_max(v@),
{
    let mut m = v[0];
    let mut i: usize = 1;
    while i < v.len()
        invariant
            1 <= i <= v@.len(),
            m == seq_max(v@.take(i as int)),
        decreases v.len() - i,
    {
        assert(v@.take(i + 1).drop_last() =~= v@.take(i as int));
        if v[i] > m {
            m = v[i];
        }
        i += 1;
    }
    assert(v@.take(v@.len() as int) =~= v@);
    m
}

/// Determine the real TLS version from the legacy field and extensions.
///
/// `supported_versions` wins when present (the highest offered value,
/// GREASE values aside, which for a `ServerHello` is the single negotiated
/// one); otherwise the legacy field is used.
pub fn real_version(legacy_version: u16, extensions: &[Extension]) -> (r: TlsVersion)
    ensures
        r == real_version_spec(legacy_version, exts_view(extensions@)),
{
    let mut i: usize = 0;
    assert(exts_view(extensions@).skip(0) =~= exts_view(extensions@));
    while i < extensions.len()
        invariant
            i <= extensions@.len(),
            real_version_spec(legacy_version, exts_view(extensions@))
                == real_version_spec(legacy_version, exts_view(extensions@).skip(i as int)),
        decreases extensions.len() - i,
    {
        let ghost rest = exts_view(extensions@).skip(i as int);
        assert(rest.drop_first() =~= exts_view(extensions@).skip(i + 1));
        if let Extension::SupportedVersions(versions) = &extensions[i] {
            let offered = filter_grease(versions.as_slice());
            if offered.len() > 0 {
                return TlsVersion::from_u16(max_u16(&offered));
            }
        }
        i += 1;
    }
    TlsVersion::from_u16(legacy_version)
}

} // verus!
