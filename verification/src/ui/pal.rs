//! The palette: cold steel for structure, hot amber and magenta for the
//! grab, green for a clean catch.

use crate::ui::theme::Rgb;
use vstd::prelude::*;

verus! {

/// Deep shadow, the far end of fading rules.
#[verifier::allow_in_spec]
pub fn void() -> Rgb
    returns
        Rgb(0x1b, 0x1f, 0x2a),
{
    Rgb(0x1b, 0x1f, 0x2a)
}

/// Borders and inactive structure.
#[verifier::allow_in_spec]
pub fn steel() -> Rgb
    returns
        Rgb(0x3f, 0x4b, 0x63),
{
    Rgb(0x3f, 0x4b, 0x63)
}

/// Labels and secondary text.
#[verifier::allow_in_spec]
pub fn mist() -> Rgb
    returns
        Rgb(0x8a, 0x9a, 0xb8),
{
    Rgb(0x8a, 0x9a, 0xb8)
}

/// Primary values.
#[verifier::allow_in_spec]
pub fn chrome() -> Rgb
    returns
        Rgb(0xdf, 0xe7, 0xf5),
{
    Rgb(0xdf, 0xe7, 0xf5)
}

/// Cold accent.
#[verifier::allow_in_spec]
pub fn cyan() -> Rgb
    returns
        Rgb(0x35, 0xd7, 0xd0),
{
    Rgb(0x35, 0xd7, 0xd0)
}

/// Cool mid accent.
#[verifier::allow_in_spec]
pub fn azure() -> Rgb
    returns
        Rgb(0x4c, 0x9a, 0xf5),
{
    Rgb(0x4c, 0x9a, 0xf5)
}

/// Hot accent.
#[verifier::allow_in_spec]
pub fn amber() -> Rgb
    returns
        Rgb(0xff, 0xb3, 0x47),
{
    Rgb(0xff, 0xb3, 0x47)
}

/// Signature accent: fingerprints.
#[verifier::allow_in_spec]
pub fn magenta() -> Rgb
    returns
        Rgb(0xe8, 0x5d, 0xd6),
{
    Rgb(0xe8, 0x5d, 0xd6)
}

/// Clean catch.
#[verifier::allow_in_spec]
pub fn lime() -> Rgb
    returns
        Rgb(0x6d, 0xe8, 0x8f),
{
    Rgb(0x6d, 0xe8, 0x8f)
}

/// Warning.
#[verifier::allow_in_spec]
pub fn rust() -> Rgb
    returns
        Rgb(0xff, 0x6b, 0x5f),
{
    Rgb(0xff, 0x6b, 0x5f)
}

} // verus!
