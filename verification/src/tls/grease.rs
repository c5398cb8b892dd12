//! GREASE handling per RFC 8701.
//!
//! Browsers insert reserved `0xXaXa` values into cipher suites,
//! extensions and other vectors so servers learn to ignore unknown values.
//! JA3/JA4 strip them before hashing; JA4 also excludes them from counts
//! and sorting (filter first, then sort).

use vstd::prelude::*;

verus! {

/// All 16 GREASE values: `0x0a0a, 0x1a1a, …, 0xfafa`.
pub const GREASE_VALUES: [u16; 16] = [
    0x0a0a, 0x1a1a, 0x2a2a, 0x3a3a, 0x4a4a, 0x5a5a, 0x6a6a, 0x7a7a, 0x8a8a, 0x9a9a, 0xaaaa, 0xbaba,
    0xcaca, 0xdada, 0xeaea, 0xfafa,
];

/// A GREASE value: both bytes equal, low nibble `0xa`.
pub open spec fn grease(v: u16) -> bool {
    v / 256 == v % 256 && v % 16 == 10
}

/// The values of `s` that are not GREASE, in their original order.
pub open spec fn without_grease(s: Seq<u16>) -> Seq<u16> {
    s.filter(|v: u16| !grease(v))
}

/// Returns `true` if `value` is a GREASE sentinel.
pub fn is_grease(value: u16) -> (r: bool)
    ensures
        r == grease(value),
{
    value / 256 == value % 256 && value % 16 == 10
}

/// Removes GREASE values, preserving the order of the rest.
pub fn filter_grease(values: &[u16]) -> (res: Vec<u16>)
    ensures
        res@ == without_grease(values@),
{
    let mut out: Vec<u16> = Vec::new();
    let mut i: usize = 0;
    while i < values.len()
        invariant
            i <= values@.len(),
            out@ == without_grease(values@.take(i as int)),
        decreases values.len() - i,
    {
        proof {
            assert(values@.take(i + 1).drop_last() == values@.take(i as int));
            reveal_with_fuel(Seq::<u16>::filter, 1);
        }
        if !is_grease(values[i]) {
            out.push(values[i]);
        }
        i += 1;
    }
    proof {
        assert(values@.take(values@.len() as int) == values@);
    }
    out
}

/// Extension type ids use the same GREASE code points.
pub fn is_grease_ext(ext_type: u16) -> (r: bool)
    ensures
        r == grease(ext_type),
{
    is_grease(ext_type)
}

} // verus!
