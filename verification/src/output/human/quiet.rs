//! `--quiet`: the single value, for piping.

use crate::util::text::{chars_of, string_of};
use vstd::prelude::*;

verus! {

/// The quiet output: the value and a newline.
pub fn render_quiet(fingerprint: &str) -> (r: String)
    ensures
        r@ == fingerprint@ + "\n"@,
{
    let mut v = chars_of(fingerprint);
    v.push('\n');
    proof {
        reveal_strlit("\n");
    }
    assert(v@ =~= fingerprint@ + "\n"@);
    string_of(&v)
}

} // verus!
