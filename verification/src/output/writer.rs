//! Output buffers. The writers for stdout and files belong to the program
//! around the library; rendering here returns lines.

use vstd::prelude::*;

verus! {

/// An empty in-memory buffer to render into.
pub fn test_writer() -> (w: Vec<u8>)
    ensures
        w@ == Seq::<u8>::empty(),
{
    Vec::new()
}

} // verus!
