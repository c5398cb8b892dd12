//! The grip mark: a single locked diamond, one cell wide.

use vstd::prelude::*;

verus! {

/// Resting grip mark.
pub const MARK: &'static str = "◆";

} // verus!
