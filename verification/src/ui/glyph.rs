//! Box-drawing and marker glyphs, all single-width.

use vstd::prelude::*;

verus! {

/// Horizontal rule.
pub const H: char = '─';

/// Step marker: done.
pub const DONE: &'static str = "▰";

/// Step marker: pending.
pub const PENDING: &'static str = "▱";

/// Inline separator.
pub const DOT: &'static str = "·";

/// Key/value leader.
pub const LEAD: &'static str = "▏";

/// Success mark.
pub const OK: &'static str = "✔";

/// Failure mark.
pub const BAD: &'static str = "✘";

/// Warning mark.
pub const WARN: &'static str = "▲";

/// Chain link.
pub const LINK: &'static str = "└─";

} // verus!
