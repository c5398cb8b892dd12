//! Presentation: palette and glyphs, report sections with aligned rows and
//! wrapping, and the live checklist.

pub mod glyph;
pub mod mascot;
pub mod pal;
pub mod panel;
pub mod stage;
pub mod theme;
pub mod visible;


pub use panel::{Panel, Row, Tone};
pub use theme::Palette;
