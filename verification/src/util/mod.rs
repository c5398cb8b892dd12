//! Small helpers shared by every layer: text conversion, hex, sorting.

pub mod hex;
pub mod ip;
pub mod sort;
pub mod text;
pub mod time;
