//! Fingerprints over parsed `ClientHello` / `ServerHello` messages, and the
//! table of known fingerprints.

pub mod digest;
pub mod grease_exts;
pub mod ja3;
pub mod ja4;
pub mod ja4s;
pub mod lookup;
pub mod text;

pub use ja3::compute_ja3;
pub use ja4::{compute_ja4, Ja4};
pub use ja4s::{compute_ja4s, Ja4s};
pub use lookup::{lookup_ja3, lookup_ja4};
