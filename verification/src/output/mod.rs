//! Report models and their rendering.

pub mod hex;
pub mod human;
pub mod model;
pub mod writer;

pub use human::{render_live, render_pcap};
pub use model::{CertSummary, ClientEntry, Fingerprints, LiveReport, NegotiatedInfo, PcapReport};
