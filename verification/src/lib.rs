//! `grip`: TLS handshake inspection and fingerprinting over raw bytes.
//!
//! The library parses TLS records, `ClientHello` and `ServerHello`
//! messages and their extensions, builds `ClientHello` bytes, computes
//! JA3 / JA4 / JA4S fingerprints, reassembles TCP streams from pcap
//! captures and lays out the human report. Every function here is pure:
//! sockets, files, clocks and terminals belong to the application.

pub mod cli;
pub mod util;
pub mod error;
pub mod fp;
pub mod net;
pub mod output;
pub mod pcap;

pub use error::{GripError, GripResult};
pub mod tls;
pub mod ui;
