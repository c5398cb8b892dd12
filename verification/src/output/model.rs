//! Report models shared by the human and JSON renderers: plain data
//! projected from the parsed handshakes.

use crate::util::text::clone_string;
use vstd::prelude::*;

verus! {

/// The view of an optional `String`.
pub open spec fn opt_string(o: Option<String>) -> Option<Seq<char>> {
    match o {
        Some(s) => Some(s@),
        None => None,
    }
}

/// A copy of an optional string.
pub fn clone_opt(o: &Option<String>) -> (r: Option<String>)
    ensures
        opt_string(r) == opt_string(*o),
{
    match o {
        Some(s) => Some(clone_string(s)),
        None => None,
    }
}

/// Client name recorded when a lookup was asked for and found nothing.
pub const UNCLASSIFIED: &'static str = "unclassified";

/// What was negotiated on a live connection.
#[derive(Debug, Clone)]
pub struct NegotiatedInfo {
    /// Negotiated TLS version (display text).
    pub tls_version: String,
    /// Versions the client offered (`supported_versions`).
    pub offered_versions: Vec<String>,
    /// Cipher suite name.
    pub cipher_suite: String,
    /// Cipher suite id as `0x....`.
    pub cipher_hex: String,
    /// Key-exchange group (e.g. `X25519`), if known.
    pub key_exchange: Option<String>,
    /// Negotiated ALPN.
    pub alpn: Option<String>,
    /// SNI sent.
    pub sni: Option<String>,
    /// Whether the SNI is an IP literal.
    pub sni_is_ip: bool,
}

/// Certificate summary for display.
#[derive(Debug, Clone)]
pub struct CertSummary {
    /// Subject.
    pub subject: Option<String>,
    /// Issuer.
    pub issuer: Option<String>,
    /// Subject alternative names.
    pub sans: Vec<String>,
    /// Expiry, e.g. `2026-11-15 (77 days)`.
    pub expires: Option<String>,
    /// SHA-256 fingerprint, colon separated.
    pub sha256: Option<String>,
    /// Certificate-transparency summary.
    pub ct_logs: Option<String>,
}

/// Fingerprints for display.
#[derive(Debug, Clone)]
pub struct Fingerprints {
    /// JA3, when shown.
    pub ja3: Option<String>,
    /// JA4, when shown.
    pub ja4: Option<String>,
    /// JA4S, when shown.
    pub ja4s: Option<String>,
    /// Known-client lookup result.
    pub lookup: Option<String>,
}

/// Live report: what a probe of one target shows.
#[derive(Debug, Clone)]
pub struct LiveReport {
    /// Target (`host` or `host:port`).
    pub target: String,
    /// Negotiated parameters.
    pub negotiated: NegotiatedInfo,
    /// Leaf certificate summary.
    pub certificate: Option<CertSummary>,
    /// Whole chain, when asked for.
    pub cert_chain: Option<Vec<CertSummary>>,
    /// Fingerprints.
    pub fingerprints: Fingerprints,
    /// Raw hello bytes, when asked for.
    pub raw: Option<RawHex>,
    /// Timings and byte counts, when verbose.
    pub verbose_info: Option<VerboseInfo>,
}

/// Verbose details of a probe.
#[derive(Debug, Clone)]
pub struct VerboseInfo {
    /// Handshake duration in milliseconds.
    pub handshake_ms: u128,
    /// Bytes sent (the `ClientHello`).
    pub bytes_sent: usize,
    /// Bytes received (the `ServerHello` record).
    pub bytes_received: usize,
    /// Addresses the target resolved to.
    pub resolved_ips: Vec<String>,
    /// How many GREASE cipher suites the hello carried.
    pub grease_filtered: usize,
}

/// Raw hello bytes for `--raw`.
#[derive(Debug, Clone)]
pub struct RawHex {
    /// `ClientHello` bytes in hex.
    pub client_hello_hex: String,
    /// `ServerHello` bytes in hex.
    pub server_hello_hex: String,
    /// Field-by-field decode of the `ClientHello`.
    pub client_hello_parsed: String,
}

/// Capture report.
#[derive(Debug, Clone)]
pub struct PcapReport {
    /// Capture file path.
    pub file: String,
    /// Handshakes counted.
    pub total_handshakes: usize,
    /// Rows (unique address / JA4 pairs, or JA4s with `--unique`).
    pub unique_clients: usize,
    /// Rows, sorted as asked.
    pub clients: Vec<ClientEntry>,
}

/// One row of the capture report.
#[derive(Debug, Clone)]
pub struct ClientEntry {
    /// Source address.
    pub ip: String,
    /// JA4.
    pub ja4: String,
    /// JA3, when asked for.
    pub ja3: Option<String>,
    /// Known client, when a lookup was asked for.
    pub client: Option<String>,
    /// How many handshakes.
    pub count: usize,
}

} // verus!
