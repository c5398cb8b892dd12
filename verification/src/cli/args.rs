//! Command-line options, and which fingerprints they ask for.

use vstd::prelude::*;

verus! {

/// Output format.
#[derive(Debug, Clone, Copy, PartialEq, Eq, Structural)]
pub enum Format {
    /// Human-readable report.
    Human,
    /// JSON for scripting.
    Json,
}

/// Sort key for the capture report.
#[derive(Debug, Clone, Copy, PartialEq, Eq, Structural)]
pub enum SortBy {
    /// By source address.
    Ip,
    /// By fingerprint.
    Fingerprint,
    /// By hit count, highest first.
    Count,
}

/// The options of one run.
#[derive(Debug, Clone)]
pub struct Cli {
    /// Domain or IP to inspect (`example.com`, `1.2.3.4:8443`).
    pub target: Option<String>,
    /// Capture file to analyse.
    pub pcap: Option<String>,
    /// Target port.
    pub port: u16,
    /// SNI override.
    pub sni: Option<String>,
    /// Connection timeout in seconds.
    pub timeout: u64,
    /// Skip certificate checks (kept for compatibility; none are enforced).
    pub skip_cert_check: bool,
    /// Show JA3.
    pub ja3: bool,
    /// Show JA4.
    pub ja4: bool,
    /// Show JA4S.
    pub ja4s: bool,
    /// Show every fingerprint.
    pub all_fp: bool,
    /// Look fingerprints up in the known table.
    pub lookup: bool,
    /// Output format.
    pub format: Format,
    /// Dump raw hello bytes.
    pub raw: bool,
    /// Show the whole certificate chain.
    pub cert_chain: bool,
    /// Fingerprint only.
    pub quiet: bool,
    /// Write the report to this file.
    pub output: Option<String>,
    /// Only this source IP (capture mode).
    pub filter: Option<String>,
    /// One row per fingerprint (capture mode).
    pub unique: bool,
    /// Sort key (capture mode).
    pub sort_by: SortBy,
    /// Verbosity level.
    pub verbose: u8,
    /// No progress animation.
    pub no_progress: bool,
}

/// Whether any fingerprint flag is set.
pub open spec fn any_fp(c: Cli) -> bool {
    c.ja3 || c.ja4 || c.ja4s || c.all_fp
}

impl Cli {
    /// Whether any fingerprint flag was set.
    pub fn any_fp_flag(&self) -> (r: bool)
        ensures
            r == any_fp(*self),
    {
        self.ja3 || self.ja4 || self.ja4s || self.all_fp
    }

    /// Whether to show JA3: asked for, or by default in live mode.
    pub fn show_ja3(&self, is_live: bool) -> (r: bool)
        ensures
            r == (self.all_fp || self.ja3 || (!any_fp(*self) && is_live)),
    {
        if self.all_fp {
            return true;
        }
        if self.ja3 {
            return true;
        }
        if !self.any_fp_flag() && is_live {
            return true;
        }
        false
    }

    /// Whether to show JA4: asked for, or whenever no fingerprint flag
    /// is set.
    pub fn show_ja4(&self, is_live: bool) -> (r: bool)
        ensures
            r == (self.all_fp || self.ja4 || !any_fp(*self)),
    {
        if self.all_fp {
            return true;
        }
        if self.ja4 {
            return true;
        }
        if !self.any_fp_flag() {
            return true;
        }
        false
    }

    /// Whether to show JA4S: asked for, or by default in live mode.
    pub fn show_ja4s(&self, is_live: bool) -> (r: bool)
        ensures
            r == (self.all_fp || self.ja4s || (!any_fp(*self) && is_live)),
    {
        if self.all_fp {
            return true;
        }
        if self.ja4s {
            return true;
        }
        if !self.any_fp_flag() && is_live {
            return true;
        }
        false
    }
}

} // verus!
