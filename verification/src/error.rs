//! Central error type.
//!
//! Every fallible operation returns `GripResult<T>`. Parse failures carry a
//! byte offset and a structured [`ParseKind`], so callers can match on the
//! exact violation instead of on message text.

use crate::util::text::{dec, dec_chars, hex2, hex4, push_all, push_hex2, push_hex4, push_str, string_of};
use vstd::prelude::*;

verus! {

/// The kind of TLS parse failure.
#[derive(Debug, Clone, PartialEq, Eq)]
pub enum ParseKind {
    /// Not enough bytes to satisfy a length prefix.
    UnexpectedEof {
        /// How many bytes were needed.
        needed: usize,
        /// How many were available.
        available: usize,
    },
    /// Record content type is not one we accept.
    InvalidContentType(u8),
    /// A length field exceeds its limit (e.g. a record above 16384 bytes).
    BadLength {
        /// What the length belongs to (e.g. `record`).
        context: String,
        /// The offending length value.
        length: usize,
    },
    /// Cipher suites length not divisible by 2.
    OddCipherSuiteLength(usize),
    /// Declared extensions length exceeds the remaining bytes.
    ExtensionsLengthMismatch {
        /// Declared length.
        declared: usize,
        /// Actual remaining bytes.
        actual: usize,
    },
    /// A known extension whose payload is malformed.
    BadExtension {
        /// Extension type id.
        ext_type: u16,
        /// Detail text.
        detail: String,
    },
    /// Any other malformed field.
    Malformed(String),
}

/// Top-level error.
#[derive(Debug, Clone, PartialEq, Eq)]
pub enum GripError {
    /// I/O failure, with the operating system's message.
    Io(String),
    /// TLS parsing failed at a specific offset.
    Parse {
        /// Byte offset where parsing failed.
        offset: usize,
        /// Structured kind.
        kind: ParseKind,
    },
    /// Malformed pcap file.
    Pcap(String),
    /// DNS / TCP failure.
    Network(String),
    /// Connection timed out.
    Timeout {
        /// Timeout in seconds.
        timeout_secs: u64,
        /// Target that timed out.
        target: String,
    },
    /// Invalid command-line argument or combination.
    InvalidArg(String),
    /// Certificate parsing failure.
    Certificate(String),
    /// Anything else.
    Other(String),
}

/// Convenience alias.
pub type GripResult<T> = Result<T, GripError>;

/// Structural model of a [`ParseKind`]: every value it carries.
pub enum KindV {
    UnexpectedEof { needed: nat, available: nat },
    InvalidContentType(u8),
    BadLength { context: Seq<char>, length: nat },
    OddCipherSuiteLength(nat),
    ExtensionsLengthMismatch { declared: nat, actual: nat },
    BadExtension { ext_type: u16, detail: Seq<char> },
    Malformed(Seq<char>),
}

/// Structural model of a [`GripError`].
pub enum ErrV {
    Io,
    Parse { offset: nat, kind: KindV },
    Pcap,
    Network,
    Timeout,
    InvalidArg,
    Certificate,
    Other,
}

impl View for ParseKind {
    type V = KindV;

    open spec fn view(&self) -> KindV {
        match self {
            ParseKind::UnexpectedEof { needed, available } => KindV::UnexpectedEof {
                needed: *needed as nat,
                available: *available as nat,
            },
            ParseKind::InvalidContentType(b) => KindV::InvalidContentType(*b),
            ParseKind::BadLength { context, length } => KindV::BadLength {
                context: context@,
                length: *length as nat,
            },
            ParseKind::OddCipherSuiteLength(l) => KindV::OddCipherSuiteLength(*l as nat),
            ParseKind::ExtensionsLengthMismatch { declared, actual } =>
                KindV::ExtensionsLengthMismatch { declared: *declared as nat, actual: *actual as nat },
            ParseKind::BadExtension { ext_type, detail } => KindV::BadExtension { ext_type: *ext_type, detail: detail@ },
            ParseKind::Malformed(d) => KindV::Malformed(d@),
        }
    }
}

impl View for GripError {
    type V = ErrV;

    open spec fn view(&self) -> ErrV {
        match self {
            GripError::Io(_) => ErrV::Io,
            GripError::Parse { offset, kind } => ErrV::Parse { offset: *offset as nat, kind: kind@ },
            GripError::Pcap(_) => ErrV::Pcap,
            GripError::Network(_) => ErrV::Network,
            GripError::Timeout { .. } => ErrV::Timeout,
            GripError::InvalidArg(_) => ErrV::InvalidArg,
            GripError::Certificate(_) => ErrV::Certificate,
            GripError::Other(_) => ErrV::Other,
        }
    }
}

/// The parse error "needed `needed` bytes, `available` available" at `offset`.
pub open spec fn eof_err(offset: int, needed: int, available: int) -> ErrV {
    ErrV::Parse {
        offset: offset as nat,
        kind: KindV::UnexpectedEof { needed: needed as nat, available: available as nat },
    }
}

/// A `Malformed` parse error at `offset` with the given detail text.
pub open spec fn malformed_err(offset: int, detail: Seq<char>) -> ErrV {
    ErrV::Parse { offset: offset as nat, kind: KindV::Malformed(detail) }
}

/// Builds the `UnexpectedEof` parse error.
pub fn eof(offset: usize, needed: usize, available: usize) -> (e: GripError)
    ensures
        e@ == eof_err(offset as int, needed as int, available as int),
{
    GripError::Parse { offset, kind: ParseKind::UnexpectedEof { needed, available } }
}

/// Builds a `Malformed` parse error with the given detail.
pub fn malformed(offset: usize, detail: String) -> (e: GripError)
    ensures
        e@ == malformed_err(offset as int, detail@),
        e == (GripError::Parse { offset, kind: ParseKind::Malformed(detail) }),
{
    GripError::Parse { offset, kind: ParseKind::Malformed(detail) }
}

/// Detail text `head`, then `value`, then `tail`.
pub fn detail_text(head: &str, value: &Vec<char>, tail: &str) -> (r: String)
    ensures
        r@ == head@ + value@ + tail@,
{
    let mut out: Vec<char> = Vec::new();
    push_str(&mut out, head);
    push_all(&mut out, value);
    push_str(&mut out, tail);
    assert(out@ =~= head@ + value@ + tail@);
    string_of(&out)
}

/// Detail text `head` followed by `value`.
pub fn detail_value(head: &str, value: &Vec<char>) -> (r: String)
    ensures
        r@ == head@ + value@,
{
    let mut out: Vec<char> = Vec::new();
    push_str(&mut out, head);
    push_all(&mut out, value);
    assert(out@ =~= head@ + value@);
    string_of(&out)
}

/// Detail text `head`, `a`, `mid`, `b`.
pub fn detail_two(head: &str, a: &Vec<char>, mid: &str, b: &Vec<char>) -> (r: String)
    ensures
        r@ == head@ + a@ + mid@ + b@,
{
    let mut out: Vec<char> = Vec::new();
    push_str(&mut out, head);
    push_all(&mut out, a);
    push_str(&mut out, mid);
    push_all(&mut out, b);
    assert(out@ =~= head@ + a@ + mid@ + b@);
    string_of(&out)
}

/// The two lowercase hex digits of `b` (`{:02x}`).
pub fn hex2_chars(b: u8) -> (r: Vec<char>)
    ensures
        r@ == hex2(b),
{
    let mut out: Vec<char> = Vec::new();
    push_hex2(&mut out, b);
    assert(out@ =~= hex2(b));
    out
}

/// The decimal digits of `n` (`{}`).
pub fn dec_of(n: usize) -> (r: Vec<char>)
    ensures
        r@ == dec(n as nat),
{
    dec_chars(n as u64)
}

/// Human-readable text of a [`ParseKind`] (what the CLI prints).
pub open spec fn kind_text(k: ParseKind) -> Seq<char> {
    match k {
        ParseKind::UnexpectedEof { needed, available } =>
            "unexpected EOF: needed "@ + dec(needed as nat) + " bytes but only "@
                + dec(available as nat) + " available"@,
        ParseKind::InvalidContentType(b) => "invalid content type 0x"@ + hex2(b),
        ParseKind::BadLength { context, length } =>
            "bad length for "@ + context@ + ": "@ + dec(length as nat),
        ParseKind::OddCipherSuiteLength(l) =>
            "cipher suites length "@ + dec(l as nat) + " is not divisible by 2"@,
        ParseKind::ExtensionsLengthMismatch { declared, actual } =>
            "extensions length mismatch: declared "@ + dec(declared as nat) + ", actual "@
                + dec(actual as nat),
        ParseKind::BadExtension { ext_type, detail } =>
            "bad extension 0x"@ + hex4(ext_type) + ": "@ + detail@,
        ParseKind::Malformed(s) => s@,
    }
}

/// Human-readable text of a [`GripError`].
pub open spec fn error_text(e: GripError) -> Seq<char> {
    match e {
        GripError::Io(s) => "I/O error: "@ + s@,
        GripError::Parse { offset, kind } =>
            "TLS parse error at offset "@ + dec(offset as nat) + ": "@ + kind_text(kind),
        GripError::Pcap(s) => "pcap error: "@ + s@,
        GripError::Network(s) => "network error: "@ + s@,
        GripError::Timeout { timeout_secs, target } =>
            "timeout after "@ + dec(timeout_secs as nat) + "s connecting to "@ + target@,
        GripError::InvalidArg(s) => "invalid argument: "@ + s@,
        GripError::Certificate(s) => "certificate error: "@ + s@,
        GripError::Other(s) => s@,
    }
}

impl ParseKind {
    /// Human-readable description.
    pub fn message(&self) -> (res: String)
        ensures
            res@ == kind_text(*self),
    {
        let mut out: Vec<char> = Vec::new();
        match self {
            ParseKind::UnexpectedEof { needed, available } => {
                push_str(&mut out, "unexpected EOF: needed ");
                push_all(&mut out, &dec_chars(*needed as u64));
                push_str(&mut out, " bytes but only ");
                push_all(&mut out, &dec_chars(*available as u64));
                push_str(&mut out, " available");
            },
            ParseKind::InvalidContentType(b) => {
                push_str(&mut out, "invalid content type 0x");
                push_hex2(&mut out, *b);
            },
            ParseKind::BadLength { context, length } => {
                push_str(&mut out, "bad length for ");
                push_str(&mut out, context.as_str());
                push_str(&mut out, ": ");
                push_all(&mut out, &dec_chars(*length as u64));
            },
            ParseKind::OddCipherSuiteLength(l) => {
                push_str(&mut out, "cipher suites length ");
                push_all(&mut out, &dec_chars(*l as u64));
                push_str(&mut out, " is not divisible by 2");
            },
            ParseKind::ExtensionsLengthMismatch { declared, actual } => {
                push_str(&mut out, "extensions length mismatch: declared ");
                push_all(&mut out, &dec_chars(*declared as u64));
                push_str(&mut out, ", actual ");
                push_all(&mut out, &dec_chars(*actual as u64));
            },
            ParseKind::BadExtension { ext_type, detail } => {
                push_str(&mut out, "bad extension 0x");
                push_hex4(&mut out, *ext_type);
                push_str(&mut out, ": ");
                push_str(&mut out, detail.as_str());
            },
            ParseKind::Malformed(s) => {
                push_str(&mut out, s.as_str());
            },
        }
        string_of(&out)
    }
}

impl GripError {
    /// Helper for the `Parse` variant.
    pub fn parse(offset: usize, kind: ParseKind) -> (e: Self)
        ensures
            e == (GripError::Parse { offset, kind }),
    {
        GripError::Parse { offset, kind }
    }

    /// Helper for the `Pcap` variant.
    pub fn pcap(msg: String) -> (e: Self)
        ensures
            e == GripError::Pcap(msg),
    {
        GripError::Pcap(msg)
    }

    /// Helper for the `Network` variant.
    pub fn network(msg: String) -> (e: Self)
        ensures
            e == GripError::Network(msg),
    {
        GripError::Network(msg)
    }

    /// Helper for the `InvalidArg` variant.
    pub fn invalid_arg(msg: String) -> (e: Self)
        ensures
            e == GripError::InvalidArg(msg),
    {
        GripError::InvalidArg(msg)
    }

    /// Human-readable description (what the CLI prints after `error: `).
    pub fn message(&self) -> (res: String)
        ensures
            res@ == error_text(*self),
    {
        let mut out: Vec<char> = Vec::new();
        match self {
            GripError::Io(s) => {
                push_str(&mut out, "I/O error: ");
                push_str(&mut out, s.as_str());
            },
            GripError::Parse { offset, kind } => {
                push_str(&mut out, "TLS parse error at offset ");
                push_all(&mut out, &dec_chars(*offset as u64));
                push_str(&mut out, ": ");
                let k = kind.message();
                push_str(&mut out, k.as_str());
            },
            GripError::Pcap(s) => {
                push_str(&mut out, "pcap error: ");
                push_str(&mut out, s.as_str());
            },
            GripError::Network(s) => {
                push_str(&mut out, "network error: ");
                push_str(&mut out, s.as_str());
            },
            GripError::Timeout { timeout_secs, target } => {
                push_str(&mut out, "timeout after ");
                push_all(&mut out, &dec_chars(*timeout_secs));
                push_str(&mut out, "s connecting to ");
                push_str(&mut out, target.as_str());
            },
            GripError::InvalidArg(s) => {
                push_str(&mut out, "invalid argument: ");
                push_str(&mut out, s.as_str());
            },
            GripError::Certificate(s) => {
                push_str(&mut out, "certificate error: ");
                push_str(&mut out, s.as_str());
            },
            GripError::Other(s) => {
                push_str(&mut out, s.as_str());
            },
        }
        string_of(&out)
    }
}

} // verus!
