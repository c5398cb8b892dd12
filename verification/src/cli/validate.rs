//! Cross-field checks of the command line, and the mode they select.

use crate::cli::args::Cli;
use crate::error::GripError;
use crate::util::text::{chars_of, clone_string, is_space, is_space_char, push_str, string_of};
use vstd::prelude::*;

verus! {

/// The operation a validated command line asks for.
#[derive(Debug, Clone)]
pub enum Mode {
    /// Probe a live target.
    Live {
        /// Host name or IP, possibly with `:port`.
        target: String,
    },
    /// Analyse a capture file.
    Pcap {
        /// Path of the capture.
        file: String,
    },
}

/// What a mode holds.
pub enum ModeV {
    Live(Seq<char>),
    Pcap(Seq<char>),
}

/// The view of a mode.
pub open spec fn mode_view(m: Mode) -> ModeV {
    match m {
        Mode::Live { target } => ModeV::Live(target@),
        Mode::Pcap { file } => ModeV::Pcap(file@),
    }
}

/// Whether `s` is empty or only white space.
pub open spec fn blank(s: Seq<char>) -> bool {
    forall|i: int| 0 <= i < s.len() ==> is_space(#[trigger] s[i])
}

/// An SNI that cannot be sent: empty, or holding white space or `/`.
pub open spec fn bad_sni(s: Seq<char>) -> bool {
    s.len() == 0 || exists|i: int| 0 <= i < s.len() && (is_space(#[trigger] s[i]) || s[i] == '/')
}

/// The mode a command line selects, or the message of why it is invalid.
pub open spec fn validate_spec(cli: Cli) -> Result<ModeV, Seq<char>> {
    if cli.timeout == 0 {
        Err("timeout must be > 0"@)
    } else if cli.port == 0 {
        Err("port must be 1..65535"@)
    } else if cli.sni is Some && bad_sni(cli.sni->0@) {
        Err("invalid SNI: "@ + cli.sni->0@)
    } else if cli.filter is Some && cli.pcap is None {
        Err("--filter requires --pcap"@)
    } else if cli.unique && cli.pcap is None {
        Err("--unique requires --pcap"@)
    } else {
        match (cli.target, cli.pcap) {
            (Some(t), None) => if blank(t@) {
                Err("target must be non-empty"@)
            } else {
                Ok(ModeV::Live(t@))
            },
            (None, Some(p)) => if p@.len() == 0 {
                Err("pcap path must be non-empty"@)
            } else {
                Ok(ModeV::Pcap(p@))
            },
            (Some(_), Some(_)) => Err("cannot specify both <target> and --pcap"@),
            (None, None) => Err("must specify <target> or --pcap <file>"@),
        }
    }
}

fn is_blank(s: &str) -> (r: bool)
    ensures
        r == blank(s@),
{
    let cs = chars_of(s);
    let mut i: usize = 0;
    while i < cs.len()
        invariant
            i <= cs@.len(),
            cs@ == s@,
            forall|j: int| 0 <= j < i ==> is_space(#[trigger] cs@[j]),
        decreases cs.len() - i,
    {
        if !is_space_char(cs[i]) {
            return false;
        }
        i += 1;
    }
    true
}

fn is_bad_sni(s: &str) -> (r: bool)
    ensures
        r == bad_sni(s@),
{
    let cs = chars_of(s);
    if cs.len() == 0 {
        return true;
    }
    let mut i: usize = 0;
    while i < cs.len()
        invariant
            i <= cs@.len(),
            cs@ == s@,
            forall|j: int| 0 <= j < i ==> !(is_space(#[trigger] cs@[j]) || cs@[j] == '/'),
        decreases cs.len() - i,
    {
        if is_space_char(cs[i]) || cs[i] == '/' {
            return true;
        }
        i += 1;
    }
    false
}

fn invalid(msg: &str) -> (e: GripError)
    ensures
        e matches GripError::InvalidArg(m) && m@ == msg@,
{
    GripError::invalid_arg(string_of(&chars_of(msg)))
}

/// Check the command line and select its mode.
///
/// The timeout and port must be non-zero; an SNI must be non-empty
/// without white space or `/`; `--filter` and `--unique` need `--pcap`;
/// exactly one of a (non-blank) target and a (non-empty) `--pcap` path
/// must be given.
pub fn validate(cli: &Cli) -> (res: Result<Mode, GripError>)
    ensures
        match res {
            Ok(m) => validate_spec(*cli) == Ok::<ModeV, Seq<char>>(mode_view(m)),
            Err(e) => e matches GripError::InvalidArg(msg) && validate_spec(*cli) == Err::<ModeV, Seq<char>>(
                msg@,
            ),
        },
{
    if cli.timeout == 0 {
        return Err(invalid("timeout must be > 0"));
    }
    if cli.port == 0 {
        return Err(invalid("port must be 1..65535"));
    }
    if let Some(sni) = &cli.sni {
        if is_bad_sni(sni.as_str()) {
            let mut msg: Vec<char> = Vec::new();
            push_str(&mut msg, "invalid SNI: ");
            push_str(&mut msg, sni.as_str());
            return Err(GripError::invalid_arg(string_of(&msg)));
        }
    }
    if cli.filter.is_some() && cli.pcap.is_none() {
        return Err(invalid("--filter requires --pcap"));
    }
    if cli.unique && cli.pcap.is_none() {
        return Err(invalid("--unique requires --pcap"));
    }
    match (&cli.target, &cli.pcap) {
        (Some(t), None) => {
            if is_blank(t.as_str()) {
                return Err(invalid("target must be non-empty"));
            }
            Ok(Mode::Live { target: clone_string(t) })
        },
        (None, Some(p)) => {
            if chars_of(p.as_str()).len() == 0 {
                return Err(invalid("pcap path must be non-empty"));
            }
            Ok(Mode::Pcap { file: clone_string(p) })
        },
        (Some(_), Some(_)) => Err(invalid("cannot specify both <target> and --pcap")),
        (None, None) => Err(invalid("must specify <target> or --pcap <file>")),
    }
}

} // verus!
