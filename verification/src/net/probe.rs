//! What a live probe sends and what it makes of the reply.

use crate::error::{error_text, GripError};
use crate::net::drive::{chain_view, sh_view, RawOutcome};
use crate::tls::builder::{build_spec, default_alpn, default_cipher_suites, BuilderV, ClientHelloBuilder};
use crate::tls::certificate::{CertInfoV, CertificateChain};
use crate::tls::client_hello::{client_hello_spec, ClientHello};
use crate::tls::extensions::{exts_view, ExtV, Extension};
use crate::tls::server_hello::{ServerHello, ServerHelloV};
use crate::util::ip::{ip_literal, is_ip_literal};
use crate::util::text::{chars_of, clone_string, dec, dec_chars, push_all, push_str, string_of};
use vstd::prelude::*;

verus! {

/// Result of a live probe.
pub struct ProbeResult {
    /// The `ClientHello` sent, parsed back.
    pub client_hello: ClientHello,
    /// Bytes sent.
    pub client_hello_raw: Vec<u8>,
    /// The `ServerHello` received.
    pub server_hello: ServerHello,
    /// Certificate chain, when recovered.
    pub cert_chain: Option<CertificateChain>,
    /// Bytes of the `ServerHello` record.
    pub server_hello_raw: Vec<u8>,
    /// ALPN the server chose.
    pub negotiated_alpn: Option<String>,
}

/// The SNI a probe sends: the override, else the target unless it is an
/// IP literal.
pub open spec fn probe_sni_spec(target: Seq<char>, sni_override: Option<Seq<char>>) -> Option<Seq<char>> {
    match sni_override {
        Some(s) => Some(s),
        None => if ip_literal(target) {
            None
        } else {
            Some(target)
        },
    }
}

/// The SNI a probe of `target` sends.
pub fn probe_sni(target: &str, sni_override: Option<&str>) -> (r: Option<String>)
    ensures
        match r {
            Some(s) => probe_sni_spec(target@, match sni_override {
                Some(o) => Some(o@),
                None => None,
            }) == Some(s@),
            None => probe_sni_spec(target@, match sni_override {
                Some(o) => Some(o@),
                None => None,
            }) is None,
        },
{
    match sni_override {
        Some(s) => Some(string_of(&chars_of(s))),
        None => if is_ip_literal(target) {
            None
        } else {
            Some(string_of(&chars_of(target)))
        },
    }
}

/// The hello a probe sends: the default builder with this SNI and random.
pub open spec fn probe_builder(sni: Option<Seq<char>>, random: Seq<u8>) -> BuilderV {
    BuilderV { random, cipher_suites: default_cipher_suites(), sni, alpn: default_alpn() }
}

/// Build the probe's `ClientHello` and parse it back; a hello that does
/// not parse (an SNI too long for one record) is an error.
#[verifier::rlimit(40)]
pub fn probe_hello(sni: Option<String>, random: [u8; 32]) -> (res: Result<(Vec<u8>, ClientHello), GripError>)
    ensures
        ({
            let bytes = build_spec(
                probe_builder(
                    match sni {
                        Some(s) => Some(s@),
                        None => None,
                    },
                    random@,
                ),
            );
            match res {
                Ok((raw, ch)) => raw@ == bytes && client_hello_spec(bytes) == Ok::<_, crate::error::ErrV>(ch@),
                Err(e) => client_hello_spec(bytes) matches Err(pe) && e matches GripError::Other(m)
                    && exists|pg: GripError| #![auto] pg@ == pe && m@ == "self ClientHello parse: "@ + error_text(pg),
            }
        }),
{
    let b = ClientHelloBuilder::new().with_sni(sni).with_random(random);
    let raw = b.build();
    match ClientHello::parse(raw.as_slice()) {
        Ok(ch) => Ok((raw, ch)),
        Err(e) => {
            let mut msg: Vec<char> = Vec::new();
            push_str(&mut msg, "self ClientHello parse: ");
            let t = e.message();
            push_str(&mut msg, t.as_str());
            Err(GripError::Other(string_of(&msg)))
        },
    }
}

/// The ALPN a server chose: the first name of the first non-empty ALPN
/// extension.
pub open spec fn chosen_alpn(exts: Seq<ExtV>) -> Option<Seq<char>>
    decreases exts.len(),
{
    if exts.len() == 0 {
        None
    } else {
        match exts[0] {
            ExtV::Alpn(v) => if v.len() > 0 {
                Some(v[0])
            } else {
                chosen_alpn(exts.drop_first())
            },
            _ => chosen_alpn(exts.drop_first()),
        }
    }
}

/// The ALPN the server chose, from its `ServerHello`.
pub fn negotiated_alpn(sh: &ServerHello) -> (r: Option<String>)
    ensures
        match r {
            Some(s) => chosen_alpn(sh@.extensions) == Some(s@),
            None => chosen_alpn(sh@.extensions) is None,
        },
{
    let ghost ev = exts_view(sh.extensions@);
    let mut i: usize = 0;
    assert(ev.skip(0) =~= ev);
    while i < sh.extensions.len()
        invariant
            i <= sh.extensions@.len(),
            ev == exts_view(sh.extensions@),
            chosen_alpn(ev) == chosen_alpn(ev.skip(i as int)),
        decreases sh.extensions.len() - i,
    {
        assert(ev.skip(i as int).drop_first() =~= ev.skip(i + 1));
        if let Extension::Alpn(v) = &sh.extensions[i] {
            if v.len() > 0 {
                assert(v@.map_values(|s: String| s@)[0] == v@[0]@);
                return Some(clone_string(&v[0]));
            }
        }
        i += 1;
    }
    None
}

/// The error for a probe that got no `ServerHello`: nothing read, or the
/// byte count read.
pub open spec fn no_hello_text(read: nat, target: Seq<char>, port: u16) -> Seq<char> {
    if read == 0 {
        "no data from "@ + target + seq![':'] + dec(port as nat)
    } else {
        "no ServerHello in "@ + dec(read) + " B from "@ + target + seq![':'] + dec(port as nat)
    }
}

/// Assemble the probe result from the read loop's outcome; without a
/// `ServerHello` the probe fails.
pub fn finish_probe(
    client_hello: ClientHello,
    client_hello_raw: Vec<u8>,
    raw: RawOutcome,
    target: &str,
    port: u16,
) -> (res: Result<ProbeResult, GripError>)
    ensures
        match res {
            Ok(p) => {
                &&& sh_view(raw.server_hello) == Some(p.server_hello@)
                &&& p.server_hello_raw@ == raw.server_hello_raw@
                &&& chain_view(p.cert_chain) == chain_view(raw.cert_chain)
                &&& p.client_hello@ == client_hello@
                &&& p.client_hello_raw@ == client_hello_raw@
                &&& match p.negotiated_alpn {
                    Some(s) => chosen_alpn(p.server_hello@.extensions) == Some(s@),
                    None => chosen_alpn(p.server_hello@.extensions) is None,
                }
            },
            Err(e) => raw.server_hello is None && (e matches GripError::Network(m) && m@ == no_hello_text(
                raw.buf@.len(),
                target@,
                port,
            )),
        },
{
    match raw.server_hello {
        Some(sh) => {
            let alpn = negotiated_alpn(&sh);
            Ok(
                ProbeResult {
                    client_hello,
                    client_hello_raw,
                    server_hello: sh,
                    cert_chain: raw.cert_chain,
                    server_hello_raw: raw.server_hello_raw,
                    negotiated_alpn: alpn,
                },
            )
        },
        None => {
            let mut msg: Vec<char> = Vec::new();
            if raw.buf.len() == 0 {
                push_str(&mut msg, "no data from ");
            } else {
                push_str(&mut msg, "no ServerHello in ");
                push_all(&mut msg, &dec_chars(raw.buf.len() as u64));
                push_str(&mut msg, " B from ");
            }
            push_str(&mut msg, target);
            msg.push(':');
            push_all(&mut msg, &dec_chars(port as u64));
            Err(GripError::Network(string_of(&msg)))
        },
    }
}

} // verus!
