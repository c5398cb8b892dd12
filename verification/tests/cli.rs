use grip::cli::helpers::{
    build_live_report, describe_client_hello, first_group, group_name, live_quiet_value, parse_target_and_port,
    report_palette, should_animate, summarise_cert,
};
use grip::tls::certificate::CertInfo;
use grip::cli::validate::{validate, Mode};
use grip::cli::{Cli, Format, SortBy};
use grip::net::probe::ProbeResult;
use grip::tls::{ClientHello, ClientHelloBuilder, Extension, KeyShareEntry, ServerHello};
use grip::ui::Palette;
use grip::GripError;

fn base_cli() -> Cli {
    Cli {
        target: None,
        pcap: None,
        port: 443,
        sni: None,
        timeout: 10,
        skip_cert_check: false,
        ja3: false,
        ja4: false,
        ja4s: false,
        all_fp: false,
        lookup: false,
        format: Format::Human,
        raw: false,
        cert_chain: false,
        quiet: false,
        output: None,
        filter: None,
        unique: false,
        sort_by: SortBy::Count,
        verbose: 0,
        no_progress: false,
    }
}

#[test]
fn target_port_splitting() {
    assert_eq!(parse_target_and_port("example.com", 443), ("example.com".to_string(), 443));
    assert_eq!(parse_target_and_port("example.com:8443", 443), ("example.com".to_string(), 8443));
    assert_eq!(parse_target_and_port("1.2.3.4:9001", 443), ("1.2.3.4".to_string(), 9001));
}

#[test]
fn ipv6_literals_are_not_split() {
    let (host, port) = parse_target_and_port("::1", 443);
    assert_eq!(host, "::1");
    assert_eq!(port, 443);
}

#[test]
fn non_numeric_suffix_is_not_a_port() {
    assert_eq!(parse_target_and_port("example.com:https", 443), ("example.com:https".to_string(), 443));
}

#[test]
fn group_names_cover_common_curves() {
    assert_eq!(group_name(0x001d), "X25519");
    assert_eq!(group_name(0x0017), "P-256");
    assert_eq!(group_name(0xabcd), "0xabcd");
}

#[test]
fn first_group_prefers_supported_groups_then_key_share() {
    assert_eq!(first_group(&[Extension::SupportedGroups(vec![0x001d])]), Some(0x001d));
    assert_eq!(
        first_group(&[Extension::KeyShare(vec![KeyShareEntry { group: 0x0017, key_exchange: vec![] }])]),
        Some(0x0017)
    );
    assert_eq!(first_group(&[]), None);
}

#[test]
fn describe_lists_every_field() {
    let bytes = ClientHelloBuilder::new().with_sni(Some("example.com".to_string())).build();
    let ch = ClientHello::parse(&bytes).unwrap();
    let d = describe_client_hello(&ch);
    for field in ["content type", "legacy version", "real version", "session id", "cipher suites", "extensions", "grease"] {
        assert!(d.contains(field), "missing {field}");
    }
}

#[test]
fn live_ok() {
    let mut cli = base_cli();
    cli.target = Some("example.com".to_string());
    assert!(matches!(validate(&cli).unwrap(), Mode::Live { .. }));
}

#[test]
fn pcap_ok() {
    let mut cli = base_cli();
    cli.pcap = Some("a.pcap".to_string());
    assert!(matches!(validate(&cli).unwrap(), Mode::Pcap { .. }));
}

#[test]
fn both_fails() {
    let mut cli = base_cli();
    cli.target = Some("a".to_string());
    cli.pcap = Some("b.pcap".to_string());
    assert!(validate(&cli).is_err());
}

#[test]
fn none_fails() {
    let cli = base_cli();
    assert!(validate(&cli).is_err());
}

#[test]
fn filter_requires_pcap() {
    let mut cli = base_cli();
    cli.target = Some("a".to_string());
    cli.filter = Some("1.1.1.1".to_string());
    assert!(validate(&cli).is_err());
}

fn invalid(cli: &Cli) -> String {
    match validate(cli) {
        Err(GripError::InvalidArg(m)) => m,
        other => panic!("expected an invalid argument, got {other:?}"),
    }
}

#[test]
fn each_validation_rule_has_its_message() {
    let mut cli = base_cli();
    cli.target = Some("example.com".to_string());
    let mut c = cli.clone();
    c.timeout = 0;
    assert_eq!(invalid(&c), "timeout must be > 0");
    let mut c = cli.clone();
    c.port = 0;
    assert_eq!(invalid(&c), "port must be 1..65535");
    let mut c = cli.clone();
    c.sni = Some("a b".to_string());
    assert_eq!(invalid(&c), "invalid SNI: a b");
    let mut c = cli.clone();
    c.sni = Some("a/b".to_string());
    assert_eq!(invalid(&c), "invalid SNI: a/b");
    let mut c = cli.clone();
    c.unique = true;
    assert_eq!(invalid(&c), "--unique requires --pcap");
    let mut c = cli.clone();
    c.target = Some("  ".to_string());
    assert_eq!(invalid(&c), "target must be non-empty");
    let mut c = base_cli();
    c.pcap = Some(String::new());
    assert_eq!(invalid(&c), "pcap path must be non-empty");
    assert_eq!(invalid(&base_cli()), "must specify <target> or --pcap <file>");
    match validate(&cli).unwrap() {
        Mode::Live { target } => assert_eq!(target, "example.com"),
        other => panic!("{other:?}"),
    }
}

#[test]
fn fingerprint_flags_select_what_is_shown() {
    let mut cli = base_cli();
    assert!(cli.show_ja3(true) && cli.show_ja4(true) && cli.show_ja4s(true));
    assert!(!cli.show_ja3(false));
    cli.ja4 = true;
    assert!(cli.any_fp_flag());
    assert!(!cli.show_ja3(true) && cli.show_ja4(true) && !cli.show_ja4s(true));
}

#[test]
fn animation_and_palette_follow_the_output() {
    let mut cli = base_cli();
    assert!(should_animate(&cli, true));
    assert!(!should_animate(&cli, false));
    cli.quiet = true;
    assert!(!should_animate(&cli, true));
    let mut cli = base_cli();
    assert!(report_palette(&cli, Palette::rich()).is_color());
    cli.output = Some("report.txt".to_string());
    assert!(!report_palette(&cli, Palette::rich()).is_color());
    assert!(!Palette::detect(true, true, true).is_color());
    assert!(Palette::detect(false, true, false).is_color());
    assert!(Palette::detect(false, false, true).is_color());
    assert!(!Palette::detect(false, false, false).is_color());
}

fn server_hello_bytes() -> Vec<u8> {
    let mut body = Vec::new();
    body.extend_from_slice(&0x0303u16.to_be_bytes());
    body.extend_from_slice(&[0x11; 32]);
    body.push(0x00);
    body.extend_from_slice(&0x1301u16.to_be_bytes());
    body.push(0x00);
    let mut exts = Vec::new();
    exts.extend_from_slice(&0x002bu16.to_be_bytes());
    exts.extend_from_slice(&2u16.to_be_bytes());
    exts.extend_from_slice(&[0x03, 0x04]);
    exts.extend_from_slice(&0x0033u16.to_be_bytes());
    exts.extend_from_slice(&6u16.to_be_bytes());
    exts.extend_from_slice(&[0x00, 0x1d, 0x00, 0x02, 0xab, 0xcd]);
    body.extend_from_slice(&(exts.len() as u16).to_be_bytes());
    body.extend_from_slice(&exts);
    let hs_len = body.len();
    let mut hs = vec![0x02, ((hs_len >> 16) & 0xff) as u8, ((hs_len >> 8) & 0xff) as u8, (hs_len & 0xff) as u8];
    hs.extend_from_slice(&body);
    let mut rec = vec![0x16, 0x03, 0x03, ((hs.len() >> 8) & 0xff) as u8, (hs.len() & 0xff) as u8];
    rec.extend_from_slice(&hs);
    rec
}

fn probe() -> ProbeResult {
    let raw = ClientHelloBuilder::new().with_sni(Some("example.com".to_string())).build();
    let sh_raw = server_hello_bytes();
    ProbeResult {
        client_hello: ClientHello::parse(&raw).unwrap(),
        client_hello_raw: raw,
        server_hello: ServerHello::parse(&sh_raw).unwrap(),
        cert_chain: None,
        server_hello_raw: sh_raw,
        negotiated_alpn: None,
    }
}

#[test]
fn live_report_is_built_from_the_probe() {
    let mut cli = base_cli();
    cli.lookup = true;
    let p = probe();
    let r = build_live_report(&cli, "example.com:443".to_string(), &p, 65, true, vec!["1.2.3.4:443".to_string()], 0);
    assert_eq!(r.target, "example.com:443");
    assert_eq!(r.negotiated.tls_version, "TLS 1.3");
    assert_eq!(r.negotiated.cipher_suite, "TLS_AES_128_GCM_SHA256");
    assert_eq!(r.negotiated.cipher_hex, "0x1301");
    assert_eq!(r.negotiated.key_exchange.as_deref(), Some("X25519"));
    assert_eq!(r.negotiated.sni.as_deref(), Some("example.com"));
    assert!(!r.negotiated.sni_is_ip);
    assert_eq!(r.negotiated.offered_versions, vec!["TLS 1.3".to_string(), "TLS 1.2".to_string()]);
    assert!(r.certificate.is_none());
    assert_eq!(r.fingerprints.ja4.as_deref(), Some("t13d1305h2_bda08f0cbb17_c83d862dc2aa"));
    assert_eq!(r.fingerprints.ja3.as_deref(), Some("d879bc8777862a634eecc81a0d21e701"));
    assert!(r.fingerprints.ja4s.as_deref().unwrap().starts_with("t13"));
    assert_eq!(r.fingerprints.lookup.as_deref(), Some("grip"));
    let v = r.verbose_info.as_ref().unwrap();
    assert_eq!(v.handshake_ms, 65);
    assert_eq!(v.bytes_sent, p.client_hello_raw.len());
    assert_eq!(v.bytes_received, p.server_hello_raw.len());
    assert_eq!(live_quiet_value(&cli, &r.fingerprints), "t13d1305h2_bda08f0cbb17_c83d862dc2aa");
    let mut only3 = base_cli();
    only3.ja3 = true;
    assert_eq!(live_quiet_value(&only3, &r.fingerprints), "d879bc8777862a634eecc81a0d21e701");
}

#[test]
fn supported_groups_win_wherever_they_stand() {
    let exts = [
        Extension::KeyShare(vec![KeyShareEntry { group: 0x0017, key_exchange: vec![] }]),
        Extension::SupportedGroups(vec![0x001d]),
    ];
    assert_eq!(first_group(&exts), Some(0x001d));
    assert_eq!(first_group(&[Extension::SupportedGroups(vec![]), exts[0].clone()]), Some(0x0017));
}

#[test]
fn lookup_that_misses_says_unclassified() {
    let mut cli = base_cli();
    cli.lookup = true;
    let mut p = probe();
    let raw = ClientHelloBuilder::new().with_cipher_suites(vec![0x1301]).build();
    p.client_hello = ClientHello::parse(&raw).unwrap();
    p.client_hello_raw = raw;
    let r = build_live_report(&cli, "example.com:443".to_string(), &p, 5, false, vec![], 0);
    assert_eq!(r.fingerprints.lookup.as_deref(), Some("unclassified"));
    cli.lookup = false;
    let r = build_live_report(&cli, "example.com:443".to_string(), &p, 5, false, vec![], 0);
    assert_eq!(r.fingerprints.lookup, None);
}

#[test]
fn one_sct_is_singular() {
    let mut c = CertInfo {
        subject: "CN=a".to_string(),
        issuer: "CN=b".to_string(),
        sans: vec![],
        not_after: 0,
        not_before: 0,
        sha256_fingerprint: "aa".to_string(),
        sct_count: 1,
        is_self_signed: false,
    };
    assert_eq!(summarise_cert(&c, 0).ct_logs.as_deref(), Some("1 sct embedded"));
    c.sct_count = 3;
    assert_eq!(summarise_cert(&c, 0).ct_logs.as_deref(), Some("3 scts embedded"));
    c.sct_count = 0;
    assert_eq!(summarise_cert(&c, 0).ct_logs.as_deref(), Some("none"));
}
