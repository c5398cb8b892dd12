use grip::output::hex::{hexdump, hexdump_to_string};
use grip::output::human::{render_live, render_pcap, render_quiet, render_raw};
use grip::output::model::{
    CertSummary, ClientEntry, Fingerprints, LiveReport, NegotiatedInfo, PcapReport, RawHex, VerboseInfo,
};
use grip::ui::theme::Line;
use grip::ui::Palette;

fn text(lines: &[Line]) -> String {
    lines.iter().map(|l| l.text()).collect::<Vec<_>>().join("\n")
}

fn live_report() -> LiveReport {
    LiveReport {
        target: "example.com:443".to_string(),
        negotiated: NegotiatedInfo {
            tls_version: "TLS 1.3".to_string(),
            offered_versions: vec!["TLS 1.3".to_string(), "TLS 1.2".to_string()],
            cipher_suite: "TLS_AES_128_GCM_SHA256".to_string(),
            cipher_hex: "0x1301".to_string(),
            key_exchange: Some("X25519".to_string()),
            alpn: Some("h2".to_string()),
            sni: Some("example.com".to_string()),
            sni_is_ip: false,
        },
        certificate: Some(CertSummary {
            subject: Some("CN=example.com".to_string()),
            issuer: Some("C=US, O=DigiCert, CN=DigiCert Global G3".to_string()),
            sans: vec![
                "example.com".to_string(),
                "www.example.com".to_string(),
                "cdn.example.com".to_string(),
                "api.example.com".to_string(),
            ],
            expires: Some("2026-11-15 (77 days)".to_string()),
            sha256: Some("a8:3f:c1:44:9e:02:bb:71".to_string()),
            ct_logs: Some("2 scts embedded".to_string()),
        }),
        cert_chain: None,
        fingerprints: Fingerprints {
            ja3: Some("cd08e31494f9531f560d64c695473da9".to_string()),
            ja4: Some("t13d1516h2_8daaf6152771_e5627ecdbbe6".to_string()),
            ja4s: Some("t13d020000_1301_1acd28cc39f1".to_string()),
            lookup: Some("Chrome 120".to_string()),
        },
        raw: None,
        verbose_info: None,
    }
}

fn out_live(r: &LiveReport) -> String {
    text(&render_live(r, Palette::plain(), 80))
}

fn pcap_report(clients: Vec<ClientEntry>) -> PcapReport {
    let total = clients.iter().map(|c| c.count).sum();
    PcapReport { file: "capture.pcap".to_string(), total_handshakes: total, unique_clients: clients.len(), clients }
}

#[test]
fn dump() {
    let data = (0u8..32).collect::<Vec<_>>();
    let s = hexdump_to_string(&data);
    assert!(s.contains("0000"));
    assert!(s.contains("0010"));
}

#[test]
fn live_report_is_plain_and_complete() {
    let s = out_live(&live_report());
    assert!(!s.contains('\x1b'));
    assert!(s.contains("negotiated"));
    assert!(s.contains("TLS_AES_128_GCM_SHA256"));
    assert!(s.contains("t13d1516h2_8daaf6152771_e5627ecdbbe6"));
    assert!(s.contains("matches Chrome 120"));
    assert!(s.contains("+1 more"));
}

#[test]
fn missing_certificate_explains_itself() {
    let mut r = live_report();
    r.certificate = None;
    let s = out_live(&r);
    assert!(s.contains("not recovered"));
    assert!(s.contains("--no-verify"));
}

#[test]
fn expired_certificate_is_marked() {
    let mut r = live_report();
    if let Some(c) = &mut r.certificate {
        c.expires = Some("2015-04-12 (expired 4162 days ago)".to_string());
    }
    assert!(out_live(&r).contains("expired"));
}

#[test]
fn colored_live_report_carries_ansi() {
    let s = text(&render_live(&live_report(), Palette::rich(), 80));
    assert!(s.contains('\x1b'));
}

#[test]
fn empty_pcap_gives_guidance() {
    let s = text(&render_pcap(&pcap_report(vec![]), Palette::plain(), 80));
    assert!(s.contains("no client hellos recovered"));
}

#[test]
fn quiet_is_exactly_one_line() {
    assert_eq!(render_quiet("t13d"), "t13d\n");
}

#[test]
fn hexdump_lines_are_sixteen_bytes_with_offsets() {
    let data: Vec<u8> = (0u8..20).collect();
    let lines = hexdump(&data);
    assert_eq!(lines.len(), 2);
    assert_eq!(lines[0], "0000  00 01 02 03 04 05 06 07 08 09 0a 0b 0c 0d 0e 0f");
    assert_eq!(lines[1], "0010  10 11 12 13");
    assert_eq!(hexdump_to_string(&data), format!("{}\n{}\n", lines[0], lines[1]));
    assert!(hexdump(&[]).is_empty());
    let big = vec![0u8; 16 * 4097];
    assert!(hexdump(&big)[4096].starts_with("10000  "));
}

#[test]
fn live_report_layout_is_exact() {
    let mut r = live_report();
    r.certificate = None;
    r.fingerprints.lookup = None;
    let lines: Vec<String> = render_live(&r, Palette::plain(), 80).iter().map(|l| l.text()).collect();
    assert_eq!(lines[0], format!("  grip  ·  live handshake  example.com:443 {}", "─".repeat(80 - 46)));
    assert_eq!(lines[1], "");
    assert_eq!(lines[2], format!("  negotiated {}", "─".repeat(80 - 13)));
    assert_eq!(lines[3], "    tls version      TLS 1.3");
    assert_eq!(lines[4], "    cipher suite     TLS_AES_128_GCM_SHA256  0x1301");
    let narrow: Vec<String> = render_live(&r, Palette::plain(), 40).iter().map(|l| l.text()).collect();
    assert_eq!(narrow[0], "  grip  ·  live handshake  example.com:443");
    assert_eq!(narrow[4], "    cipher suite     TLS_AES_128_GCM_SHA");
    assert_eq!(narrow[5], "                     256  0x1301");
    assert!(lines.contains(&"    status           not recovered".to_string()));
    assert!(lines.contains(&"    offered          TLS 1.3 · TLS 1.2".to_string()));
    assert!(!lines.iter().any(|l| l.contains("client")));
}

#[test]
fn chain_rows_and_telemetry_follow_the_report() {
    let mut r = live_report();
    let leaf = r.certificate.clone().unwrap();
    r.cert_chain = Some(vec![leaf.clone(), leaf]);
    r.verbose_info = Some(VerboseInfo {
        handshake_ms: 42,
        bytes_sent: 204,
        bytes_received: 95,
        resolved_ips: vec!["93.184.216.34:443".to_string()],
        grease_filtered: 2,
    });
    let s = out_live(&r);
    assert!(s.contains("    chain 1          CN=example.com"));
    assert!(s.contains("└─ a83fc1449e02bb71"));
    assert!(s.contains("sha-256          a83fc1449e02bb71"));
    assert!(s.contains("telemetry"));
    assert!(s.contains("42 ms"));
    assert!(s.contains("204 out  95 in"));
    assert!(s.contains("2 filtered"));
    assert!(s.contains("93.184.216.34:443"));
    assert!(s.ends_with("  ◆  42 ms"));
}

#[test]
fn raw_section_dumps_and_decodes() {
    let raw = RawHex {
        client_hello_hex: "160301".to_string(),
        server_hello_hex: "zz".to_string(),
        client_hello_parsed: "content type: 0x16\nlegacy version: 0x0301\r\nnote\n".to_string(),
    };
    let lines: Vec<String> = render_raw(&raw, Palette::plain()).iter().map(|l| l.text()).collect();
    assert_eq!(
        lines,
        vec![
            "".to_string(),
            "  client hello  3 bytes".to_string(),
            "0000  16 03 01".to_string(),
            "".to_string(),
            "  decoded".to_string(),
            "  ▏ content type       0x16".to_string(),
            "  ▏ legacy version     0x0301".to_string(),
            "  ▏ note               ".to_string(),
            "".to_string(),
            "  server hello  0 bytes".to_string(),
        ]
    );
}

#[test]
fn pcap_table_ranks_with_bars() {
    let r = pcap_report(vec![
        ClientEntry {
            ip: "192.168.1.5".to_string(),
            ja4: "t13d1516h2_8daaf6152771_e5627ecdbbe6".to_string(),
            ja3: None,
            client: Some("Chrome 120".to_string()),
            count: 23,
        },
        ClientEntry {
            ip: "10.0.0.42".to_string(),
            ja4: "t10d1200h_c013c014c00a_a2a4a5a6a7a8".to_string(),
            ja3: None,
            client: None,
            count: 6,
        },
    ]);
    let lines: Vec<String> = render_pcap(&r, Palette::plain(), 40).iter().map(|l| l.text()).collect();
    let s = lines.join("\n");
    assert!(!s.contains('\x1b'));
    assert!(s.contains("    clients          2"));
    assert!(s.contains("    handshakes       29"));
    let row1 = lines.iter().find(|l| l.contains("192.168.1.5")).unwrap();
    assert!(row1.starts_with("   1  192.168.1.5     t13d1516h2_8daaf6152771_e5627ecdbbe6   Chrome 120     ▰▰▰▰▰▰▰▰▰▰   23"), "{row1}");
    let row2 = lines.iter().find(|l| l.contains("10.0.0.42")).unwrap();
    assert!(row2.contains(" —              ▰▰▱▱▱▱▱▱▱▱    6"), "{row2}");
    assert!(s.ends_with("  ◆  2 unique fingerprints"));
}

#[test]
fn test_writer_starts_empty() {
    assert!(grip::output::writer::test_writer().is_empty());
}

#[test]
fn pcap_table_is_ranked_and_plain() {
    let r = pcap_report(vec![
        ClientEntry {
            ip: "192.168.1.5".to_string(),
            ja4: "t13d1516h2_8daaf6152771_e5627ecdbbe6".to_string(),
            ja3: None,
            client: Some("Chrome 120".to_string()),
            count: 23,
        },
        ClientEntry {
            ip: "10.0.0.42".to_string(),
            ja4: "t10d1200h_c013c014c00a_a2a4a5a6a7a8".to_string(),
            ja3: None,
            client: None,
            count: 6,
        },
    ]);
    let s: String = render_pcap(&r, Palette::plain(), 100).iter().map(|l| l.text()).collect::<Vec<_>>().join("\n");
    assert!(!s.contains('\x1b'));
    assert!(s.contains(" 1 "));
    assert!(s.contains("—"));
}
