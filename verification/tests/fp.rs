use grip::fp::ja3::ja3_text;
use grip::fp::lookup::lookup;
use grip::fp::{compute_ja3, compute_ja4, compute_ja4s, lookup_ja3, lookup_ja4};
use grip::tls::{ClientHello, ClientHelloBuilder, Extension, ServerHello};

fn build_sh(cipher: u16, exts: Vec<u16>) -> ServerHello {
    let mut extensions = Vec::new();
    for t in exts {
        extensions.push(Extension::Unknown(t, vec![]));
    }
    ServerHello {
        legacy_version: 0x0303,
        random: [0x11; 32],
        session_id: vec![],
        cipher_suite: cipher,
        compression_method: 0,
        extensions,
        is_hello_retry_request: false,
        raw: vec![],
    }
}

#[test]
fn ja3_deterministic() {
    let ch = ClientHello::parse(&ClientHelloBuilder::new().with_sni(Some("example.com".to_string())).build()).unwrap();
    let a = compute_ja3(&ch);
    let b = compute_ja3(&ch);
    assert_eq!(a, b);
    assert_eq!(a.len(), 32);
    assert!(a.chars().all(|c| c.is_ascii_hexdigit()));
}

#[test]
fn ja3_grease_filtered() {
    let mut ciphers = vec![0x1301, 0x1302, 0xc02b];
    ciphers.insert(0, 0x0a0a);
    let builder = ClientHelloBuilder::new().with_cipher_suites(ciphers);
    let ch = ClientHello::parse(&builder.build()).unwrap();
    let hash_with_grease = compute_ja3(&ch);

    let builder2 = ClientHelloBuilder::new().with_cipher_suites(vec![0x1301, 0x1302, 0xc02b]);
    let ch2 = ClientHello::parse(&builder2.build()).unwrap();
    let hash_without = compute_ja3(&ch2);
    assert_eq!(hash_with_grease, hash_without);
}

#[test]
fn ja4_format() {
    let ch = ClientHello::parse(&ClientHelloBuilder::new().with_sni(Some("example.com".to_string())).build()).unwrap();
    let ja4 = compute_ja4(&ch);
    assert_eq!(ja4.as_str().len(), 36);
    assert_eq!(ja4.as_str().chars().filter(|&c| c == '_').count(), 2);
    assert!(ja4.as_str().starts_with('t'));
}

#[test]
fn ja4_grease_filter_before_sort() {
    let b1 = ClientHelloBuilder::new().with_cipher_suites(vec![0x1301, 0x0a0a, 0x1302]);
    let ch1 = ClientHello::parse(&b1.build()).unwrap();
    let b2 = ClientHelloBuilder::new().with_cipher_suites(vec![0x1301, 0x1302]);
    let ch2 = ClientHello::parse(&b2.build()).unwrap();
    assert_eq!(compute_ja4(&ch1).as_str(), compute_ja4(&ch2).as_str());
}

#[test]
fn ja4_no_sni_gives_i() {
    let ch = ClientHello::parse(&ClientHelloBuilder::new().with_sni(None).build()).unwrap();
    let ja4 = compute_ja4(&ch);
    assert!(ja4.as_str().contains('i'));
}

#[test]
fn ja4_alpn_chars() {
    let ch = ClientHello::parse(
        &ClientHelloBuilder::new().with_sni(Some("a.com".to_string())).with_alpn(vec!["h2".to_string()]).build(),
    )
    .unwrap();
    let ja4 = compute_ja4(&ch);
    assert!(ja4.as_str().starts_with("t13d"));
    assert_eq!(ja4.as_str()[8..10], *"h2");
}

#[test]
fn ja4s_basic() {
    let sh = build_sh(0xc02b, vec![0x000f]);
    let ja4s = compute_ja4s(&sh);
    assert!(ja4s.as_str().contains("c02b"));
    assert!(ja4s.as_str().starts_with('t'));
    assert_eq!(ja4s.as_str().chars().filter(|&c| c == '_').count(), 2);
}

#[test]
fn ja4s_empty_exts() {
    let sh = build_sh(0x1301, vec![]);
    let ja4s = compute_ja4s(&sh);
    assert!(ja4s.as_str().contains("1301"));
}

#[test]
fn known_chromium() {
    let ja4 = "t13d1516h2_8daaf6152771_02713d6af862";
    assert_eq!(lookup_ja4(ja4), Some("Chromium Browser"));
}

#[test]
fn grip_self_identifies_with_and_without_sni() {
    for sni in [Some("example.com".to_string()), None] {
        let raw = ClientHelloBuilder::new().with_sni(sni).build();
        let ch = ClientHello::parse(&raw).unwrap();
        let ja4 = compute_ja4(&ch).0;
        let ja3 = compute_ja3(&ch);
        assert_eq!(lookup_ja4(&ja4), Some("grip"), "ja4 {ja4}");
        assert_eq!(lookup(Some(ja4.as_str()), Some(ja3.as_str())), Some("grip"), "ja4 {ja4}");
    }
}

#[test]
fn unknown_returns_none() {
    assert_eq!(lookup_ja4("t00d0000_000000000000_000000000000"), None);
}

#[test]
fn default_probe_fingerprints_match_the_documented_values() {
    let ch = ClientHello::parse(&ClientHelloBuilder::new().with_sni(Some("example.com".to_string())).build()).unwrap();
    assert_eq!(compute_ja4(&ch).as_str(), "t13d1305h2_bda08f0cbb17_c83d862dc2aa");
    assert_eq!(compute_ja3(&ch), "d879bc8777862a634eecc81a0d21e701");
    assert_eq!(lookup_ja3("d879bc8777862a634eecc81a0d21e701"), Some("grip"));
}

#[test]
fn ja3_text_lists_fields_in_order() {
    let ch = ClientHello::parse(
        &ClientHelloBuilder::new().with_sni(None).with_cipher_suites(vec![0x0a0a, 0x1301, 0x1302]).build(),
    )
    .unwrap();
    let t = ja3_text(&ch);
    assert!(t.starts_with("771,4865-4866,"), "{t}");
    assert!(t.ends_with(",29-23-24,0"), "{t}");
}

#[test]
fn ja4_ignores_suite_order() {
    let a = ClientHello::parse(&ClientHelloBuilder::new().with_cipher_suites(vec![0x1302, 0x1301, 0xc02b]).build()).unwrap();
    let b = ClientHello::parse(
        &ClientHelloBuilder::new().with_cipher_suites(vec![0xc02b, 0x2a2a, 0x1301, 0x1302]).build(),
    )
    .unwrap();
    assert_eq!(compute_ja4(&a), compute_ja4(&b));
    assert_ne!(compute_ja3(&a), compute_ja3(&b));
}

#[test]
fn lookup_falls_back_to_ja3() {
    assert_eq!(lookup(Some("t00d0000_000000000000_000000000000"), Some("d879bc8777862a634eecc81a0d21e701")), Some("grip"));
    assert_eq!(lookup(None, None), None);
}

#[test]
fn ja4_ignores_extension_order() {
    let ch = ClientHello::parse(&ClientHelloBuilder::new().with_sni(Some("example.com".to_string())).build()).unwrap();
    let mut shuffled = ch.clone();
    shuffled.extensions.reverse();
    let n = shuffled.extensions.len();
    shuffled.extensions.swap(0, n / 2);
    assert_ne!(
        shuffled.extensions.iter().map(|e| e.ext_type()).collect::<Vec<_>>(),
        ch.extensions.iter().map(|e| e.ext_type()).collect::<Vec<_>>()
    );
    assert_eq!(compute_ja4(&shuffled).as_str(), "t13d1305h2_bda08f0cbb17_c83d862dc2aa");
    assert_eq!(compute_ja4(&shuffled).as_str(), compute_ja4(&ch).as_str());
}

#[test]
fn grease_extensions_change_no_fingerprint() {
    let ch = ClientHello::parse(&ClientHelloBuilder::new().with_sni(Some("example.com".to_string())).build()).unwrap();
    let mut greased = ch.clone();
    greased.extensions.insert(0, Extension::Unknown(0x0a0a, vec![]));
    greased.extensions.push(Extension::Unknown(0xfafa, vec![0x00]));
    assert_eq!(greased.extensions.len(), ch.extensions.len() + 2);
    assert_eq!(compute_ja3(&greased), "d879bc8777862a634eecc81a0d21e701");
    assert_eq!(compute_ja4(&greased).as_str(), "t13d1305h2_bda08f0cbb17_c83d862dc2aa");
}

#[test]
fn ja4_ignores_grease_everywhere() {
    let ch = ClientHello::parse(&ClientHelloBuilder::new().with_sni(Some("example.com".to_string())).build()).unwrap();
    let mut g = ch.clone();
    g.cipher_suites.insert(0, 0x2a2a);
    g.cipher_suites.reverse();
    g.extensions.insert(1, Extension::Unknown(0x3a3a, vec![]));
    for e in g.extensions.iter_mut() {
        match e {
            Extension::SignatureAlgorithms(v) => v.push(0x4a4a),
            Extension::SupportedVersions(v) => v.insert(0, 0x7a7a),
            _ => {}
        }
    }
    assert_eq!(compute_ja4(&g).as_str(), "t13d1305h2_bda08f0cbb17_c83d862dc2aa");
}
