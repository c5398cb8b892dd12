use grip::tls::extensions::common::{parse_u16_list, parse_u8_list};
use grip::error::ParseKind;
use grip::tls::extensions::{alpn, key_share, sni, versions};
use grip::tls::certificate::{parse_single_cert, CertificateChain};
use grip::tls::cipher::{display, name};
use grip::tls::extensions::{parse_extensions, parse_single};
use grip::tls::grease::GREASE_VALUES;
use grip::tls::{
    filter_grease, is_grease, real_version, ClientHello, ClientHelloBuilder, ContentType, Extension, ServerHello,
    TlsRecord, TlsVersion,
};
use grip::GripError;

fn build_minimal_client_hello() -> Vec<u8> {
    let mut body = Vec::new();
    body.extend_from_slice(&0x0303u16.to_be_bytes());
    body.extend_from_slice(&[0x42; 32]);
    body.push(0x00);
    body.extend_from_slice(&0x0002u16.to_be_bytes());
    body.extend_from_slice(&0x1301u16.to_be_bytes());
    body.push(0x01);
    body.push(0x00);
    let hs_len = body.len();
    let mut hs = vec![0x01, ((hs_len >> 16) & 0xff) as u8, ((hs_len >> 8) & 0xff) as u8, (hs_len & 0xff) as u8];
    hs.extend_from_slice(&body);
    let mut rec = vec![0x16, 0x03, 0x01, ((hs.len() >> 8) & 0xff) as u8, (hs.len() & 0xff) as u8];
    rec.extend_from_slice(&hs);
    rec
}

fn build_server_hello() -> Vec<u8> {
    let mut body = Vec::new();
    body.extend_from_slice(&0x0303u16.to_be_bytes());
    body.extend_from_slice(&[0x11; 32]);
    body.push(0x00);
    body.extend_from_slice(&0xc02fu16.to_be_bytes());
    body.push(0x00);
    let mut exts = Vec::new();
    exts.extend_from_slice(&0x002bu16.to_be_bytes());
    exts.extend_from_slice(&2u16.to_be_bytes());
    exts.extend_from_slice(&[0x03, 0x04]);
    body.extend_from_slice(&(exts.len() as u16).to_be_bytes());
    body.extend_from_slice(&exts);
    let hs_len = body.len();
    let mut hs = vec![0x02, ((hs_len >> 16) & 0xff) as u8, ((hs_len >> 8) & 0xff) as u8, (hs_len & 0xff) as u8];
    hs.extend_from_slice(&body);
    let mut rec = vec![0x16, 0x03, 0x03, ((hs.len() >> 8) & 0xff) as u8, (hs.len() & 0xff) as u8];
    rec.extend_from_slice(&hs);
    rec
}

#[test]
fn builder_roundtrip() {
    let builder = ClientHelloBuilder::new().with_sni(Some("example.com".to_string()));
    let bytes = builder.build();
    let ch = ClientHello::parse(&bytes).expect("parse built ClientHello");
    assert_eq!(ch.sni(), Some("example.com"));
    // the default builder offers 13 cipher suites
    assert_eq!(ch.cipher_suites.len(), 13);
    assert!(ch.extensions.iter().any(|e| matches!(e, Extension::Sni(_))));
}

#[test]
fn record_length_correct() {
    let bytes = ClientHelloBuilder::new().build();
    let rec_len = u16::from_be_bytes([bytes[3], bytes[4]]) as usize;
    assert_eq!(rec_len, bytes.len() - 5);
}

#[test]
fn empty_chain_fails() {
    let buf = [0x0b, 0x00, 0x00, 0x03, 0x00, 0x00, 0x00];
    assert!(CertificateChain::parse_tls_certificate(&buf).is_err());
}

#[test]
fn known_name() {
    assert_eq!(name(0x1301), Some("TLS_AES_128_GCM_SHA256"));
}

#[test]
fn unknown_name() {
    assert_eq!(name(0xffff), None);
}

#[test]
fn display_fallback() {
    assert_eq!(display(0xffff), "0xffff");
    assert_eq!(display(0x1301), "TLS_AES_128_GCM_SHA256");
}

#[test]
fn parse_minimal() {
    let buf = build_minimal_client_hello();
    let ch = ClientHello::parse(&buf).unwrap();
    assert_eq!(ch.legacy_version, 0x0303);
    assert_eq!(ch.cipher_suites, vec![0x1301]);
    assert_eq!(ch.compression_methods, vec![0x00]);
    assert!(ch.extensions.is_empty());
}

#[test]
fn parse_rejects_short() {
    assert!(ClientHello::parse(&[0x16, 0x03, 0x03, 0x00, 0x01, 0x01]).is_err());
}

#[test]
fn sni_none_when_no_ext() {
    let buf = build_minimal_client_hello();
    let ch = ClientHello::parse(&buf).unwrap();
    assert_eq!(ch.sni(), None);
}

#[test]
fn parse_sni_simple() {
    let mut data = vec![0x00, 0x0e, 0x00, 0x00, 0x0b];
    data.extend_from_slice(b"example.com");
    let ext = parse_single(0x0000, &data).unwrap();
    assert_eq!(ext, Extension::Sni("example.com".to_string()));
}

#[test]
fn parse_supported_groups() {
    let data = [0x00, 0x04, 0x00, 0x1d, 0x00, 0x17];
    let ext = parse_single(0x000a, &data).unwrap();
    assert_eq!(ext, Extension::SupportedGroups(vec![0x001d, 0x0017]));
}

#[test]
fn unknown_extension() {
    let ext = parse_single(0x9999, &[0x01, 0x02]).unwrap();
    assert_eq!(ext, Extension::Unknown(0x9999, vec![1, 2]));
}

#[test]
fn parse_extensions_empty() {
    assert!(parse_extensions(&[]).unwrap().is_empty());
}

#[test]
fn parse_extensions_roundtrip() {
    let mut sni_data = vec![0x00, 0x0e, 0x00, 0x00, 0x0b];
    sni_data.extend_from_slice(b"example.com");
    let mut buf = Vec::new();
    buf.extend_from_slice(&0x0000u16.to_be_bytes());
    buf.extend_from_slice(&(sni_data.len() as u16).to_be_bytes());
    buf.extend_from_slice(&sni_data);
    let alpn_data = [0x00, 0x03, 0x02, b'h', b'2'];
    buf.extend_from_slice(&0x0010u16.to_be_bytes());
    buf.extend_from_slice(&(alpn_data.len() as u16).to_be_bytes());
    buf.extend_from_slice(&alpn_data);
    assert_eq!(parse_extensions(&buf).unwrap().len(), 2);
}

#[test]
fn detects_all_grease() {
    for v in GREASE_VALUES {
        assert!(is_grease(v), "{v:04x} should be GREASE");
    }
}

#[test]
fn non_grease() {
    assert!(!is_grease(0x0303));
    assert!(!is_grease(0x1301));
    assert!(!is_grease(0x00ff));
    assert!(!is_grease(0x0a0b));
}

#[test]
fn filter_preserves_order() {
    let input = [0x0a0a, 0x1301, 0x1a1a, 0x1302, 0xc02b];
    assert_eq!(filter_grease(&input), vec![0x1301, 0x1302, 0xc02b]);
}

#[test]
fn filter_before_sort_matters() {
    let input = [0x0a0a, 0x1302, 0x1301];
    let mut filtered = filter_grease(&input);
    filtered.sort_unstable();
    assert_eq!(filtered, vec![0x1301, 0x1302]);
}

#[test]
fn parse_valid() {
    let buf = [0x16, 0x03, 0x03, 0x00, 0x05, 0x01, 0x02, 0x03, 0x04, 0x05];
    let (rec, n) = TlsRecord::parse(&buf, 0).unwrap();
    assert_eq!(rec.content_type, ContentType::Handshake);
    assert_eq!(rec.legacy_version, 0x0303);
    assert_eq!(rec.payload, vec![1, 2, 3, 4, 5]);
    assert_eq!(n, 10);
}

#[test]
fn reject_oversize() {
    let len = (TlsRecord::MAX_LENGTH + 1) as u16;
    let buf = [0x16, 0x03, 0x03, (len >> 8) as u8, (len & 0xff) as u8];
    assert!(TlsRecord::parse(&buf, 0).is_err());
}

#[test]
fn truncated() {
    let buf = [0x16, 0x03, 0x03, 0x00, 0x10, 0x01, 0x02];
    assert!(TlsRecord::parse(&buf, 0).is_err());
}

#[test]
fn parse_all_multiple() {
    let mut buf = Vec::new();
    for _ in 0..2 {
        buf.extend_from_slice(&[0x16, 0x03, 0x03, 0x00, 0x02, 0xaa, 0xbb]);
    }
    let recs = TlsRecord::parse_all(&buf).unwrap();
    assert_eq!(recs.len(), 2);
}

#[test]
fn parse_server_hello() {
    let buf = build_server_hello();
    let sh = ServerHello::parse(&buf).unwrap();
    assert_eq!(sh.cipher_suite, 0xc02f);
    assert!(!sh.is_hello_retry_request);
    assert_eq!(sh.real_version(), TlsVersion::Tls13);
}

#[test]
fn from_u16_roundtrip() {
    assert_eq!(TlsVersion::from_u16(0x0303), TlsVersion::Tls12);
    assert_eq!(TlsVersion::Tls13.as_u16(), 0x0304);
}

#[test]
fn real_version_prefers_ext() {
    let exts = vec![Extension::SupportedVersions(vec![0x0303, 0x0304])];
    assert_eq!(real_version(0x0303, &exts), TlsVersion::Tls13);
}

#[test]
fn real_version_fallback() {
    let exts = vec![];
    assert_eq!(real_version(0x0303, &exts), TlsVersion::Tls12);
}

#[test]
fn ja4_str() {
    assert_eq!(TlsVersion::Tls13.ja4_str(), "13");
    assert_eq!(TlsVersion::Unknown(0x9999).ja4_str(), "00");
}

#[test]
fn built_hello_carries_every_setting() {
    let random = [7u8; 32];
    let bytes = ClientHelloBuilder::new()
        .with_sni(Some("a.example".to_string()))
        .with_random(random)
        .with_cipher_suites(vec![0xc02f, 0x1301])
        .with_alpn(vec!["http/1.1".to_string()])
        .build();
    let ch = ClientHello::parse(&bytes).unwrap();
    assert_eq!(ch.random, random);
    assert_eq!(ch.cipher_suites, vec![0xc02f, 0x1301]);
    assert_eq!(ch.sni(), Some("a.example"));
    assert_eq!(ch.alpn(), Some(&vec!["http/1.1".to_string()]));
    assert_eq!(ch.real_version(), TlsVersion::Tls13);
    assert_eq!(ch.raw, bytes[5..].to_vec());
}

#[test]
fn record_errors_name_the_violation() {
    let oversize = [0x16, 0x03, 0x03, 0x40, 0x01];
    match TlsRecord::parse(&oversize, 0) {
        Err(GripError::Parse { offset, .. }) => assert_eq!(offset, 3),
        other => panic!("unexpected {other:?}"),
    }
    let odd_type = [0x99, 0x03, 0x03, 0x00, 0x00];
    let (rec, n) = TlsRecord::parse(&odd_type, 0).unwrap();
    assert_eq!(rec.content_type, ContentType::Unknown(0x99));
    assert_eq!(u8::from(ContentType::from(0x99)), 0x99);
    assert_eq!(n, 5);
    match TlsRecord::parse(&[0x16, 0x03], 0) {
        Err(GripError::Parse { offset, .. }) => assert_eq!(offset, 0),
        other => panic!("unexpected {other:?}"),
    }
}

#[test]
fn server_hello_rejects_a_client_hello() {
    let buf = build_minimal_client_hello();
    assert!(ServerHello::parse(&buf).is_err());
}

const ISRG_ROOT_X2: [u8; 543] = [
    0x30, 0x82, 0x02, 0x1b, 0x30, 0x82, 0x01, 0xa1, 0xa0, 0x03, 0x02, 0x01, 0x02, 0x02, 0x10, 0x41,
    0xd2, 0x9d, 0xd1, 0x72, 0xea, 0xee, 0xa7, 0x80, 0xc1, 0x2c, 0x6c, 0xe9, 0x2f, 0x87, 0x52, 0x30,
    0x0a, 0x06, 0x08, 0x2a, 0x86, 0x48, 0xce, 0x3d, 0x04, 0x03, 0x03, 0x30, 0x4f, 0x31, 0x0b, 0x30,
    0x09, 0x06, 0x03, 0x55, 0x04, 0x06, 0x13, 0x02, 0x55, 0x53, 0x31, 0x29, 0x30, 0x27, 0x06, 0x03,
    0x55, 0x04, 0x0a, 0x13, 0x20, 0x49, 0x6e, 0x74, 0x65, 0x72, 0x6e, 0x65, 0x74, 0x20, 0x53, 0x65,
    0x63, 0x75, 0x72, 0x69, 0x74, 0x79, 0x20, 0x52, 0x65, 0x73, 0x65, 0x61, 0x72, 0x63, 0x68, 0x20,
    0x47, 0x72, 0x6f, 0x75, 0x70, 0x31, 0x15, 0x30, 0x13, 0x06, 0x03, 0x55, 0x04, 0x03, 0x13, 0x0c,
    0x49, 0x53, 0x52, 0x47, 0x20, 0x52, 0x6f, 0x6f, 0x74, 0x20, 0x58, 0x32, 0x30, 0x1e, 0x17, 0x0d,
    0x32, 0x30, 0x30, 0x39, 0x30, 0x34, 0x30, 0x30, 0x30, 0x30, 0x30, 0x30, 0x5a, 0x17, 0x0d, 0x34,
    0x30, 0x30, 0x39, 0x31, 0x37, 0x31, 0x36, 0x30, 0x30, 0x30, 0x30, 0x5a, 0x30, 0x4f, 0x31, 0x0b,
    0x30, 0x09, 0x06, 0x03, 0x55, 0x04, 0x06, 0x13, 0x02, 0x55, 0x53, 0x31, 0x29, 0x30, 0x27, 0x06,
    0x03, 0x55, 0x04, 0x0a, 0x13, 0x20, 0x49, 0x6e, 0x74, 0x65, 0x72, 0x6e, 0x65, 0x74, 0x20, 0x53,
    0x65, 0x63, 0x75, 0x72, 0x69, 0x74, 0x79, 0x20, 0x52, 0x65, 0x73, 0x65, 0x61, 0x72, 0x63, 0x68,
    0x20, 0x47, 0x72, 0x6f, 0x75, 0x70, 0x31, 0x15, 0x30, 0x13, 0x06, 0x03, 0x55, 0x04, 0x03, 0x13,
    0x0c, 0x49, 0x53, 0x52, 0x47, 0x20, 0x52, 0x6f, 0x6f, 0x74, 0x20, 0x58, 0x32, 0x30, 0x76, 0x30,
    0x10, 0x06, 0x07, 0x2a, 0x86, 0x48, 0xce, 0x3d, 0x02, 0x01, 0x06, 0x05, 0x2b, 0x81, 0x04, 0x00,
    0x22, 0x03, 0x62, 0x00, 0x04, 0xcd, 0x9b, 0xd5, 0x9f, 0x80, 0x83, 0x0a, 0xec, 0x09, 0x4a, 0xf3,
    0x16, 0x4a, 0x3e, 0x5c, 0xcf, 0x77, 0xac, 0xde, 0x67, 0x05, 0x0d, 0x1d, 0x07, 0xb6, 0xdc, 0x16,
    0xfb, 0x5a, 0x8b, 0x14, 0xdb, 0xe2, 0x71, 0x60, 0xc4, 0xba, 0x45, 0x95, 0x11, 0x89, 0x8e, 0xea,
    0x06, 0xdf, 0xf7, 0x2a, 0x16, 0x1c, 0xa4, 0xb9, 0xc5, 0xc5, 0x32, 0xe0, 0x03, 0xe0, 0x1e, 0x82,
    0x18, 0x38, 0x8b, 0xd7, 0x45, 0xd8, 0x0a, 0x6a, 0x6e, 0xe6, 0x00, 0x77, 0xfb, 0x02, 0x51, 0x7d,
    0x22, 0xd8, 0x0a, 0x6e, 0x9a, 0x5b, 0x77, 0xdf, 0xf0, 0xfa, 0x41, 0xec, 0x39, 0xdc, 0x75, 0xca,
    0x68, 0x07, 0x0c, 0x1f, 0xea, 0xa3, 0x42, 0x30, 0x40, 0x30, 0x0e, 0x06, 0x03, 0x55, 0x1d, 0x0f,
    0x01, 0x01, 0xff, 0x04, 0x04, 0x03, 0x02, 0x01, 0x06, 0x30, 0x0f, 0x06, 0x03, 0x55, 0x1d, 0x13,
    0x01, 0x01, 0xff, 0x04, 0x05, 0x30, 0x03, 0x01, 0x01, 0xff, 0x30, 0x1d, 0x06, 0x03, 0x55, 0x1d,
    0x0e, 0x04, 0x16, 0x04, 0x14, 0x7c, 0x42, 0x96, 0xae, 0xde, 0x4b, 0x48, 0x3b, 0xfa, 0x92, 0xf8,
    0x9e, 0x8c, 0xcf, 0x6d, 0x8b, 0xa9, 0x72, 0x37, 0x95, 0x30, 0x0a, 0x06, 0x08, 0x2a, 0x86, 0x48,
    0xce, 0x3d, 0x04, 0x03, 0x03, 0x03, 0x68, 0x00, 0x30, 0x65, 0x02, 0x30, 0x7b, 0x79, 0x4e, 0x46,
    0x50, 0x84, 0xc2, 0x44, 0x87, 0x46, 0x1b, 0x45, 0x70, 0xff, 0x58, 0x99, 0xde, 0xf4, 0xfd, 0xa4,
    0xd2, 0x55, 0xa6, 0x20, 0x2d, 0x74, 0xd6, 0x34, 0xbc, 0x41, 0xa3, 0x50, 0x5f, 0x01, 0x27, 0x56,
    0xb4, 0xbe, 0x27, 0x75, 0x06, 0xaf, 0x12, 0x2e, 0x75, 0x98, 0x8d, 0xfc, 0x02, 0x31, 0x00, 0x8b,
    0xf5, 0x77, 0x6c, 0xd4, 0xc8, 0x65, 0xaa, 0xe0, 0x0b, 0x2c, 0xee, 0x14, 0x9d, 0x27, 0x37, 0xa4,
    0xf9, 0x53, 0xa5, 0x51, 0xe4, 0x29, 0x83, 0xd7, 0xf8, 0x90, 0x31, 0x5b, 0x42, 0x9f, 0x0a, 0xf5,
    0xfe, 0xae, 0x00, 0x68, 0xe7, 0x8c, 0x49, 0x0f, 0xb6, 0x6f, 0x5b, 0x5b, 0x15, 0xf2, 0xe7,
];

#[test]
fn real_certificate_is_read() {
    let c = parse_single_cert(&ISRG_ROOT_X2).unwrap();
    assert!(c.subject.contains("ISRG Root X2"));
    assert_eq!(c.subject, c.issuer);
    assert!(c.is_self_signed);
    assert!(c.sans.is_empty());
    assert_eq!(c.not_before, 1599177600);
    assert_eq!(c.not_after, 2231510400);
    assert_eq!(c.sct_count, 0);
    assert_eq!(
        c.sha256_fingerprint,
        "69:72:9b:8e:15:a8:6e:fc:17:7a:57:af:b7:17:1d:fc:64:ad:d2:8c:2f:ca:8c:f1:50:7e:34:45:3c:cb:14:70"
    );
}

#[test]
fn garbage_is_not_a_certificate() {
    assert!(parse_single_cert(&[0x30, 0x03, 0x01, 0x02, 0x03]).is_err());
    let chain = CertificateChain::from_der_list(&vec![ISRG_ROOT_X2.to_vec(), ISRG_ROOT_X2.to_vec()]).unwrap();
    assert_eq!(chain.len(), 2);
    assert!(!chain.is_empty());
    assert!(chain.leaf().unwrap().subject.contains("ISRG"));
}

#[test]
fn extension_errors_name_what_is_wrong() {
    let bad = |t: u16, d: &str| ParseKind::BadExtension { ext_type: t, detail: d.to_string() };
    assert_eq!(sni::parse(&[0x00]), Err(bad(0x0000, "SNI too short for list length")));
    assert_eq!(sni::parse(&[0x00, 0x09, 0x00]), Err(bad(0x0000, "SNI list_len 9 exceeds data 1")));
    assert_eq!(sni::parse(&[0x00, 0x03, 0x00, 0x00, 0x07]), Err(bad(0x0000, "SNI name_len exceeds data")));
    assert_eq!(alpn::parse(&[0x00, 0x03, 0x05, b'h', b'2']), Err(bad(0x0010, "ALPN string length exceeds list")));
    assert_eq!(key_share::parse(&[0x00, 0x1d, 0x00]), Err(bad(0x0033, "key_share malformed len 3")));
    assert_eq!(
        key_share::parse(&[0x00, 0x04, 0x00, 0x1d, 0x00, 0x09]),
        Err(bad(0x0033, "key_share key_len exceeds data"))
    );
    assert_eq!(versions::parse(&[0x05, 0x03, 0x04]), Err(bad(0x002b, "supported_versions malformed len 3")));
}

#[test]
fn hello_of_the_wrong_kind_is_malformed() {
    let mut ch = build_minimal_client_hello();
    ch[5] = 0x02;
    match ClientHello::parse(&ch) {
        Err(GripError::Parse { offset, kind }) => {
            assert_eq!(offset, 5);
            assert_eq!(kind, ParseKind::Malformed("expected ClientHello handshake type 0x01, got 0x02".to_string()));
        }
        other => panic!("unexpected {other:?}"),
    }
    let mut sh = build_server_hello();
    sh[0] = 0x17;
    assert!(ServerHello::parse(&sh).is_err());
    let bare = &build_server_hello()[5..];
    let mut bare = bare.to_vec();
    bare[0] = 0x01;
    match ServerHello::parse(&bare) {
        Err(GripError::Parse { offset, kind }) => {
            assert_eq!(offset, 0);
            assert_eq!(kind, ParseKind::Malformed("handshake type 0x01 != 0x02".to_string()));
        }
        other => panic!("unexpected {other:?}"),
    }
}

#[test]
fn grease_in_supported_versions_is_not_the_version() {
    let exts = vec![Extension::SupportedVersions(vec![0x0304, 0x7a7a])];
    assert_eq!(real_version(0x0303, &exts), TlsVersion::Tls13);
    let only = vec![Extension::SupportedVersions(vec![0x7a7a])];
    assert_eq!(real_version(0x0303, &only), TlsVersion::Tls12);
}

#[test]
fn list_errors_carry_their_lengths() {
    let bad = |t: u16, d: &str| ParseKind::BadExtension { ext_type: t, detail: d.to_string() };
    assert_eq!(parse_u16_list(&[0x00, 0x08, 0x00]), Err(bad(0xffff, "u16 list len 8 exceeds data 1")));
    assert_eq!(parse_u16_list(&[0x00, 0x01, 0x00]), Err(bad(0xffff, "u16 list len 1 not divisible by 2")));
    assert_eq!(parse_u8_list(&[0x05, 0x00]), Err(bad(0x000b, "u8 list len 5 exceeds data 1")));
    assert_eq!(alpn::parse(&[0x00, 0x09, 0x02]), Err(bad(0x0010, "ALPN list len 9 exceeds data")));
}

#[test]
fn record_header_is_stripped() {
    let raw = ClientHelloBuilder::new().with_sni(Some("example.com".to_string())).build();
    assert_eq!(ClientHello::parse(&raw), ClientHello::parse(&raw[5..]));
    let mut bad = raw.clone();
    bad[9 + 34] = 0xff;
    assert!(ClientHello::parse(&bad).is_err());
    assert_eq!(ClientHello::parse(&bad), ClientHello::parse(&bad[5..]));
}

#[test]
fn parsed_extensions_keep_their_wire_types() {
    let mut buf = Vec::new();
    for (t, d) in [(0x0000u16, vec![0x00u8]), (0x000a, vec![0x00, 0x02, 0x00, 0x1d]), (0x1234, vec![]), (0x002b, vec![0x02, 0x03, 0x04])] {
        buf.extend_from_slice(&t.to_be_bytes());
        buf.extend_from_slice(&(d.len() as u16).to_be_bytes());
        buf.extend_from_slice(&d);
    }
    let exts = parse_extensions(&buf).unwrap();
    let types: Vec<u16> = exts.iter().map(|e| e.ext_type()).collect();
    assert_eq!(types, vec![0x0000, 0x000a, 0x1234, 0x002b]);
}
