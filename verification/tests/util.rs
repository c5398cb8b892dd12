use grip::util::hex::{decode, decode_strict, encode, encode_colon};
use grip::util::ip::is_ip_literal;
use grip::util::time::{format_date_only, format_expiry};

fn now() -> i64 {
    std::time::SystemTime::now().duration_since(std::time::UNIX_EPOCH).unwrap().as_secs() as i64
}

#[test]
fn encode_colon_works() {
    assert_eq!(encode_colon(&[0xa8, 0x3f, 0xc1]), "a8:3f:c1");
}

#[test]
fn decode_ignores_colons() {
    assert_eq!(decode("a8:3f:c1").unwrap(), vec![0xa8, 0x3f, 0xc1]);
}

#[test]
fn future_expiry() {
    let now = now();
    let future = now + 77 * 86400;
    let s = format_expiry(future, now);
    assert!(s.contains("77 days") || s.contains("78 days"));
}

#[test]
fn past_expiry() {
    let past = 1_577_836_800; // 2020-01-01 00:00:00 UTC
    let s = format_expiry(past, now());
    assert!(s.contains("expired"));
}

#[test]
fn expiry_text_is_exact() {
    assert_eq!(format_expiry(1_577_836_800, 1_577_836_800 - 86400 * 3 - 5), "2020-01-01   (4 days)");
    assert_eq!(format_expiry(1_577_836_800, 1_577_836_800 - 86400 * 3), "2020-01-01   (3 days)");
    assert_eq!(format_expiry(1_577_836_800, 1_577_836_800 + 86400 * 2 + 7), "2020-01-01   (expired -2 days ago)");
    assert_eq!(format_date_only(0), "1970-01-01");
    assert_eq!(format_date_only(2_231_510_400), "2040-09-17");
}

#[test]
fn hex_round_trips() {
    let bytes = [0x00, 0x7f, 0x80, 0xff, 0x10];
    assert_eq!(encode(&bytes), "007f80ff10");
    assert_eq!(decode_strict(&encode(&bytes)).unwrap(), bytes.to_vec());
    assert_eq!(decode(&encode_colon(&bytes)).unwrap(), bytes.to_vec());
    assert_eq!(decode_strict("0A0b").unwrap(), vec![0x0a, 0x0b]);
    assert!(decode_strict("a8:3f").is_none());
    assert!(decode_strict("abc").is_none());
    assert!(decode("abc").is_none());
    assert_eq!(encode_colon(&[]), "");
}

#[test]
fn ip_literals_are_recognised() {
    for s in ["1.2.3.4", "255.255.255.255", "::1", "2001:db8::8a2e:370:7334", "::", "fe80::1:2"] {
        assert!(is_ip_literal(s), "{s}");
    }
    for s in ["256.1.1.1", "1.2.3", "example.com", "1.2.3.4.5", "01.2.3.4", ":::", "1::2::3", ""] {
        assert!(!is_ip_literal(s), "{s}");
    }
}

#[test]
fn decode_refuses_characters_that_are_not_hex() {
    assert_eq!(decode("a8xx3f"), None);
    assert_eq!(decode("a8 3f"), Some(vec![0xa8, 0x3f]));
}
