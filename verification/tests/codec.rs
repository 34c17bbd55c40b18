use grinrelay::bech32::{Bech32, CodingError};
use grinrelay::json::encode_response;
use grinrelay::protocol::{GrinboxError, GrinboxResponse};
use grinrelay::utils::{dec_string, from_hex, parse_u16, to_hex};

#[test]
fn hex_round_trip() {
    let bytes = vec![0x00u8, 0x01, 0xde, 0xad, 0xbe, 0xef, 0xff];
    let s = to_hex(bytes.clone());
    assert_eq!(s, "0001deadbeefff");
    let back = from_hex(s).unwrap();
    assert_eq!(back, bytes);
}

#[test]
fn hex_accepts_upper_and_whitespace() {
    assert_eq!(from_hex("DE AD\n".to_string()).unwrap(), vec![0xdeu8, 0xad]);
}

#[test]
fn hex_rejects_bad_input() {
    assert!(from_hex("xyz".to_string()).is_err());
    assert!(from_hex("abc".to_string()).is_err()); // odd number of digits
}

#[test]
fn decimal_strings() {
    assert_eq!(dec_string(0), "0");
    assert_eq!(dec_string(86400000), "86400000");
    assert_eq!(parse_u16("3419"), Some(3419));
    assert_eq!(parse_u16(""), None);
    assert_eq!(parse_u16("65536"), None);
    assert_eq!(parse_u16("12a"), None);
}

#[test]
fn bech32_round_trip() {
    let data: Vec<u8> = (0u8..33).collect();
    let b = Bech32 { hrp: "gn".to_string(), data };
    let s = b.encode();
    assert_eq!(s.len(), 62);
    assert!(s.starts_with("gn1"));
    let back = Bech32::decode(&s).unwrap();
    assert_eq!(back.hrp, "gn");
    assert_eq!(back.data, (0u8..33).collect::<Vec<u8>>());
}

#[test]
fn bech32_rejects_corruption() {
    let data: Vec<u8> = (0u8..33).collect();
    let b = Bech32 { hrp: "tn".to_string(), data };
    let s = b.encode();
    // flip one data character to a different alphabet character
    let mut chars: Vec<char> = s.chars().collect();
    let pos = 10;
    chars[pos] = if chars[pos] == 'q' { 'p' } else { 'q' };
    let bad: String = chars.into_iter().collect();
    assert!(Bech32::decode(&bad).is_err());
}

#[test]
fn bech32_rejects_case_and_shape() {
    let upper = format!("GN1{}", "Q".repeat(59));
    assert_eq!(Bech32::decode(&upper).unwrap_err(), CodingError::MixedCase);
    assert_eq!(Bech32::decode("GN1QQQQ").unwrap_err(), CodingError::InvalidLength);
    assert!(Bech32::decode("no-separator").is_err());
    assert!(Bech32::decode("1qqqqqqqq").is_err()); // empty human-readable part
}

#[test]
fn json_encoding_matches_wire_format() {
    let challenge = GrinboxResponse::Challenge { str: "X".to_string() };
    assert_eq!(encode_response(&challenge), "{\"type\":\"Challenge\",\"str\":\"X\"}");

    let err = GrinboxResponse::Error {
        kind: GrinboxError::Offline,
        description: "recipient is not subscribed".to_string(),
    };
    assert_eq!(
        encode_response(&err),
        "{\"type\":\"Error\",\"kind\":\"Offline\",\"description\":\"recipient is not subscribed\"}"
    );

    let relay = GrinboxResponse::RelayAddr {
        abbr: "abcdef".to_string(),
        relay_addr: vec!["one".to_string(), "two".to_string()],
    };
    assert_eq!(
        encode_response(&relay),
        "{\"type\":\"RelayAddr\",\"abbr\":\"abcdef\",\"relay_addr\":[\"one\",\"two\"]}"
    );
}

#[test]
fn json_escapes_and_stays_valid_json() {
    let tricky = GrinboxResponse::Challenge { str: "a\"b\\c\nd\te\u{1}".to_string() };
    let encoded = encode_response(&tricky);
    assert_eq!(
        encoded,
        "{\"type\":\"Challenge\",\"str\":\"a\\\"b\\\\c\\nd\\te\\u0001\"}"
    );
    let parsed: serde_json::Value = serde_json::from_str(&encoded).unwrap();
    assert_eq!(parsed["str"], serde_json::Value::String("a\"b\\c\nd\te\u{1}".to_string()));
}
