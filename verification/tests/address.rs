use grinrelay::address::{hrp_bytes, is_mainnet, set_running_mode, ChainTypes, GrinboxAddress};
use grinrelay::crypto::{public_key_from_secret_key, AddrBech32, Hex, PublicKey, SecretKey};
use grinrelay::error::ErrorKind;

fn test_key(seed: u8) -> (SecretKey, PublicKey) {
    let mut bytes = vec![0u8; 32];
    bytes[31] = seed;
    let sk = SecretKey(bytes);
    let pk = public_key_from_secret_key(&sk).unwrap();
    (sk, pk)
}

#[test]
fn running_mode_selects_hrp() {
    let mut mode = ChainTypes::Floonet;
    assert!(!is_mainnet(&mode));
    assert_eq!(hrp_bytes(&mode), b"tn".to_vec());
    set_running_mode(&mut mode, ChainTypes::Mainnet);
    assert!(is_mainnet(&mode));
    assert_eq!(hrp_bytes(&mode), b"gn".to_vec());
}

#[test]
fn address_round_trip_bare() {
    let mode = ChainTypes::Mainnet;
    let (_, pk) = test_key(1);
    let addr = GrinboxAddress::new(pk, None, None, &mode);
    assert_eq!(addr.public_key.len(), 62);
    assert!(addr.public_key.starts_with("gn1"));
    let rendered = addr.display_string();
    assert!(rendered.starts_with("grinrelay://gn1"));
    let back = GrinboxAddress::from_str(&rendered, &mode).unwrap();
    assert_eq!(back, addr);
    // the stripped form parses too
    let back2 = GrinboxAddress::from_str(&addr.stripped(), &mode).unwrap();
    assert_eq!(back2, addr);
}

#[test]
fn address_round_trip_with_domain_and_port() {
    let mode = ChainTypes::Floonet;
    let (_, pk) = test_key(2);
    let addr = GrinboxAddress::new(pk, Some("example.com".to_string()), Some(4000), &mode);
    let rendered = addr.display_string();
    assert!(rendered.ends_with("@example.com:4000"));
    let back = GrinboxAddress::from_str(&rendered, &mode).unwrap();
    assert_eq!(back, addr);
}

#[test]
fn address_round_trip_domain_resembling_default() {
    // a domain that merely ends with the default one is still rendered and
    // recovered in full
    let mode = ChainTypes::Mainnet;
    let (_, pk) = test_key(9);
    for domain in ["xrelay.grin.icu", "sub.relay.grin.icu"] {
        let addr = GrinboxAddress::new(pk.clone(), Some(domain.to_string()), None, &mode);
        let rendered = addr.display_string();
        assert!(rendered.ends_with(&format!("@{}", domain)));
        let back = GrinboxAddress::from_str(&rendered, &mode).unwrap();
        assert_eq!(back, addr);
    }
    // the default domain itself is elided
    let addr = GrinboxAddress::new(pk, Some("relay.grin.icu".to_string()), None, &mode);
    assert!(!addr.display_string().contains('@'));
    assert_eq!(GrinboxAddress::from_str(&addr.display_string(), &mode).unwrap(), addr);
}

#[test]
fn address_wrong_chain_is_rejected() {
    let (_, pk) = test_key(3);
    let addr = GrinboxAddress::new(pk, None, None, &ChainTypes::Mainnet);
    let r = GrinboxAddress::from_str(&addr.public_key, &ChainTypes::Floonet);
    assert_eq!(r.unwrap_err(), ErrorKind::InvalidChainType);
}

#[test]
fn address_bad_shapes_are_rejected() {
    let mode = ChainTypes::Mainnet;
    assert!(matches!(
        GrinboxAddress::from_str("tooshort", &mode),
        Err(ErrorKind::GrinboxAddressParsingError(_))
    ));
    let (_, pk) = test_key(4);
    let addr = GrinboxAddress::new(pk, None, None, &mode);
    // a corrupted checksum is a bech32 coding error
    let mut s = addr.public_key.clone();
    let last = if s.ends_with('q') { 'p' } else { 'q' };
    s.pop();
    s.push(last);
    assert!(matches!(
        GrinboxAddress::from_str(&s, &mode),
        Err(ErrorKind::Bech32Error(_))
    ));
    // an empty port is a parse error, as is an oversized one
    let with_port = format!("{}@example.com:", addr.public_key);
    assert!(matches!(
        GrinboxAddress::from_str(&with_port, &mode),
        Err(ErrorKind::GrinboxAddressParsingError(_))
    ));
    let with_port = format!("{}@example.com:70000", addr.public_key);
    assert!(matches!(
        GrinboxAddress::from_str(&with_port, &mode),
        Err(ErrorKind::GrinboxAddressParsingError(_))
    ));
}

#[test]
fn raw_parse_keeps_the_hrp() {
    let (_, pk) = test_key(5);
    let addr = GrinboxAddress::new_raw(pk.clone(), None, None, b"xy".to_vec());
    assert!(addr.public_key.starts_with("xy1"));
    let back = GrinboxAddress::from_str_raw(&addr.public_key).unwrap();
    assert_eq!(back.hrp_bytes, Some(b"xy".to_vec()));
    assert_eq!(back.public_key, addr.public_key);
}

#[test]
fn public_key_recovers_and_serializes() {
    let mode = ChainTypes::Mainnet;
    let (_, pk) = test_key(6);
    let addr = GrinboxAddress::new(pk.clone(), None, None, &mode);
    let recovered = addr.public_key(&mode).unwrap();
    assert_eq!(recovered.bytes, pk.bytes);
    assert_eq!(grinrelay::crypto::serialize_public_key(&recovered), pk.bytes);
}

#[test]
fn hex_key_round_trips() {
    let (sk, pk) = test_key(7);
    let sk_hex = sk.to_hex();
    assert_eq!(SecretKey::from_hex(&sk_hex).unwrap(), sk);
    let pk_hex = pk.to_hex();
    assert_eq!(PublicKey::from_hex(&pk_hex).unwrap(), pk);
    assert!(PublicKey::from_hex("00").is_err());
    assert!(SecretKey::from_hex("zz").is_err());
}

#[test]
fn bech32_trait_round_trips() {
    let (_, pk) = test_key(8);
    let s = pk.to_bech32(b"tn".to_vec());
    let back = PublicKey::from_bech32(&s).unwrap();
    assert_eq!(back, pk);
    let checked = PublicKey::from_bech32_check(&s, b"tn".to_vec()).unwrap();
    assert_eq!(checked, pk);
    assert_eq!(
        PublicKey::from_bech32_check(&s, b"gn".to_vec()).unwrap_err(),
        ErrorKind::InvalidChainType
    );
    let (raw, hrp) = PublicKey::from_bech32_check_raw(&s).unwrap();
    assert_eq!(raw, pk);
    assert_eq!(hrp, b"tn".to_vec());
}
