use grinrelay::address::{ChainTypes, GrinboxAddress};
use grinrelay::crypto::{public_key_from_secret_key, sign_challenge, PublicKey, SecretKey};
use grinrelay::tx_proof::{ErrorKind as ProofError, GrinboxMessage, TxProof};
use grinrelay::utils::to_hex;
use ring::aead::{Aad, LessSafeKey, Nonce, UnboundKey, CHACHA20_POLY1305};

const MODE: ChainTypes = ChainTypes::Mainnet;

fn test_key(seed: u8) -> (SecretKey, PublicKey) {
    let mut bytes = vec![0u8; 32];
    bytes[31] = seed;
    let sk = SecretKey(bytes);
    let pk = public_key_from_secret_key(&sk).unwrap();
    (sk, pk)
}

/// Seal a message the way a sending wallet does: derive the shared key from
/// the recipient's public key and the sender's secret key, then encrypt.
fn seal(plain: &str, key: &[u8], nonce: &[u8; 12]) -> String {
    let unbound = UnboundKey::new(&CHACHA20_POLY1305, key).unwrap();
    let mut buf = plain.as_bytes().to_vec();
    LessSafeKey::new(unbound)
        .seal_in_place_append_tag(Nonce::assume_unique_for_key(*nonce), Aad::empty(), &mut buf)
        .unwrap();
    to_hex(buf)
}

#[test]
fn message_key_agreement_is_symmetric() {
    let (sk_a, pk_a) = test_key(51);
    let (sk_b, pk_b) = test_key(52);
    let gm = GrinboxMessage::new(None, String::new(), "00ff".to_string(), String::new());
    let k_ab = gm.key(&pk_a, &sk_b).unwrap();
    let k_ba = gm.key(&pk_b, &sk_a).unwrap();
    assert_eq!(k_ab, k_ba);
    assert_eq!(k_ab.len(), 32);
}

#[test]
fn message_decrypts_what_the_peer_sealed() {
    let (sk_a, pk_a) = test_key(53);
    let (sk_b, pk_b) = test_key(54);
    let nonce = [7u8; 12];
    let salt = "a1b2c3d4".to_string();
    let skeleton =
        GrinboxMessage::new(None, String::new(), salt.clone(), to_hex(nonce.to_vec()));
    // the sender derives the key from the recipient's public key
    let key = skeleton.key(&pk_b, &sk_a).unwrap();
    let sealed = seal("the payload", &key, &nonce);
    let gm = GrinboxMessage::new(None, sealed, salt, to_hex(nonce.to_vec()));
    // the recipient derives the same key from the sender's public key
    let key_b = gm.key(&pk_a, &sk_b).unwrap();
    assert_eq!(gm.decrypt_with_key(&key_b).unwrap(), "the payload");
    // a wrong key fails authentication
    let mut bad = key_b.clone();
    bad[0] ^= 1;
    assert!(gm.decrypt_with_key(&bad).is_err());
}

#[test]
fn proof_verifies_signature_destination_and_decryption() {
    let (sk_a, pk_a) = test_key(55);
    let (sk_b, pk_b) = test_key(56);
    let sender = GrinboxAddress::new(pk_a.clone(), None, None, &MODE);
    let recipient = GrinboxAddress::new(pk_b.clone(), None, None, &MODE);

    let nonce = [9u8; 12];
    let salt = "0011".to_string();
    let skeleton =
        GrinboxMessage::new(None, String::new(), salt.clone(), to_hex(nonce.to_vec()));
    let key = skeleton.key(&pk_b, &sk_a).unwrap();
    let sealed = seal("{\"amount\":1}", &key, &nonce);
    let gm = GrinboxMessage::new(
        Some(recipient.clone()),
        sealed,
        salt,
        to_hex(nonce.to_vec()),
    );

    let message = "the carried envelope".to_string();
    let challenge = "NONCE".to_string();
    let signed = format!("{}{}", message, challenge);
    let signature = sign_challenge(&signed, &sk_a).unwrap();

    let proof = TxProof {
        address: sender.clone(),
        message,
        challenge,
        signature,
        key: gm.key(&pk_a, &sk_b).unwrap(),
        amount: 0,
        fee: 0,
        inputs: vec![],
        outputs: vec![],
    };

    let decrypted = proof.verify_extract_prepared(&gm, Some(&recipient), &MODE).unwrap();
    assert_eq!(decrypted, "{\"amount\":1}");

    // a different expected destination is rejected
    let elsewhere = GrinboxAddress::new(pk_a, None, None, &MODE);
    assert_eq!(
        proof.verify_extract_prepared(&gm, Some(&elsewhere), &MODE).unwrap_err(),
        ProofError::VerifyDestination
    );

    // a destination with the right key but another domain is rejected too
    let same_key_other_domain =
        GrinboxAddress::new(pk_b, Some("other.example".to_string()), None, &MODE);
    assert_eq!(
        proof.verify_extract_prepared(&gm, Some(&same_key_other_domain), &MODE).unwrap_err(),
        ProofError::VerifyDestination
    );

    // a tampered message breaks the signature
    let mut bad = proof.clone();
    bad.message = "another envelope".to_string();
    assert_eq!(
        bad.verify_extract_prepared(&gm, Some(&recipient), &MODE).unwrap_err(),
        ProofError::VerifySignature
    );
}
