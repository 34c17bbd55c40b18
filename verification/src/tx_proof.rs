//! Encrypted relay messages and proofs of their delivery. The key
//! agreement, key stretching and authenticated decryption are outside
//! calls behind trusted wrappers; everything around them is verified. The
//! JSON in which messages and slates travel is framed outside the library,
//! which receives the already-split fields.

use vstd::prelude::*;
use crate::address::{spec_hrp_bytes, ChainTypes, GrinboxAddress};
use crate::crypto::{
    pk_mul_of, pk_mul_ok, sha256_of, str_octets, verifies_with, PublicKey, SecretKey, Signature,
};
use crate::error::ErrorKind as RelayError;
use crate::utils::{hex_bytes, hex_parse_ok};

verus! {

/// The PBKDF2-HMAC-SHA512 stretch of a secret with a salt, 32 bytes out.
pub uninterp spec fn pbkdf2_of(iterations: u32, salt: Seq<u8>, secret: Seq<u8>) -> Seq<u8>;

/// Whether a ChaCha20-Poly1305 open succeeds for key, nonce and sealed
/// bytes.
pub uninterp spec fn aead_open_ok(key: Seq<u8>, nonce: Seq<u8>, sealed: Seq<u8>) -> bool;

/// The plaintext a successful ChaCha20-Poly1305 open yields.
pub uninterp spec fn aead_open_of(key: Seq<u8>, nonce: Seq<u8>, sealed: Seq<u8>) -> Seq<u8>;

/// Relies on `ring::pbkdf2::derive` with PBKDF2-HMAC-SHA512: a function of
/// iterations, salt and secret alone.
#[verifier::external_body]
fn pbkdf2_sha512(iterations: u32, salt: &[u8], secret: &[u8]) -> (r: Vec<u8>)
    requires
        iterations >= 1,
    ensures
        r@ == pbkdf2_of(iterations, salt@, secret@),
        r@.len() == 32,
{
    let mut key = [0u8; 32];
    let rounds = core::num::NonZeroU32::new(iterations).unwrap();
    ring::pbkdf2::derive(ring::pbkdf2::PBKDF2_HMAC_SHA512, rounds, salt, secret, &mut key);
    key.to_vec()
}

/// Relies on `ring::aead::LessSafeKey::open_in_place` with
/// ChaCha20-Poly1305: deterministic in key, nonce and sealed bytes; fails
/// on any other key length, nonce length, or forged ciphertext.
#[verifier::external_body]
fn chacha_open(key: &[u8], nonce: &[u8], sealed: &[u8]) -> (r: Option<Vec<u8>>)
    ensures
        r is Some <==> aead_open_ok(key@, nonce@, sealed@),
        match r {
            Some(v) => v@ == aead_open_of(key@, nonce@, sealed@),
            None => true,
        },
{
    let unbound = ring::aead::UnboundKey::new(&ring::aead::CHACHA20_POLY1305, key).ok()?;
    let nonce = ring::aead::Nonce::try_assume_unique_for_key(nonce).ok()?;
    let mut buf = sealed.to_vec();
    let aad = ring::aead::Aad::empty();
    let plain = ring::aead::LessSafeKey::new(unbound).open_in_place(nonce, aad, &mut buf).ok()?;
    Some(plain.to_vec())
}

/// An encrypted message addressed through the relay: hex-coded ciphertext,
/// salt and nonce, with an optional claimed destination.
#[derive(Clone, Debug, PartialEq)]
pub struct GrinboxMessage {
    pub destination: Option<GrinboxAddress>,
    pub encrypted_message: String,
    pub salt: String,
    pub nonce: String,
}

/// What the message key derivation yields: the PBKDF2 stretch of the
/// shared-secret x-coordinate under the message salt.
pub open spec fn spec_message_key(gm: GrinboxMessage, pk: PublicKey, sk: SecretKey) -> Seq<u8> {
    pbkdf2_of(
        10000,
        hex_bytes(gm.salt@),
        pk_mul_of(pk.bytes@, sk.0@).subrange(1, 33),
    )
}

/// On which inputs the key derivation succeeds.
pub open spec fn message_key_ok(gm: GrinboxMessage, pk: PublicKey, sk: SecretKey) -> bool {
    hex_parse_ok(gm.salt@) && pk_mul_ok(pk.bytes@, sk.0@)
}

/// On which inputs decryption succeeds.
pub open spec fn decrypt_ok(gm: GrinboxMessage, key: Seq<u8>) -> bool {
    &&& hex_parse_ok(gm.encrypted_message@)
    &&& hex_parse_ok(gm.nonce@)
    &&& aead_open_ok(key, hex_bytes(gm.nonce@), hex_bytes(gm.encrypted_message@))
    &&& vstd::utf8::valid_utf8(aead_open_of(key, hex_bytes(gm.nonce@), hex_bytes(gm.encrypted_message@)))
}

/// The decrypted text.
pub open spec fn spec_decrypted(gm: GrinboxMessage, key: Seq<u8>) -> Seq<char> {
    vstd::utf8::decode_utf8(aead_open_of(key, hex_bytes(gm.nonce@), hex_bytes(gm.encrypted_message@)))
}

impl GrinboxMessage {
    pub fn new(
        destination: Option<GrinboxAddress>,
        encrypted_message: String,
        salt: String,
        nonce: String,
    ) -> (r: GrinboxMessage)
        ensures
            r.destination == destination,
            r.encrypted_message@ == encrypted_message@,
            r.salt@ == salt@,
            r.nonce@ == nonce@,
    {
        GrinboxMessage { destination, encrypted_message, salt, nonce }
    }

    /// Derive the message key: ECDH between the sender's public key and the
    /// recipient's secret key, stretched with the message salt.
    pub fn key(&self, sender_public_key: &PublicKey, secret_key: &SecretKey) -> (r: Result<
        Vec<u8>,
        RelayError,
    >)
        ensures
            r is Ok <==> message_key_ok(*self, *sender_public_key, *secret_key),
            match r {
                Ok(k) => k@ == spec_message_key(*self, *sender_public_key, *secret_key) && k@.len()
                    == 32,
                Err(e) => e == RelayError::Decryption,
            },
    {
        let salt = match crate::utils::from_hex(self.salt.clone()) {
            Ok(s) => s,
            Err(_) => {
                return Err(RelayError::Decryption);
            },
        };
        let shared = match crate::crypto::secp_mul(
            sender_public_key.bytes.as_slice(),
            secret_key.0.as_slice(),
        ) {
            Some(s) => s,
            None => {
                return Err(RelayError::Decryption);
            },
        };
        let mut secret: Vec<u8> = Vec::new();
        let mut i: usize = 1;
        while i < 33
            invariant
                1 <= i <= 33,
                shared@.len() == 33,
                secret@ =~= shared@.subrange(1, i as int),
            decreases 33 - i,
        {
            secret.push(shared[i]);
            i += 1;
        }
        Ok(pbkdf2_sha512(10000, salt.as_slice(), secret.as_slice()))
    }

    /// Decrypt with a derived key; the plaintext must be UTF-8.
    pub fn decrypt_with_key(&self, key: &Vec<u8>) -> (r: Result<String, RelayError>)
        ensures
            r is Ok <==> decrypt_ok(*self, key@),
            match r {
                Ok(s) => s@ == spec_decrypted(*self, key@),
                Err(e) => e == RelayError::Decryption,
            },
    {
        let sealed = match crate::utils::from_hex(self.encrypted_message.clone()) {
            Ok(s) => s,
            Err(_) => {
                return Err(RelayError::Decryption);
            },
        };
        let nonce = match crate::utils::from_hex(self.nonce.clone()) {
            Ok(s) => s,
            Err(_) => {
                return Err(RelayError::Decryption);
            },
        };
        let plain = match chacha_open(key.as_slice(), nonce.as_slice(), sealed.as_slice()) {
            Some(p) => p,
            None => {
                return Err(RelayError::Decryption);
            },
        };
        match crate::utils::bytes_to_string(&plain) {
            Some(s) => Ok(s),
            None => Err(RelayError::Decryption),
        }
    }
}

/// Whether the message's claimed destination matches the expected one,
/// field for field; a missing claim or expectation always matches.
pub open spec fn destination_matches(
    gm: GrinboxMessage,
    expected: Option<&GrinboxAddress>,
) -> bool {
    match (gm.destination, expected) {
        (Some(d), Some(e)) => crate::address::addr_view_eq(d, *e),
        _ => true,
    }
}

/// How delivery-proof handling can fail.
#[derive(Clone, Copy, Debug, PartialEq, Eq, Structural)]
pub enum ErrorKind {
    ParseAddress,
    ParsePublicKey,
    ParseSignature,
    VerifySignature,
    ParseGrinboxMessage,
    VerifyDestination,
    DecryptionKey,
    DecryptMessage,
    ParseSlate,
}

/// A proof that a message was delivered through the relay: the sender's
/// address and signature over message and challenge, plus the material to
/// decrypt it.
#[derive(Clone, Debug, PartialEq)]
pub struct TxProof {
    pub address: GrinboxAddress,
    pub message: String,
    pub challenge: String,
    pub signature: Signature,
    pub key: Vec<u8>,
    pub amount: u64,
    pub fee: u64,
    pub inputs: Vec<crate::crypto::Commitment>,
    pub outputs: Vec<crate::crypto::Commitment>,
}

impl TxProof {
    /// Verify the proof's signature and destination and decrypt the
    /// carried message: the verified core of proof extraction. The JSON
    /// framing around it (reading the encrypted message out of `message`,
    /// and reading a slate out of the decrypted text) is done outside the
    /// library, which receives the already-parsed `grinbox_message`.
    pub fn verify_extract_prepared(
        &self,
        grinbox_message: &GrinboxMessage,
        expected_destination: Option<&GrinboxAddress>,
        mode: &ChainTypes,
    ) -> (r: Result<String, ErrorKind>)
        ensures
            ({
                let key_ok = <PublicKey as crate::crypto::AddrBech32<
                    PublicKey,
                >>::from_bech32_check_ok(self.address.public_key@, spec_hrp_bytes(*mode));
                let kb = crate::crypto::pk_norm_of(
                    crate::bech32::bech32_decode_of(self.address.public_key@).1,
                );
                let sig_ok = verifies_with(
                    sha256_of(str_octets(self.message@ + self.challenge@)),
                    self.signature.der@,
                    kb,
                );
                let dest_ok = destination_matches(*grinbox_message, expected_destination);
                match r {
                    Ok(s) => key_ok && sig_ok && dest_ok && decrypt_ok(*grinbox_message, self.key@)
                        && s@ == spec_decrypted(*grinbox_message, self.key@),
                    Err(e) => match e {
                        ErrorKind::ParsePublicKey => !key_ok,
                        ErrorKind::VerifySignature => key_ok && !sig_ok,
                        ErrorKind::VerifyDestination => key_ok && sig_ok && !dest_ok,
                        ErrorKind::DecryptMessage => key_ok && sig_ok && dest_ok
                            && !decrypt_ok(*grinbox_message, self.key@),
                        _ => false,
                    },
                }
            }),
    {
        let mut challenge = crate::utils::owned_str(self.message.as_str());
        challenge.append(self.challenge.as_str());
        let public_key = match self.address.public_key(mode) {
            Ok(pk) => pk,
            Err(_) => {
                return Err(ErrorKind::ParsePublicKey);
            },
        };
        proof {
            crate::address::lemma_hrp_bytes_valid(*mode);
        }
        match crate::crypto::verify_signature(challenge.as_str(), &self.signature, &public_key) {
            Ok(()) => {},
            Err(_) => {
                return Err(ErrorKind::VerifySignature);
            },
        }
        let dest_ok = match (&grinbox_message.destination, expected_destination) {
            (Some(d), Some(e)) => crate::address::same_address(d, e),
            _ => true,
        };
        if !dest_ok {
            return Err(ErrorKind::VerifyDestination);
        }
        match grinbox_message.decrypt_with_key(&self.key) {
            Ok(s) => Ok(s),
            Err(_) => Err(ErrorKind::DecryptMessage),
        }
    }
}

} // verus!
