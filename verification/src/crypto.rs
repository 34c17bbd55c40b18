//! Keys, signatures and hashes.
//!
//! Values are held as plain bytes (compressed public keys, DER signatures,
//! raw secret keys), so that the address codec and the protocol logic are
//! fully verified; the elliptic-curve and hash computations themselves are
//! performed by outside crates behind the trusted wrappers below, whose
//! results carry spec-level names.

use rand::RngExt;
use vstd::prelude::*;
use crate::bech32::{
    bech32_decode_of, is_canonical, lemma_decode_of_canonical, spec_bech32_str, valid_hrp, Bech32,
};
use crate::error::ErrorKind;
use crate::utils::{from_hex, hex_bytes, hex_of, hex_parse_ok, to_hex};

verus! {

/// The SHA-256 digest of a byte sequence.
pub uninterp spec fn sha256_of(data: Seq<u8>) -> Seq<u8>;

/// Whether these bytes are a parseable secp256k1 public key encoding.
pub uninterp spec fn pk_valid(b: Seq<u8>) -> bool;

/// The canonical (compressed, 33-byte) form of a parseable public key
/// encoding.
pub uninterp spec fn pk_norm_of(b: Seq<u8>) -> Seq<u8>;

/// Whether these 32 bytes are a usable secp256k1 secret key.
pub uninterp spec fn sk_valid(b: Seq<u8>) -> bool;

/// The compressed public key derived from a secret key.
pub uninterp spec fn pk_of(sk: Seq<u8>) -> Seq<u8>;

/// The DER signature produced over a 32-byte digest with a secret key
/// (deterministic, RFC 6979 nonces).
pub uninterp spec fn sign_der_of(digest: Seq<u8>, sk: Seq<u8>) -> Seq<u8>;

/// Whether these bytes are a strict-DER ECDSA signature.
pub uninterp spec fn der_valid(b: Seq<u8>) -> bool;

/// Whether a DER signature verifies over a 32-byte digest under a public
/// key encoding (false as well when signature or key do not parse).
pub uninterp spec fn verifies_with(digest: Seq<u8>, sig_der: Seq<u8>, pk: Seq<u8>) -> bool;

/// The UTF-8 bytes of a character sequence.
pub open spec fn str_octets(s: Seq<char>) -> Seq<u8> {
    vstd::utf8::encode_utf8(s)
}

/// Relies on `sha2::Sha256::digest`: the 32-byte SHA-256 digest, a function
/// of the input alone.
#[verifier::external_body]
pub fn sha256(data: &[u8]) -> (r: Vec<u8>)
    ensures
        r@ == sha256_of(data@),
        r@.len() == 32,
{
    <sha2::Sha256 as sha2::Digest>::digest(data).to_vec()
}

/// Relies on `secp256k1::PublicKey::from_slice` and
/// `secp256k1::PublicKey::serialize`: parsing succeeds exactly on valid key
/// encodings, and re-serializing gives the canonical compressed form (the
/// identity on a compressed input).
#[verifier::external_body]
fn secp_pk_parse(b: &[u8]) -> (r: Option<Vec<u8>>)
    ensures
        r is Some <==> pk_valid(b@),
        match r {
            Some(v) => v@ == pk_norm_of(b@) && v@.len() == 33 && pk_valid(v@) && pk_norm_of(v@)
                == v@ && (b@.len() == 33 ==> v@ == b@),
            None => true,
        },
{
    Some(secp256k1::PublicKey::from_slice(b).ok()?.serialize().to_vec())
}

/// Relies on `secp256k1::SecretKey::from_byte_array`: succeeds exactly on
/// usable secret keys.
#[verifier::external_body]
fn secp_sk_check(b: &[u8]) -> (r: bool)
    requires
        b@.len() == 32,
    ensures
        r == sk_valid(b@),
{
    secp256k1::SecretKey::from_byte_array(b.try_into().unwrap()).is_ok()
}

/// Relies on `secp256k1::PublicKey::from_secret_key` and `serialize`: the
/// compressed public key of a secret key, a function of the key alone.
#[verifier::external_body]
fn secp_pk_from_sk(sk: &[u8]) -> (r: Option<Vec<u8>>)
    requires
        sk@.len() == 32,
    ensures
        r is Some <==> sk_valid(sk@),
        match r {
            Some(v) => v@ == pk_of(sk@) && v@.len() == 33 && pk_valid(v@) && pk_norm_of(v@) == v@,
            None => true,
        },
{
    let key = secp256k1::SecretKey::from_byte_array(sk.try_into().unwrap()).ok()?;
    Some(secp256k1::PublicKey::from_secret_key(&key).serialize().to_vec())
}

/// Relies on `secp256k1::SecretKey::sign_ecdsa` (RFC 6979, deterministic)
/// and `Signature::serialize_der`: the signature is a function of digest and
/// key alone, is strict DER, and verifies under the derived public key.
#[verifier::external_body]
fn secp_sign_digest(digest: &[u8], sk: &[u8]) -> (r: Option<Vec<u8>>)
    requires
        digest@.len() == 32,
        sk@.len() == 32,
    ensures
        r is Some <==> sk_valid(sk@),
        match r {
            Some(v) => v@ == sign_der_of(digest@, sk@) && der_valid(v@) && verifies_with(
                digest@,
                v@,
                pk_of(sk@),
            ),
            None => true,
        },
{
    let key = secp256k1::SecretKey::from_byte_array(sk.try_into().unwrap()).ok()?;
    let msg = secp256k1::Message::from_digest(digest.try_into().unwrap());
    Some(key.sign_ecdsa(msg).serialize_der().to_vec())
}

/// Relies on `secp256k1::ecdsa::verify` (with `Signature::from_der` and
/// `PublicKey::from_slice`): whether the signature verifies; false when the
/// signature or key does not parse.
#[verifier::external_body]
fn secp_verify_digest(digest: &[u8], sig_der: &[u8], pk: &[u8]) -> (r: bool)
    requires
        digest@.len() == 32,
    ensures
        r == verifies_with(digest@, sig_der@, pk@),
{
    let msg = secp256k1::Message::from_digest(digest.try_into().unwrap());
    match (secp256k1::PublicKey::from_slice(pk), secp256k1::ecdsa::Signature::from_der(sig_der)) {
        (Ok(pk), Ok(sig)) => secp256k1::ecdsa::verify(&sig, msg, &pk).is_ok(),
        _ => false,
    }
}

/// Whether multiplying a public key by a scalar succeeds: the key and the
/// 32-byte scalar parse and the scalar is in range and non-zero.
pub uninterp spec fn pk_mul_ok(pk: Seq<u8>, scalar: Seq<u8>) -> bool;

/// The compressed form of a public key multiplied by a scalar.
pub uninterp spec fn pk_mul_of(pk: Seq<u8>, scalar: Seq<u8>) -> Seq<u8>;

/// Relies on `secp256k1::PublicKey::mul_tweak` (with `Scalar::from_be_bytes`
/// and `serialize`): the shared point of a key and a scalar, compressed; a
/// function of the two inputs alone.
#[verifier::external_body]
pub fn secp_mul(pk: &[u8], scalar: &[u8]) -> (r: Option<Vec<u8>>)
    ensures
        r is Some <==> pk_mul_ok(pk@, scalar@),
        match r {
            Some(v) => v@ == pk_mul_of(pk@, scalar@) && v@.len() == 33,
            None => true,
        },
{
    let key = secp256k1::PublicKey::from_slice(pk).ok()?;
    let arr: [u8; 32] = scalar.try_into().ok()?;
    let tweak = secp256k1::Scalar::from_be_bytes(arr).ok()?;
    Some(key.mul_tweak(&tweak).ok()?.serialize().to_vec())
}

/// Relies on `secp256k1::ecdsa::Signature::from_der`: succeeds exactly on
/// strict-DER signatures.
#[verifier::external_body]
fn secp_der_check(b: &[u8]) -> (r: bool)
    ensures
        r == der_valid(b@),
{
    secp256k1::ecdsa::Signature::from_der(b).is_ok()
}

/// A character the challenge alphabet allows: a digit or an ASCII letter.
pub open spec fn is_challenge_char(c: char) -> bool {
    48 <= (c as u32) <= 57 || 65 <= (c as u32) <= 90 || 97 <= (c as u32) <= 122
}

/// Relies on rand's `Alphanumeric` distribution: every sample is one of the
/// 62 digit/letter characters. Which one comes back is chance; nothing more
/// is assumed. Like any use of the thread RNG, the call can abort the
/// process if the operating system's entropy source fails at first use; that
/// is environmental, not input-dependent.
#[verifier::external_body]
fn random_alphanumeric() -> (c: char)
    ensures
        is_challenge_char(c),
{
    let b: u8 = rand::rng().sample(rand::distr::Alphanumeric);
    b as char
}

/// A fresh random challenge token: 32 characters from a 62-character
/// alphabet (about 190 bits of entropy).
pub fn generate_challenge() -> (r: String)
    ensures
        r@.len() == 32,
        forall|i: int| 0 <= i < 32 ==> is_challenge_char(#[trigger] r@[i]),
{
    let mut s = String::new();
    let mut i: usize = 0;
    while i < 32
        invariant
            i <= 32,
            s@.len() == i,
            forall|j: int| 0 <= j < i ==> is_challenge_char(#[trigger] s@[j]),
        decreases 32 - i,
    {
        let c = random_alphanumeric();
        crate::utils::push_char(&mut s, c);
        i += 1;
    }
    s
}

/// A secp256k1 public key, held in its canonical compressed 33-byte form.
#[derive(Clone, Debug, PartialEq)]
pub struct PublicKey {
    pub bytes: Vec<u8>,
}

impl PublicKey {
    /// The canonical compressed encoding of a parseable key.
    pub open spec fn wf(&self) -> bool {
        self.bytes@.len() == 33 && pk_valid(self.bytes@) && pk_norm_of(self.bytes@) == self.bytes@
    }
}

/// A secp256k1 secret key, 32 raw bytes.
#[derive(Clone, Debug, PartialEq)]
pub struct SecretKey(pub Vec<u8>);

/// An ECDSA signature, held in strict DER form.
#[derive(Clone, Debug, PartialEq)]
pub struct Signature {
    pub der: Vec<u8>,
}

/// A Pedersen commitment, held as raw bytes; the relay does not interpret
/// it.
#[derive(Clone, Debug, PartialEq)]
pub struct Commitment(pub Vec<u8>);

/// Conversion between a value and its lowercase hex rendering.
pub trait Hex<T>: Sized {
    /// Relates a successfully parsed value to the hex input.
    spec fn parsed_from_hex(v: T, s: Seq<char>) -> bool;

    /// On which inputs parsing succeeds.
    spec fn from_hex_ok(s: Seq<char>) -> bool;

    /// The error reported when it fails.
    spec fn from_hex_err(s: Seq<char>) -> ErrorKind;

    /// The bytes whose hex rendering `to_hex` returns.
    spec fn hex_view(&self) -> Seq<u8>;

    fn from_hex(text: &str) -> (r: Result<T, ErrorKind>)
        ensures
            Self::from_hex_ok(text@) ==> (r matches Ok(v) && Self::parsed_from_hex(v, text@)),
            !Self::from_hex_ok(text@) ==> r == Err::<T, ErrorKind>(Self::from_hex_err(text@)),
    ;

    fn to_hex(&self) -> (r: String)
        ensures
            r@ == hex_of(self.hex_view()),
    ;
}

/// Conversion between a value and its bech32 rendering under a
/// human-readable part.
pub trait AddrBech32<T>: Sized {
    /// Relates a successfully parsed value to the input and the
    /// human-readable part it was read under.
    spec fn parsed_from_bech32(v: T, s: Seq<char>, hrp_bytes: Seq<u8>) -> bool;

    /// Relates a successfully parsed value to the input alone, whatever its
    /// human-readable part was.
    spec fn parsed_from_bech32_any(v: T, s: Seq<char>) -> bool;

    /// On which inputs parsing succeeds when any human-readable part is
    /// accepted.
    spec fn from_bech32_ok(s: Seq<char>) -> bool;

    /// On which inputs parsing succeeds when the human-readable part must
    /// equal `hrp_bytes`.
    spec fn from_bech32_check_ok(s: Seq<char>, hrp_bytes: Seq<u8>) -> bool;

    /// Which error may be reported when parsing fails.
    spec fn from_bech32_err_ok(e: ErrorKind, s: Seq<char>) -> bool;

    spec fn from_bech32_check_err_ok(e: ErrorKind, s: Seq<char>, hrp_bytes: Seq<u8>) -> bool;

    /// What `to_bech32` asks of its input.
    spec fn to_bech32_req(&self, hrp_bytes: Seq<u8>) -> bool;

    /// The bech32 rendering of this value under a human-readable part.
    spec fn bech32_render(&self, hrp_bytes: Seq<u8>) -> Seq<char>;

    fn from_bech32(bech32_str: &str) -> (r: Result<T, ErrorKind>)
        ensures
            Self::from_bech32_ok(bech32_str@) ==> (r matches Ok(v)
                && Self::parsed_from_bech32_any(v, bech32_str@)),
            !Self::from_bech32_ok(bech32_str@) ==> (r matches Err(e)
                && Self::from_bech32_err_ok(e, bech32_str@)),
    ;

    fn from_bech32_check(bech32_str: &str, hrp_bytes: Vec<u8>) -> (r: Result<T, ErrorKind>)
        ensures
            Self::from_bech32_check_ok(bech32_str@, hrp_bytes@) ==> (r matches Ok(v)
                && Self::parsed_from_bech32(v, bech32_str@, hrp_bytes@)),
            !Self::from_bech32_check_ok(bech32_str@, hrp_bytes@) ==> (r matches Err(e)
                && Self::from_bech32_check_err_ok(e, bech32_str@, hrp_bytes@)),
    ;

    fn from_bech32_check_raw(bech32_str: &str) -> (r: Result<(T, Vec<u8>), ErrorKind>)
        ensures
            Self::from_bech32_ok(bech32_str@) ==> (r matches Ok(p)
                && Self::parsed_from_bech32(p.0, bech32_str@, p.1@)),
            !Self::from_bech32_ok(bech32_str@) ==> (r matches Err(e)
                && Self::from_bech32_err_ok(e, bech32_str@)),
    ;

    fn to_bech32(&self, hrp_bytes: Vec<u8>) -> (r: String)
        requires
            self.to_bech32_req(hrp_bytes@),
        ensures
            r@ == self.bech32_render(hrp_bytes@),
    ;
}

/// The characters of a byte sequence read as ASCII.
pub open spec fn chars_of_bytes(b: Seq<u8>) -> Seq<char> {
    Seq::new(b.len(), |i: int| b[i] as char)
}

/// A human-readable part given as bytes that renders to a usable string.
pub open spec fn valid_hrp_bytes(b: Seq<u8>) -> bool {
    valid_hrp(chars_of_bytes(b))
}

/// The byte values of a character sequence (meaningful for ASCII strings).
pub open spec fn bytes_of_chars(s: Seq<char>) -> Seq<u8> {
    Seq::new(s.len(), |i: int| ((s[i] as u32) as u8))
}

/// Characters read back from the bytes of an ASCII string are the string.
pub proof fn lemma_chars_bytes_round(h: Seq<char>)
    requires
        forall|i: int| 0 <= i < h.len() ==> (#[trigger] h[i]) as u32 <= 126,
    ensures
        chars_of_bytes(bytes_of_chars(h)) =~= h,
{
    assert forall|i: int| 0 <= i < h.len() implies chars_of_bytes(bytes_of_chars(h))[i]
        == h[i] by {
        let c = h[i];
        let b: u8 = (c as u32) as u8;
        assert(c as u32 <= 126);
        assert(b as u32 == c as u32);
        assert((b as char) as u32 == b as u32);
        vstd::utf8::char_u32_cast(c, c as u32);
        vstd::utf8::char_u32_cast(b as char, (b as char) as u32);
        assert((b as char) == c);
    }
}

/// Bytes read back from the characters of a byte sequence are the bytes.
pub proof fn lemma_bytes_chars_round(b: Seq<u8>)
    ensures
        bytes_of_chars(chars_of_bytes(b)) =~= b,
{
    assert forall|i: int| 0 <= i < b.len() implies bytes_of_chars(chars_of_bytes(b))[i]
        == b[i] by {
        let c = b[i] as char;
        assert((c as u32) == b[i] as u32);
        assert(((c as u32) as u8) == b[i]);
    }
}

impl Hex<PublicKey> for PublicKey {
    open spec fn parsed_from_hex(v: PublicKey, s: Seq<char>) -> bool {
        &&& v.wf()
        &&& v.bytes@ == pk_norm_of(hex_bytes(s))
        &&& hex_bytes(s).len() == 33 ==> v.bytes@ == hex_bytes(s)
    }

    open spec fn from_hex_ok(s: Seq<char>) -> bool {
        hex_parse_ok(s) && pk_valid(hex_bytes(s))
    }

    open spec fn from_hex_err(s: Seq<char>) -> ErrorKind {
        if !hex_parse_ok(s) {
            ErrorKind::NumberParsingError
        } else {
            ErrorKind::InvalidBech32Key
        }
    }

    open spec fn hex_view(&self) -> Seq<u8> {
        self.bytes@
    }

    fn from_hex(text: &str) -> (r: Result<PublicKey, ErrorKind>) {
        let data = match from_hex(text.to_owned()) {
            Ok(d) => d,
            Err(e) => {
                return Err(e);
            },
        };
        match secp_pk_parse(data.as_slice()) {
            Some(v) => Ok(PublicKey { bytes: v }),
            None => Err(ErrorKind::InvalidBech32Key),
        }
    }

    fn to_hex(&self) -> (r: String) {
        to_hex(crate::utils::copy_bytes(&self.bytes))
    }
}

impl Hex<Signature> for Signature {
    open spec fn parsed_from_hex(v: Signature, s: Seq<char>) -> bool {
        v.der@ == hex_bytes(s) && der_valid(v.der@)
    }

    open spec fn from_hex_ok(s: Seq<char>) -> bool {
        hex_parse_ok(s) && der_valid(hex_bytes(s))
    }

    open spec fn from_hex_err(s: Seq<char>) -> ErrorKind {
        if !hex_parse_ok(s) {
            ErrorKind::NumberParsingError
        } else {
            ErrorKind::SecpError
        }
    }

    open spec fn hex_view(&self) -> Seq<u8> {
        self.der@
    }

    fn from_hex(text: &str) -> (r: Result<Signature, ErrorKind>) {
        let data = match from_hex(text.to_owned()) {
            Ok(d) => d,
            Err(e) => {
                return Err(e);
            },
        };
        if secp_der_check(data.as_slice()) {
            Ok(Signature { der: data })
        } else {
            Err(ErrorKind::SecpError)
        }
    }

    fn to_hex(&self) -> (r: String) {
        to_hex(crate::utils::copy_bytes(&self.der))
    }
}

impl Hex<SecretKey> for SecretKey {
    open spec fn parsed_from_hex(v: SecretKey, s: Seq<char>) -> bool {
        v.0@ == hex_bytes(s) && v.0@.len() == 32 && sk_valid(v.0@)
    }

    open spec fn from_hex_ok(s: Seq<char>) -> bool {
        hex_parse_ok(s) && hex_bytes(s).len() == 32 && sk_valid(hex_bytes(s))
    }

    open spec fn from_hex_err(s: Seq<char>) -> ErrorKind {
        if !hex_parse_ok(s) {
            ErrorKind::NumberParsingError
        } else {
            ErrorKind::SecpError
        }
    }

    open spec fn hex_view(&self) -> Seq<u8> {
        self.0@
    }

    fn from_hex(text: &str) -> (r: Result<SecretKey, ErrorKind>) {
        let data = match from_hex(text.to_owned()) {
            Ok(d) => d,
            Err(e) => {
                return Err(e);
            },
        };
        if data.len() != 32 {
            return Err(ErrorKind::SecpError);
        }
        if secp_sk_check(data.as_slice()) {
            Ok(SecretKey(data))
        } else {
            Err(ErrorKind::SecpError)
        }
    }

    fn to_hex(&self) -> (r: String) {
        to_hex(crate::utils::copy_bytes(&self.0))
    }
}

impl Hex<Commitment> for Commitment {
    open spec fn parsed_from_hex(v: Commitment, s: Seq<char>) -> bool {
        v.0@ == hex_bytes(s)
    }

    open spec fn from_hex_ok(s: Seq<char>) -> bool {
        hex_parse_ok(s)
    }

    open spec fn from_hex_err(s: Seq<char>) -> ErrorKind {
        ErrorKind::NumberParsingError
    }

    open spec fn hex_view(&self) -> Seq<u8> {
        self.0@
    }

    fn from_hex(text: &str) -> (r: Result<Commitment, ErrorKind>) {
        match from_hex(text.to_owned()) {
            Ok(d) => Ok(Commitment(d)),
            Err(e) => Err(e),
        }
    }

    fn to_hex(&self) -> (r: String) {
        to_hex(crate::utils::copy_bytes(&self.0))
    }
}

/// Exec mirror of `chars_of_bytes` into a `String`.
fn hrp_string_of_bytes(b: &Vec<u8>) -> (r: String)
    ensures
        r@ == chars_of_bytes(b@),
{
    let mut s = String::new();
    let mut i: usize = 0;
    while i < b.len()
        invariant
            i <= b@.len(),
            s@ =~= chars_of_bytes(b@).take(i as int),
        decreases b@.len() - i,
    {
        crate::utils::push_char(&mut s, b[i] as char);
        i += 1;
    }
    proof {
        assert(s@ =~= chars_of_bytes(b@));
    }
    s
}

/// Whether a string's characters are exactly these bytes read as ASCII.
fn hrp_matches(hrp: &String, bytes: &Vec<u8>) -> (r: bool)
    ensures
        r == (hrp@ == chars_of_bytes(bytes@)),
{
    let s = hrp.as_str();
    let n = s.unicode_len();
    if n != bytes.len() {
        proof {
            assert(hrp@ != chars_of_bytes(bytes@));
        }
        return false;
    }
    let mut i: usize = 0;
    while i < n
        invariant
            i <= n == hrp@.len() == bytes@.len(),
            s@ == hrp@,
            forall|j: int| 0 <= j < i ==> #[trigger] hrp@[j] == chars_of_bytes(bytes@)[j],
        decreases n - i,
    {
        if s.get_char(i) != bytes[i] as char {
            proof {
                assert(hrp@[i as int] != chars_of_bytes(bytes@)[i as int]);
            }
            return false;
        }
        i += 1;
    }
    proof {
        assert(hrp@ =~= chars_of_bytes(bytes@));
    }
    true
}

/// The bytes of an ASCII string.
fn hrp_bytes_of_string(s: &String) -> (r: Vec<u8>)
    requires
        forall|i: int| 0 <= i < s@.len() ==> (#[trigger] s@[i]) as u32 <= 126,
    ensures
        r@ == bytes_of_chars(s@),
{
    let st = s.as_str();
    let n = st.unicode_len();
    let mut out: Vec<u8> = Vec::new();
    let mut i: usize = 0;
    while i < n
        invariant
            i <= n == s@.len(),
            st@ == s@,
            forall|j: int| 0 <= j < s@.len() ==> (#[trigger] s@[j]) as u32 <= 126,
            out@ =~= bytes_of_chars(s@).take(i as int),
        decreases n - i,
    {
        let c = st.get_char(i);
        out.push((c as u32) as u8);
        i += 1;
    }
    proof {
        assert(out@ =~= bytes_of_chars(s@));
    }
    out
}

impl AddrBech32<PublicKey> for PublicKey {
    open spec fn parsed_from_bech32(v: PublicKey, s: Seq<char>, hrp_bytes: Seq<u8>) -> bool {
        &&& v.wf()
        &&& is_canonical(s)
        &&& bech32_decode_of(s).0 == chars_of_bytes(hrp_bytes)
        &&& v.bytes@ == pk_norm_of(bech32_decode_of(s).1)
        &&& bech32_decode_of(s).1.len() == 33 ==> v.bytes@ == bech32_decode_of(s).1
    }

    open spec fn parsed_from_bech32_any(v: PublicKey, s: Seq<char>) -> bool {
        &&& v.wf()
        &&& is_canonical(s)
        &&& v.bytes@ == pk_norm_of(bech32_decode_of(s).1)
        &&& bech32_decode_of(s).1.len() == 33 ==> v.bytes@ == bech32_decode_of(s).1
    }

    open spec fn from_bech32_ok(s: Seq<char>) -> bool {
        is_canonical(s) && pk_valid(bech32_decode_of(s).1)
    }

    open spec fn from_bech32_check_ok(s: Seq<char>, hrp_bytes: Seq<u8>) -> bool {
        is_canonical(s) && bech32_decode_of(s).0 == chars_of_bytes(hrp_bytes) && pk_valid(
            bech32_decode_of(s).1,
        )
    }

    open spec fn from_bech32_err_ok(e: ErrorKind, s: Seq<char>) -> bool {
        if !is_canonical(s) {
            e matches ErrorKind::Bech32Error(_)
        } else {
            e == ErrorKind::InvalidBech32Key
        }
    }

    open spec fn from_bech32_check_err_ok(e: ErrorKind, s: Seq<char>, hrp_bytes: Seq<u8>) -> bool {
        if !is_canonical(s) {
            e matches ErrorKind::Bech32Error(_)
        } else if bech32_decode_of(s).0 != chars_of_bytes(hrp_bytes) {
            e == ErrorKind::InvalidChainType
        } else {
            e == ErrorKind::InvalidBech32Key
        }
    }

    open spec fn to_bech32_req(&self, hrp_bytes: Seq<u8>) -> bool {
        self.wf() && valid_hrp_bytes(hrp_bytes)
    }

    open spec fn bech32_render(&self, hrp_bytes: Seq<u8>) -> Seq<char> {
        spec_bech32_str(chars_of_bytes(hrp_bytes), self.bytes@)
    }

    fn from_bech32(bech32_str: &str) -> (r: Result<PublicKey, ErrorKind>) {
        let b = match Bech32::decode(bech32_str) {
            Ok(b) => b,
            Err(e) => {
                proof {
                    if is_canonical(bech32_str@) {
                        let (h, d) = bech32_decode_of(bech32_str@);
                        assert(valid_hrp(h) && d.len() <= 4096 && bech32_str@
                            == spec_bech32_str(h, d));
                    }
                }
                return Err(ErrorKind::Bech32Error(e));
            },
        };
        proof {
            lemma_decode_of_canonical(bech32_str@, b.hrp@, b.data@);
            lemma_chars_bytes_round(b.hrp@);
        }
        match secp_pk_parse(b.data.as_slice()) {
            Some(v) => {
                let pk = PublicKey { bytes: v };
                proof {
                    assert(<PublicKey as AddrBech32<PublicKey>>::parsed_from_bech32_any(
                        pk,
                        bech32_str@,
                    ));
                }
                Ok(pk)
            },
            None => Err(ErrorKind::InvalidBech32Key),
        }
    }

    fn from_bech32_check(bech32_str: &str, hrp_bytes: Vec<u8>) -> (r: Result<
        PublicKey,
        ErrorKind,
    >) {
        let b = match Bech32::decode(bech32_str) {
            Ok(b) => b,
            Err(e) => {
                return Err(ErrorKind::Bech32Error(e));
            },
        };
        proof {
            lemma_decode_of_canonical(bech32_str@, b.hrp@, b.data@);
        }
        if !hrp_matches(&b.hrp, &hrp_bytes) {
            return Err(ErrorKind::InvalidChainType);
        }
        match secp_pk_parse(b.data.as_slice()) {
            Some(v) => Ok(PublicKey { bytes: v }),
            None => Err(ErrorKind::InvalidBech32Key),
        }
    }

    fn from_bech32_check_raw(bech32_str: &str) -> (r: Result<(PublicKey, Vec<u8>), ErrorKind>) {
        let b = match Bech32::decode(bech32_str) {
            Ok(b) => b,
            Err(e) => {
                return Err(ErrorKind::Bech32Error(e));
            },
        };
        proof {
            lemma_decode_of_canonical(bech32_str@, b.hrp@, b.data@);
            lemma_chars_bytes_round(b.hrp@);
        }
        let hrp_vec = hrp_bytes_of_string(&b.hrp);
        match secp_pk_parse(b.data.as_slice()) {
            Some(v) => Ok((PublicKey { bytes: v }, hrp_vec)),
            None => Err(ErrorKind::InvalidBech32Key),
        }
    }

    fn to_bech32(&self, hrp_bytes: Vec<u8>) -> (r: String) {
        let hrp = hrp_string_of_bytes(&hrp_bytes);
        let b = Bech32 { hrp, data: crate::utils::copy_bytes(&self.bytes) };
        b.encode()
    }
}

/// The canonical compressed bytes of a public key.
pub fn serialize_public_key(public_key: &PublicKey) -> (r: Vec<u8>)
    ensures
        r@ == public_key.bytes@,
{
    crate::utils::copy_bytes(&public_key.bytes)
}

/// The public key that belongs to a secret key.
pub fn public_key_from_secret_key(secret_key: &SecretKey) -> (r: Result<PublicKey, ErrorKind>)
    ensures
        r is Ok <==> secret_key.0@.len() == 32 && sk_valid(secret_key.0@),
        match r {
            Ok(pk) => pk.wf() && pk.bytes@ == pk_of(secret_key.0@),
            Err(e) => e == ErrorKind::SecpError,
        },
{
    if secret_key.0.len() != 32 {
        return Err(ErrorKind::SecpError);
    }
    match secp_pk_from_sk(secret_key.0.as_slice()) {
        Some(v) => Ok(PublicKey { bytes: v }),
        None => Err(ErrorKind::SecpError),
    }
}

/// Sign the SHA-256 digest of a challenge string with a secret key.
pub fn sign_challenge(challenge: &str, secret_key: &SecretKey) -> (r: Result<Signature, ErrorKind>)
    ensures
        r is Ok <==> secret_key.0@.len() == 32 && sk_valid(secret_key.0@),
        match r {
            Ok(s) => {
                &&& s.der@ == sign_der_of(sha256_of(str_octets(challenge@)), secret_key.0@)
                &&& der_valid(s.der@)
                &&& verifies_with(
                    sha256_of(str_octets(challenge@)),
                    s.der@,
                    pk_of(secret_key.0@),
                )
            },
            Err(e) => e == ErrorKind::SecpError,
        },
{
    if secret_key.0.len() != 32 {
        return Err(ErrorKind::SecpError);
    }
    let digest = sha256(challenge.as_bytes());
    match secp_sign_digest(digest.as_slice(), secret_key.0.as_slice()) {
        Some(v) => Ok(Signature { der: v }),
        None => Err(ErrorKind::SecpError),
    }
}

/// Verify a signature over the SHA-256 digest of a challenge string.
pub fn verify_signature(challenge: &str, signature: &Signature, public_key: &PublicKey) -> (r:
    Result<(), ErrorKind>)
    ensures
        r is Ok <==> verifies_with(
            sha256_of(str_octets(challenge@)),
            signature.der@,
            public_key.bytes@,
        ),
        r is Err ==> r == Err::<(), ErrorKind>(ErrorKind::SecpError),
{
    let digest = sha256(challenge.as_bytes());
    if secp_verify_digest(digest.as_slice(), signature.der.as_slice(), public_key.bytes.as_slice())
        {
        Ok(())
    } else {
        Err(ErrorKind::SecpError)
    }
}

} // verus!
