//! Crypto utility types: an RSA keypair for PSS signing with SHA-256
//! digests, encoded keys, and base64 signatures.
//!
//! Every call into the crypto crates stands behind a trusted wrapper; the
//! functions around them are verified.  Nothing is promised of key or
//! signature bytes themselves: keys come from randomness and PSS signing
//! is randomized, so the contracts state only what holds of every outcome.

use vstd::prelude::*;

use crate::error::Error;
use base64::prelude::BASE64_STANDARD;
use base64::Engine;
use rsa::sha2::Digest;
use rsa::pkcs8::{EncodePublicKey, EncodePrivateKey, DecodePrivateKey};

verus! {

/// `rsa::RsaPublicKey`, declared so that it can stand in fields.
#[verifier::external_type_specification]
#[verifier::external_body]
pub struct ExRsaPublicKey(rsa::RsaPublicKey);

/// `rsa::RsaPrivateKey`, declared so that it can stand in fields.
#[verifier::external_type_specification]
#[verifier::external_body]
pub struct ExRsaPrivateKey(rsa::RsaPrivateKey);

/// Public key.
pub struct PubKey(rsa::RsaPublicKey);

/// Secret key.
pub struct SecKey(rsa::RsaPrivateKey);

/// What base64 standard encoding makes of a byte string.
pub uninterp spec fn b64_of(bytes: Seq<u8>) -> Seq<char>;

/// What base64 standard decoding makes of a character string given as
/// bytes: `Some` exactly on valid base64.
pub uninterp spec fn b64_decode_of(data: Seq<u8>) -> Option<Seq<u8>>;

/// The SHA-256 digest of a byte string.
pub uninterp spec fn sha256_of(data: Seq<u8>) -> Seq<u8>;

/// Whether a byte string is a well-formed PKCS#8 DER RSA private key: the
/// DER parse is a function of the bytes alone.
pub uninterp spec fn pkcs8_parses(der: Seq<u8>) -> bool;

/// Relies on `base64::Engine::encode` with the standard alphabet: the
/// result is a function of the input bytes alone, and padded standard
/// base64 is four characters for every started group of three bytes.
#[verifier::external_body]
fn b64_encode(bytes: &[u8]) -> (r: String)
    ensures
        r@ == b64_of(bytes@),
        r@.len() == 4 * ((bytes@.len() + 2) / 3),
{
    BASE64_STANDARD.encode(bytes)
}

/// Relies on `base64::Engine::decode` with the standard alphabet: the
/// result is a function of the input bytes alone, `Err` exactly on input
/// that is not valid padded base64.
#[verifier::external_body]
fn b64_decode(data: &[u8]) -> (r: Result<Vec<u8>, Error>)
    ensures
        r is Ok <==> b64_decode_of(data@) is Some,
        r matches Ok(v) ==> b64_decode_of(data@) == Some(v@),
        r matches Err(e) ==> e is Crypto,
{
    BASE64_STANDARD.decode(data).map_err(|e| Error::Crypto(format!("bad base64: {e}")))
}

/// Relies on `sha2::Sha256::digest` (via the `rsa::sha2` re-export): the
/// digest is a function of the input alone and is 32 bytes long.
#[verifier::external_body]
fn sha256(data: &[u8]) -> (r: Vec<u8>)
    ensures
        r@ == sha256_of(data@),
        r@.len() == 32,
{
    rsa::sha2::Sha256::digest(data).to_vec()
}

/// Relies on `rsa::RsaPrivateKey::new` with `rand::thread_rng`: generates
/// a fresh private key with a 2048-bit modulus, failing only on an
/// internal generation failure.
#[verifier::external_body]
fn generate_private_key() -> (r: Result<rsa::RsaPrivateKey, Error>)
    ensures
        r matches Err(e) ==> e is Crypto,
{
    rsa::RsaPrivateKey::new(&mut rand::thread_rng(), 2048).map_err(
        |e| Error::Crypto(format!("key generation failed: {e}")),
    )
}

/// Relies on `rsa::RsaPublicKey::from`: derives the public half of a
/// private key.
#[verifier::external_body]
fn public_key_of(sk: &rsa::RsaPrivateKey) -> (r: rsa::RsaPublicKey) {
    rsa::RsaPublicKey::from(sk)
}

/// Relies on `rsa::RsaPrivateKey::precompute`: precomputes CRT values to
/// speed signing up; a pure optimization with no observable output.
#[verifier::external_body]
fn precompute_private_key(sk: &mut rsa::RsaPrivateKey) -> (r: Result<(), Error>)
    ensures
        r matches Err(e) ==> e is Crypto,
{
    sk.precompute().map_err(|e| Error::Crypto(format!("precompute failed: {e}")))
}

/// Relies on `rsa::pkcs8::EncodePublicKey::to_public_key_pem`: renders the
/// key in SPKI PEM form, the form the collector's verification side expects.
#[verifier::external_body]
fn public_key_pem(pk: &rsa::RsaPublicKey) -> (r: Result<String, Error>)
    ensures
        r matches Err(e) ==> e is Crypto,
{
    pk.to_public_key_pem(rsa::pkcs8::LineEnding::default()).map_err(
        |e| Error::Crypto(format!("public key encoding failed: {e}")),
    )
}

/// Relies on `rsa::pkcs8::EncodePrivateKey::to_pkcs8_der`: renders the
/// private key in PKCS#8 DER form.
#[verifier::external_body]
fn private_key_der(sk: &rsa::RsaPrivateKey) -> (r: Result<Vec<u8>, Error>)
    ensures
        r matches Err(e) ==> e is Crypto,
{
    match sk.to_pkcs8_der() {
        Ok(doc) => Ok(doc.as_bytes().to_vec()),
        Err(e) => Err(Error::Crypto(format!("private key encoding failed: {e}"))),
    }
}

/// Relies on `rsa::pkcs8::DecodePrivateKey::from_pkcs8_der`: reads a
/// private key back from PKCS#8 DER bytes; whether the bytes parse is a
/// function of the bytes alone, so success is exactly `pkcs8_parses`.
#[verifier::external_body]
fn private_key_from_der(der: &[u8]) -> (r: Result<rsa::RsaPrivateKey, Error>)
    ensures
        r is Ok <==> pkcs8_parses(der@),
        r matches Err(e) ==> e is Crypto,
{
    rsa::RsaPrivateKey::from_pkcs8_der(der).map_err(
        |e| Error::Crypto(format!("bad private key: {e}")),
    )
}

/// Relies on `rsa::RsaPrivateKey::sign_with_rng` with the PSS scheme of
/// `rsa::pss::Pss::new_with_salt::<Sha256>(32)` and `rand::thread_rng`:
/// signs a precomputed digest; the signature is randomized, so nothing is
/// stated of its bytes.
#[verifier::external_body]
fn pss_sign(sk: &rsa::RsaPrivateKey, digest: &[u8]) -> (r: Result<Vec<u8>, Error>)
    ensures
        r matches Err(e) ==> e is Crypto,
{
    let pss = rsa::pss::Pss::new_with_salt::<rsa::sha2::Sha256>(32);
    sk.sign_with_rng(&mut rand::thread_rng(), pss, digest).map_err(
        |e| Error::Crypto(format!("signing failed: {e}")),
    )
}

impl PubKey {
    /// Encode the public key: base64 of its SPKI PEM form, for
    /// compatibility with the collector's verification side.
    pub fn encode(&self) -> (r: Result<String, Error>)
        ensures
            r matches Ok(s) ==> exists|pem: Seq<char>|
                s@ == b64_of(vstd::utf8::encode_utf8(pem)),
            r matches Err(e) ==> e is Crypto,
    {
        let pem = match public_key_pem(&self.0) {
            Ok(p) => p,
            Err(e) => {
                return Err(e);
            },
        };
        let encoded = b64_encode(pem.as_str().as_bytes());
        proof {
            assert(encoded@ == b64_of(vstd::utf8::encode_utf8(pem@)));
        }
        Ok(encoded)
    }
}

impl SecKey {
    /// Decode a private key from base64-wrapped PKCS#8 DER bytes: succeeds
    /// exactly when the text is valid base64 of a well-formed PKCS#8 RSA
    /// private key, and fails with a crypto error otherwise.
    pub fn decode(data: &[u8]) -> (r: Result<Self, Error>)
        ensures
            r is Ok <==> (b64_decode_of(data@) matches Some(der) && pkcs8_parses(der)),
            r matches Err(e) ==> e is Crypto,
    {
        let der = match b64_decode(data) {
            Ok(v) => v,
            Err(e) => {
                return Err(e);
            },
        };
        match private_key_from_der(der.as_slice()) {
            Ok(key) => Ok(SecKey(key)),
            Err(e) => Err(e),
        }
    }

    /// Encode the private key: base64 of its PKCS#8 DER form.
    pub fn encode(&self) -> (r: Result<String, Error>)
        ensures
            r matches Ok(s) ==> exists|der: Seq<u8>| s@ == b64_of(der),
            r matches Err(e) ==> e is Crypto,
    {
        let der = match private_key_der(&self.0) {
            Ok(v) => v,
            Err(e) => {
                return Err(e);
            },
        };
        let encoded = b64_encode(der.as_slice());
        Ok(encoded)
    }

    /// Precompute to speed up signing; a pure optimization whose effect is
    /// not observable in any output.
    pub fn precompute(self) -> (r: Result<Self, Error>)
        ensures
            r matches Err(e) ==> e is Crypto,
    {
        let SecKey(mut key) = self;
        match precompute_private_key(&mut key) {
            Ok(()) => Ok(SecKey(key)),
            Err(e) => Err(e),
        }
    }

    /// Sign some data: base64 of the randomized PSS signature over the
    /// SHA-256 digest of `data`, with a 32-byte salt.
    pub fn sign(&self, data: &[u8]) -> (r: Result<String, Error>)
        ensures
            r matches Ok(s) ==> exists|raw: Seq<u8>| s@ == b64_of(raw),
            r matches Err(e) ==> e is Crypto,
    {
        let digest = sha256(data);
        let raw = match pss_sign(&self.0, digest.as_slice()) {
            Ok(v) => v,
            Err(e) => {
                return Err(e);
            },
        };
        let encoded = b64_encode(raw.as_slice());
        Ok(encoded)
    }
}

/// Generate a fresh keypair suitable for PSS signing with SHA-256 digests.
pub fn generate_keypair() -> (r: Result<(PubKey, SecKey), Error>)
    ensures
        r matches Err(e) ==> e is Crypto,
{
    let sk = match generate_private_key() {
        Ok(k) => k,
        Err(e) => {
            return Err(e);
        },
    };
    let pk = public_key_of(&sk);
    Ok((PubKey(pk), SecKey(sk)))
}

} // verus!
