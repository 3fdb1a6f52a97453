use base64::prelude::BASE64_STANDARD;
use base64::Engine;
use log_sender::client::build_registration_sig_payload;
use log_sender::crypto::{generate_keypair, SecKey};
use rsa::pkcs8::DecodePublicKey;
use rsa::sha2::Digest;
use rsa::traits::SignatureScheme;

fn decode_public_key(encoded: &str) -> rsa::RsaPublicKey {
    let pem_bytes = BASE64_STANDARD.decode(encoded).expect("key encoding is base64");
    let pem = String::from_utf8(pem_bytes).expect("key encoding wraps utf-8 pem");
    assert!(pem.starts_with("-----BEGIN PUBLIC KEY-----"));
    rsa::RsaPublicKey::from_public_key_pem(&pem).expect("pem must hold an spki public key")
}

fn pss_verify(pk: &rsa::RsaPublicKey, payload: &[u8], sig_b64: &str) -> bool {
    let sig = BASE64_STANDARD.decode(sig_b64).expect("signature is base64");
    let digest = rsa::sha2::Sha256::digest(payload);
    let pss = rsa::pss::Pss::new_with_salt::<rsa::sha2::Sha256>(32);
    pss.verify(pk, &digest, &sig).is_ok()
}

#[test]
fn two_signatures_differ_but_both_verify() {
    let (pk, sk) = generate_keypair().unwrap();
    let verifier = decode_public_key(&pk.encode().unwrap());
    let payload = build_registration_sig_payload("PK", "UK", 123);

    let sig1 = sk.sign(payload.as_bytes()).unwrap();
    let sig2 = sk.sign(payload.as_bytes()).unwrap();
    assert_ne!(sig1, sig2, "pss signatures are randomized");
    assert!(pss_verify(&verifier, payload.as_bytes(), &sig1));
    assert!(pss_verify(&verifier, payload.as_bytes(), &sig2));

    let altered = build_registration_sig_payload("PK", "UK", 124);
    assert!(!pss_verify(&verifier, altered.as_bytes(), &sig1));
}

#[test]
fn key_encoding_round_trips_through_decode() {
    let (pk, sk) = generate_keypair().unwrap();
    let verifier = decode_public_key(&pk.encode().unwrap());

    let encoded = sk.encode().unwrap();
    let reloaded = SecKey::decode(encoded.as_bytes()).unwrap();
    let reloaded = reloaded.precompute().unwrap();

    let payload = b"payload bytes";
    let sig = reloaded.sign(payload).unwrap();
    assert!(pss_verify(&verifier, payload, &sig));
}

#[test]
fn bad_key_material_is_rejected() {
    assert!(SecKey::decode(b"!!! not base64 !!!").is_err());
    let valid_b64_bad_der = BASE64_STANDARD.encode(b"not a der key");
    assert!(SecKey::decode(valid_b64_bad_der.as_bytes()).is_err());
}
