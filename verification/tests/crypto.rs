use ed25519_dalek::Signer;
use lanpaste::codec::{content_hash_for, decimal, decimal_padded};
use lanpaste::crypto::{
    fingerprint_from_hex_pubkey, generate_pair_token, new_download_token, request_message,
    verify_request, Identity,
};
use sha2::Digest;

fn sha256(b: &[u8]) -> Vec<u8> {
    sha2::Sha256::digest(b).to_vec()
}

fn hex_encode(b: &[u8]) -> String {
    hex::encode(b)
}

#[test]
fn codecs() {
    assert_eq!(decimal(0), "0");
    assert_eq!(decimal(1234567890123), "1234567890123");
    assert_eq!(decimal_padded(42, 6), "000042");
    assert_eq!(decimal_padded(1234567, 6), "1234567");
    assert_eq!(
        content_hash_for(&[]),
        "e3b0c44298fc1c149afbf4c8996fb92427ae41e4649b934ca495991b7852b855"
    );
    let id = Identity::from_parts("d".into(), vec![1u8; 32], b"hi".to_vec(), vec![]);
    assert_eq!(id.cert_b64, "aGk=");
    let pk = id.public_key_hex();
    assert_eq!(pk, hex::encode(&id.public_key));
    assert_eq!(fingerprint_from_hex_pubkey(&pk.to_uppercase()).unwrap(), id.fingerprint);
    assert!(fingerprint_from_hex_pubkey("123").is_err());
    assert!(fingerprint_from_hex_pubkey("zz").is_err());
}

#[test]
fn content_hash_frames_parts() {
    // ("ab", "c") and ("a", "bc") must not collide.
    let x = content_hash_for(&[("ab".into(), b"c".to_vec())]);
    let y = content_hash_for(&[("a".into(), b"bc".to_vec())]);
    assert_ne!(x, y);
    let empty = content_hash_for(&[]);
    assert_eq!(empty, hex_encode(&sha256(b"")));
    let one = content_hash_for(&[("text".into(), b"hello".to_vec())]);
    assert_eq!(one, hex_encode(&sha256(b"text\0hello\xff")));
}

#[test]
fn request_signatures_verify() {
    let sk = ed25519_dalek::SigningKey::generate(&mut rand::rngs::OsRng);
    let pk = hex::encode(sk.verifying_key().as_bytes());
    let msg = request_message("dev", 77, b"body");
    let mut expected = b"dev|77|".to_vec();
    expected.extend(sha256(b"body"));
    assert_eq!(msg, sha256(&expected));
    let sig = hex::encode(sk.sign(&msg).to_bytes());
    assert!(verify_request(&pk, "dev", 77, b"body", &sig).is_ok());
    assert_eq!(verify_request(&pk, "dev", 78, b"body", &sig).unwrap_err(), "device_removed");
    assert_eq!(verify_request("zz", "dev", 77, b"body", &sig).unwrap_err(), "device_removed");
    assert_eq!(verify_request(&pk, "dev", 77, b"body", "00").unwrap_err(), "device_removed");
}

#[test]
fn fingerprints() {
    let sk = ed25519_dalek::SigningKey::generate(&mut rand::rngs::OsRng);
    let bytes = sk.verifying_key().to_bytes();
    let fp = fingerprint_from_hex_pubkey(&hex::encode(bytes)).unwrap();
    assert_eq!(fp, hex_encode(&sha256(&bytes)));
    assert_eq!(
        fingerprint_from_hex_pubkey("abcd").unwrap_err(),
        "pubkey must be 32 bytes"
    );
    assert!(fingerprint_from_hex_pubkey("xyz").unwrap_err().starts_with("pubkey hex: "));
}

#[test]
fn random_tokens_have_their_shape() {
    for _ in 0..20 {
        let t = generate_pair_token();
        assert_eq!(t.len(), 6);
        assert!(t.chars().all(|c| c.is_ascii_digit()));
    }
    let d = new_download_token();
    assert_eq!(d.len(), 32);
    assert!(d.chars().all(|c| c.is_ascii_hexdigit() && !c.is_ascii_uppercase()));
}

#[test]
fn identity_signs_requests_it_verifies() {
    let secret = [7u8; 32];
    let sk = ed25519_dalek::SigningKey::from_bytes(&secret);
    let id = Identity::from_parts("dev-a".into(), secret.to_vec(), vec![1], vec![2]);
    assert_eq!(id.public_key, sk.verifying_key().to_bytes().to_vec());
    assert_eq!(id.public_key_hex(), hex::encode(sk.verifying_key().to_bytes()));
    assert_eq!(id.fingerprint, hex_encode(&sha256(&id.public_key)));
    let sig = id.sign_request(1234, b"payload");
    let msg = request_message("dev-a", 1234, b"payload");
    assert_eq!(sig, hex::encode(sk.sign(&msg).to_bytes()));
    assert!(verify_request(&id.public_key_hex(), "dev-a", 1234, b"payload", &sig).is_ok());
    assert!(verify_request(&id.public_key_hex(), "dev-a", 1234, b"other", &sig).is_err());
    assert!(verify_request(&id.public_key_hex(), "dev-b", 1234, b"payload", &sig).is_err());
}
