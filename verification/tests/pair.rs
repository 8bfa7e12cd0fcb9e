use base64::Engine;
use lanpaste::crypto::fingerprint_from_hex_pubkey;
use lanpaste::pair::{
    check_outgoing, confirm_pairing, device_from_confirm, token_expires_at, validate_pair_confirm,
    validate_token, IncomingPair, OutgoingPair, TOKEN_EXPIRED, TOKEN_USED, TOKEN_WRONG,
};
use lanpaste::protocol::PairConfirm;

fn pending(token: &str, expires_at: i64, used: bool) -> IncomingPair {
    IncomingPair {
        peer_instance_id: "peer".into(),
        peer_name: "B".into(),
        peer_fingerprint: "fp".into(),
        peer_public_key: "pk".into(),
        peer_cert_der: "cert".into(),
        token: token.into(),
        expires_at,
        used,
    }
}

#[test]
fn token_wrong() {
    let p = pending("123456", 10_000, false);
    assert_eq!(validate_token(&p, 1_000, "000000").unwrap_err(), TOKEN_WRONG);
}

#[test]
fn token_expired() {
    let p = pending("123456", 1_000, false);
    assert_eq!(validate_token(&p, 2_000, "123456").unwrap_err(), TOKEN_EXPIRED);
}

#[test]
fn token_one_time() {
    let p = pending("123456", 10_000, true);
    assert_eq!(validate_token(&p, 1_000, "123456").unwrap_err(), TOKEN_USED);
    let p = pending("123456", 10_000, false);
    assert!(validate_token(&p, 1_000, "123456").is_ok());
}

#[test]
fn token_input_is_trimmed_and_ttl_is_a_minute() {
    let p = pending("123456", 10_000, false);
    assert!(validate_token(&p, 10_000, " 123456\n").is_ok());
    assert_eq!(token_expires_at(1_000), 61_000);
}

fn pending_for(fp: &str, pk: &str, cert: &str, name: &str, instance: &str) -> IncomingPair {
    IncomingPair {
        peer_instance_id: instance.into(),
        peer_name: name.into(),
        peer_fingerprint: fp.into(),
        peer_public_key: pk.into(),
        peer_cert_der: cert.into(),
        token: "123456".into(),
        expires_at: i64::MAX,
        used: false,
    }
}

fn key_material() -> (String, String, String) {
    let sk = ed25519_dalek::SigningKey::generate(&mut rand::rngs::OsRng);
    let pk = hex::encode(sk.verifying_key().as_bytes());
    let fp = fingerprint_from_hex_pubkey(&pk).unwrap();
    let cert = base64::engine::general_purpose::STANDARD.encode(b"cert-bytes");
    (pk, fp, cert)
}

#[test]
fn pair_confirm_accepts_matching_identity() {
    let (pk, fp, cert) = key_material();
    let pending = pending_for(&fp, &pk, &cert, "Peer", "dev-1");
    let body = PairConfirm {
        instance_id: "dev-1".into(),
        name: "Peer".into(),
        token: "123456".into(),
        fingerprint: fp,
        public_key: pk,
        cert_der: cert,
    };
    assert!(validate_pair_confirm(&pending, &body).is_ok());
}

#[test]
fn pair_confirm_rejects_changed_identity() {
    let (pk, fp, cert) = key_material();
    let pending = pending_for(&fp, &pk, &cert, "Peer", "dev-1");
    let mut body = PairConfirm {
        instance_id: "dev-1".into(),
        name: "Peer".into(),
        token: "123456".into(),
        fingerprint: fp.clone(),
        public_key: pk.clone(),
        cert_der: cert.clone(),
    };
    body.public_key = hex::encode([9u8; 32]);
    body.fingerprint = fingerprint_from_hex_pubkey(&body.public_key).unwrap();
    assert_eq!(validate_pair_confirm(&pending, &body).unwrap_err(), "pair_mismatch");
}

#[test]
fn pair_confirm_rejects_malformed_fields() {
    let (pk, fp, cert) = key_material();
    let pending = pending_for(&fp, &pk, &cert, "Peer", "dev-1");

    let mut empty = PairConfirm {
        instance_id: "dev-1".into(),
        name: "".into(),
        token: "123456".into(),
        fingerprint: fp.clone(),
        public_key: pk.clone(),
        cert_der: cert.clone(),
    };
    assert_eq!(validate_pair_confirm(&pending, &empty).unwrap_err(), "pair_mismatch");

    empty.name = "Peer".into();
    empty.public_key = "not-hex".into();
    assert!(validate_pair_confirm(&pending, &empty).is_err());

    let bad_cert = PairConfirm {
        instance_id: "dev-1".into(),
        name: "Peer".into(),
        token: "123456".into(),
        fingerprint: fp,
        public_key: pk,
        cert_der: "!!!not-base64!!!".into(),
    };
    assert_eq!(
        validate_pair_confirm(&pending, &bad_cert).unwrap_err(),
        "pair_mismatch"
    );
}

#[test]
fn confirm_uses_the_token_up() {
    let (pk, fp, cert) = key_material();
    let body = PairConfirm {
        instance_id: "dev-1".into(),
        name: "Peer".into(),
        token: "123456".into(),
        fingerprint: fp.clone(),
        public_key: pk.clone(),
        cert_der: cert.clone(),
    };
    let mut slot = Some(pending_for(&fp, &pk, &cert, "Peer", "dev-1"));
    assert!(confirm_pairing(&mut slot, 5, &body).is_ok());
    assert!(slot.as_ref().unwrap().used);
    assert_eq!(confirm_pairing(&mut slot, 5, &body).unwrap_err(), "token_invalid");
    let mut none: Option<IncomingPair> = None;
    assert_eq!(confirm_pairing(&mut none, 5, &body).unwrap_err(), "token_expired");
    let d = device_from_confirm(&body);
    assert!(d.allow_send && d.allow_receive && d.auto_write_clipboard && !d.trust_broken);
    assert_eq!(d.instance_id, "dev-1");
    assert!(d.host.is_none());
}

#[test]
fn outgoing_token_must_match_device() {
    let o = Some(OutgoingPair {
        instance_id: "dev-2".into(),
        device_name: "Two".into(),
        host: "10.0.0.2".into(),
        port: 4000,
    });
    assert!(check_outgoing(&o, "dev-2").is_ok());
    assert_eq!(check_outgoing(&o, "dev-3").unwrap_err(), "token_invalid");
    assert_eq!(check_outgoing(&None, "dev-2").unwrap_err(), "token_expired");
}

#[test]
fn honest_pairing_is_accepted() {
    let id = lanpaste::crypto::Identity::from_parts("dev-a".into(), vec![5u8; 32], b"certificate".to_vec(), vec![]);
    let req = lanpaste::pair::pair_request_body(&id, "Laptop");
    assert_eq!(req.instance_id, "dev-a");
    assert_eq!(req.name, "Laptop");
    assert_eq!(req.public_key, id.public_key_hex());
    assert_eq!(req.cert_der, "Y2VydGlmaWNhdGU=");
    let conf = lanpaste::pair::pair_confirm_body(&id, "Laptop", "123456");
    assert_eq!(conf.token, "123456");
    let pending = lanpaste::pair::incoming_from_request(req, "123456".into(), 10_000);
    assert!(lanpaste::pair::validate_pair_confirm(&pending, &conf).is_ok());
    let mut slot = Some(pending);
    assert!(lanpaste::pair::confirm_pairing(&mut slot, 1_000, &conf).is_ok());
    assert!(slot.unwrap().used);
    let resp = lanpaste::pair::confirm_response(&id, "Laptop");
    assert_eq!(resp.fingerprint, id.fingerprint);
    // Someone else's confirmation does not match the pending request.
    let other = lanpaste::crypto::Identity::from_parts("dev-b".into(), vec![6u8; 32], b"c2".to_vec(), vec![]);
    let pending = lanpaste::pair::incoming_from_request(
        lanpaste::pair::pair_request_body(&id, "Laptop"),
        "123456".into(),
        10_000,
    );
    let forged = lanpaste::pair::pair_confirm_body(&other, "Laptop", "123456");
    assert_eq!(lanpaste::pair::validate_pair_confirm(&pending, &forged).unwrap_err(), "pair_mismatch");
}
