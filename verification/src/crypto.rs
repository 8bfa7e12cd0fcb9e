//! Device identity checks: signed requests, public-key fingerprints, and the
//! random values pairing and downloads hand out.

use vstd::prelude::*;
use vstd::utf8::encode_utf8;
use ed25519_dalek::Signer;
use ed25519_dalek::Verifier;
use rand::Rng;
use rand::RngCore;
use crate::codec::{
    append_bytes, dec_of, decimal, decimal_padded, hex_decode, hex_decode_str, hex_encode, hex_of,
    b64_encode, is_b64_char, lemma_hex_roundtrip, sha256, spec_b64_decode, spec_b64_encode,
    spec_sha256, zero_padded,
};

verus! {

/// Whether 32 bytes are the compressed form of a valid Ed25519 public key.
pub uninterp spec fn spec_ed25519_key_ok(pk: Seq<u8>) -> bool;

/// Whether Ed25519 signature `sig` on `msg` verifies under public key `pk`.
pub uninterp spec fn spec_ed25519_accepts(pk: Seq<u8>, msg: Seq<u8>, sig: Seq<u8>) -> bool;

/// `ed25519_dalek::VerifyingKey::from_bytes`: whether the 32 bytes decompress
/// to a curve point; the crate's error message otherwise (its wording is not
/// stated).
#[verifier::external_body]
fn ed25519_key_check(pk: &[u8]) -> (r: Result<(), String>)
    requires
        pk@.len() == 32,
    ensures
        r is Ok == spec_ed25519_key_ok(pk@),
{
    let mut a = [0u8; 32];
    a.copy_from_slice(pk);
    ed25519_dalek::VerifyingKey::from_bytes(&a).map(|_| ()).map_err(|e| e.to_string())
}

/// `ed25519_dalek::VerifyingKey::verify` with the key built by `from_bytes`
/// and the signature by `Signature::from_bytes`: true when the key is valid
/// and the signature on `msg` verifies under it.
#[verifier::external_body]
fn ed25519_verify(pk: &[u8], msg: &[u8], sig: &[u8]) -> (r: bool)
    requires
        pk@.len() == 32,
        sig@.len() == 64,
    ensures
        r == (spec_ed25519_key_ok(pk@) && spec_ed25519_accepts(pk@, msg@, sig@)),
{
    let mut a = [0u8; 32];
    a.copy_from_slice(pk);
    let mut s = [0u8; 64];
    s.copy_from_slice(sig);
    match ed25519_dalek::VerifyingKey::from_bytes(&a) {
        Ok(vk) => vk.verify(msg, &ed25519_dalek::Signature::from_bytes(&s)).is_ok(),
        Err(_) => false,
    }
}

/// The Ed25519 public key of a 32-byte secret key.
pub uninterp spec fn spec_ed25519_public(secret: Seq<u8>) -> Seq<u8>;

/// The Ed25519 signature of `msg` under a 32-byte secret key.
pub uninterp spec fn spec_ed25519_sign(secret: Seq<u8>, msg: Seq<u8>) -> Seq<u8>;

/// `ed25519_dalek::SigningKey::from_bytes(..).verifying_key().to_bytes()`:
/// the compressed public key, which `VerifyingKey::from_bytes` accepts back.
#[verifier::external_body]
fn ed25519_public_key(secret: &[u8]) -> (r: Vec<u8>)
    requires
        secret@.len() == 32,
    ensures
        r@ == spec_ed25519_public(secret@),
        r@.len() == 32,
        spec_ed25519_key_ok(r@),
{
    let mut a = [0u8; 32];
    a.copy_from_slice(secret);
    ed25519_dalek::SigningKey::from_bytes(&a).verifying_key().to_bytes().to_vec()
}

/// `ed25519_dalek::SigningKey::sign` (through `Signer`), as 64 bytes: a
/// signature that `verify` under the matching public key accepts, as the
/// crate's documented sign-then-verify example shows.
#[verifier::external_body]
fn ed25519_sign(secret: &[u8], msg: &[u8]) -> (r: Vec<u8>)
    requires
        secret@.len() == 32,
    ensures
        r@ == spec_ed25519_sign(secret@, msg@),
        r@.len() == 64,
        spec_ed25519_accepts(spec_ed25519_public(secret@), msg@, r@),
{
    let mut a = [0u8; 32];
    a.copy_from_slice(secret);
    ed25519_dalek::SigningKey::from_bytes(&a).sign(msg).to_bytes().to_vec()
}

/// This device's identity: its instance id, its Ed25519 key pair, the
/// fingerprint peers pin, and the TLS certificate and key it serves with.
pub struct Identity {
    pub instance_id: String,
    pub secret_key: Vec<u8>,
    pub public_key: Vec<u8>,
    pub fingerprint: String,
    pub cert_der: Vec<u8>,
    /// The certificate in base64, as peers are shown it.
    pub cert_b64: String,
    pub key_der: Vec<u8>,
}

impl Identity {
    /// The public key and fingerprint belong to the secret key.
    pub open spec fn wf(&self) -> bool {
        &&& self.secret_key@.len() == 32
        &&& self.public_key@ == spec_ed25519_public(self.secret_key@)
        &&& self.public_key@.len() == 32
        &&& spec_ed25519_key_ok(self.public_key@)
        &&& spec_sha256(self.public_key@).len() == 32
        &&& self.fingerprint@ == fingerprint_of_key(self.public_key@)
        &&& self.cert_b64@ == spec_b64_encode(self.cert_der@)
        &&& spec_b64_decode(self.cert_b64@) == Some(self.cert_der@)
        &&& self.cert_b64@.len() == 4 * ((self.cert_der@.len() + 2) / 3)
        &&& forall|k: int|
            0 <= k < self.cert_b64@.len() ==> is_b64_char(#[trigger] self.cert_b64@[k])
    }

    /// The identity of a secret key, with its public key and fingerprint.
    pub fn from_parts(
        instance_id: String,
        secret_key: Vec<u8>,
        cert_der: Vec<u8>,
        key_der: Vec<u8>,
    ) -> (r: Identity)
        requires
            secret_key@.len() == 32,
        ensures
            r.wf(),
            r.instance_id == instance_id,
            r.secret_key == secret_key,
            r.cert_der == cert_der,
            r.key_der == key_der,
    {
        let public_key = ed25519_public_key(secret_key.as_slice());
        let digest = sha256(public_key.as_slice());
        let fingerprint = hex_encode(digest.as_slice());
        let cert_b64 = b64_encode(cert_der.as_slice());
        Identity { instance_id, secret_key, public_key, fingerprint, cert_der, cert_b64, key_der }
    }

    /// The public key in hex.
    pub fn public_key_hex(&self) -> (r: String)
        ensures
            r@ == hex_of(self.public_key@),
    {
        hex_encode(self.public_key.as_slice())
    }

    /// The hex signature of `message`.
    pub fn sign(&self, message: &[u8]) -> (r: String)
        requires
            self.wf(),
        ensures
            r@ == hex_of(spec_ed25519_sign(self.secret_key@, message@)),
            spec_ed25519_sign(self.secret_key@, message@).len() == 64,
            spec_ed25519_accepts(self.public_key@, message@, spec_ed25519_sign(self.secret_key@, message@)),
    {
        let sig = ed25519_sign(self.secret_key.as_slice(), message);
        hex_encode(sig.as_slice())
    }

    /// The hex signature of a request from this device at `ts` with `body`,
    /// which the check of a signed request against this device's public key
    /// accepts.
    pub fn sign_request(&self, ts: u64, body: &[u8]) -> (r: String)
        requires
            self.wf(),
        ensures
            r@ == hex_of(spec_ed25519_sign(self.secret_key@, request_msg(self.instance_id@, ts, body@))),
            request_signed(hex_of(self.public_key@), self.instance_id@, ts, body@, r@),
    {
        let msg = request_message(self.instance_id.as_str(), ts, body);
        let r = self.sign(msg.as_slice());
        proof {
            lemma_hex_roundtrip(self.public_key@);
            lemma_hex_roundtrip(spec_ed25519_sign(self.secret_key@, msg@));
        }
        r
    }
}

/// The bytes a request signature covers: the SHA-256 of the instance id, a
/// `|`, the timestamp in decimal, a `|`, and the SHA-256 of the body.
pub open spec fn request_msg(instance_id: Seq<char>, ts: u64, body: Seq<u8>) -> Seq<u8> {
    spec_sha256(
        encode_utf8(instance_id) + seq![0x7cu8] + encode_utf8(dec_of(ts as nat)) + seq![0x7cu8]
            + spec_sha256(body),
    )
}

/// The message a device signs for a request with this body.
pub fn request_message(instance_id: &str, ts: u64, body: &[u8]) -> (r: Vec<u8>)
    ensures
        r@ == request_msg(instance_id@, ts, body@),
{
    let mut buf: Vec<u8> = Vec::new();
    append_bytes(&mut buf, instance_id.as_bytes());
    buf.push(0x7cu8);
    let ts_text = decimal(ts);
    append_bytes(&mut buf, ts_text.as_str().as_bytes());
    buf.push(0x7cu8);
    let body_digest = sha256(body);
    append_bytes(&mut buf, body_digest.as_slice());
    assert(buf@ =~= encode_utf8(instance_id@) + seq![0x7cu8] + encode_utf8(dec_of(ts as nat))
        + seq![0x7cu8] + spec_sha256(body@));
    sha256(buf.as_slice())
}

/// Whether a request from `instance_id` at `ts` with `body` carries a valid
/// signature `sig_hex` under the device's stored key `public_key_hex`.
pub open spec fn request_signed(
    public_key_hex: Seq<char>,
    instance_id: Seq<char>,
    ts: u64,
    body: Seq<u8>,
    sig_hex: Seq<char>,
) -> bool {
    &&& hex_decode(public_key_hex) matches Some(pk)
    &&& pk.len() == 32
    &&& hex_decode(sig_hex) matches Some(sig)
    &&& sig.len() == 64
    &&& spec_ed25519_key_ok(pk)
    &&& spec_ed25519_accepts(pk, request_msg(instance_id, ts, body), sig)
}

/// Check a signed request; every failure reads `device_removed`.
pub fn verify_request(
    public_key_hex: &str,
    instance_id: &str,
    ts: u64,
    body: &[u8],
    sig_hex: &str,
) -> (r: Result<(), String>)
    ensures
        match r {
            Ok(()) => request_signed(public_key_hex@, instance_id@, ts, body@, sig_hex@),
            Err(e) => !request_signed(public_key_hex@, instance_id@, ts, body@, sig_hex@) && e@
                == "device_removed"@,
        },
{
    let pk = match hex_decode_str(public_key_hex) {
        Ok(b) => b,
        Err(_) => return Err("device_removed".to_string()),
    };
    if pk.len() != 32 {
        return Err("device_removed".to_string());
    }
    if ed25519_key_check(pk.as_slice()).is_err() {
        return Err("device_removed".to_string());
    }
    let sig = match hex_decode_str(sig_hex) {
        Ok(b) => b,
        Err(_) => return Err("device_removed".to_string()),
    };
    if sig.len() != 64 {
        return Err("device_removed".to_string());
    }
    let msg = request_message(instance_id, ts, body);
    if ed25519_verify(pk.as_slice(), msg.as_slice(), sig.as_slice()) {
        Ok(())
    } else {
        Err("device_removed".to_string())
    }
}

/// The fingerprint of a public key: hex of the SHA-256 of its 32 bytes.
pub open spec fn fingerprint_of_key(pk: Seq<u8>) -> Seq<char> {
    hex_of(spec_sha256(pk))
}

/// The fingerprint of a hex-encoded public key, when it is 32 bytes of a
/// valid Ed25519 key.
pub fn fingerprint_from_hex_pubkey(hex_key: &str) -> (r: Result<String, String>)
    ensures
        match r {
            Ok(fp) => hex_decode(hex_key@) matches Some(pk) && pk.len() == 32
                && spec_ed25519_key_ok(pk) && fp@ == fingerprint_of_key(pk),
            Err(_) => !(hex_decode(hex_key@) matches Some(pk) && pk.len() == 32
                && spec_ed25519_key_ok(pk)),
        },
{
    let bytes = match hex_decode_str(hex_key) {
        Ok(b) => b,
        Err(e) => {
            let mut m = String::from_str("pubkey hex: ");
            m.append(e.as_str());
            return Err(m);
        },
    };
    if bytes.len() != 32 {
        return Err("pubkey must be 32 bytes".to_string());
    }
    match ed25519_key_check(bytes.as_slice()) {
        Ok(()) => {},
        Err(e) => {
            let mut m = String::from_str("pubkey: ");
            m.append(e.as_str());
            return Err(m);
        },
    }
    let digest = sha256(bytes.as_slice());
    Ok(hex_encode(digest.as_slice()))
}

/// `rand::thread_rng().gen_range(0..n)`: a random number below `n`.
#[verifier::external_body]
fn random_below(n: u32) -> (r: u32)
    requires
        n > 0,
    ensures
        r < n,
{
    rand::thread_rng().gen_range(0..n)
}

/// `rand::thread_rng().fill_bytes`: `n` random bytes.
#[verifier::external_body]
fn random_bytes(n: usize) -> (r: Vec<u8>)
    ensures
        r@.len() == n,
{
    let mut buf = vec![0u8; n];
    rand::thread_rng().fill_bytes(&mut buf);
    buf
}

/// How many pairing tokens there are: six decimal digits.
pub const PAIR_TOKEN_SPACE: u32 = 1_000_000;

/// Generate a 6-digit pairing token.
pub fn generate_pair_token() -> (r: String)
    ensures
        exists|n: nat| n < PAIR_TOKEN_SPACE && r@ == zero_padded(n, 6),
{
    let n = random_below(PAIR_TOKEN_SPACE);
    decimal_padded(n as u64, 6)
}

/// A fresh download token: 16 random bytes in hex.
pub fn new_download_token() -> (r: String)
    ensures
        exists|b: Seq<u8>| b.len() == 16 && r@ == hex_of(b),
{
    let b = random_bytes(16);
    hex_encode(b.as_slice())
}

/// A UUID in its hyphenated lower-case form: 36 characters, `-` at places
/// 8, 13, 18 and 23, lower-case hex digits elsewhere.
pub open spec fn is_uuid_text(s: Seq<char>) -> bool {
    &&& s.len() == 36
    &&& forall|k: int|
        0 <= k < 36 ==> if k == 8 || k == 13 || k == 18 || k == 23 {
            #[trigger] s[k] == '-'
        } else {
            crate::codec::is_lower_hex(s[k])
        }
}

/// `uuid::Uuid::new_v4().to_string()`: a random version-4 UUID in its
/// hyphenated lower-case form. Which UUID comes is left open.
#[verifier::external_body]
pub(crate) fn new_uuid() -> (r: String)
    ensures
        is_uuid_text(r@),
{
    uuid::Uuid::new_v4().to_string()
}

} // verus!
