//! Pairing two devices: the one-time token shown on the receiving device, and
//! the identity checks on the confirming request.

use vstd::prelude::*;
use crate::codec::{
    b64_decode, hex_decode, hex_of, is_b64_char, lemma_hex_roundtrip, spec_b64_decode,
    spec_b64_encode,
};
use crate::crypto::{fingerprint_from_hex_pubkey, fingerprint_of_key, spec_ed25519_key_ok, Identity};
use crate::protocol::{PairConfirm, PairConfirmResponse, PairRequest};
use crate::store::StoredDevice;
use crate::text::{str_chars, trim_range, trim_seq};
use crate::types::PAIR_TOKEN_TTL_MS;

verus! {

/// The error for a token that does not match.
pub const TOKEN_WRONG: &'static str = "token_invalid";

/// The error for a token past its lifetime.
pub const TOKEN_EXPIRED: &'static str = "token_expired";

/// The error for a token that was already used.
pub const TOKEN_USED: &'static str = "token_invalid";

/// A pairing request this device received and is showing a token for.
#[derive(Clone, Debug)]
pub struct IncomingPair {
    pub peer_instance_id: String,
    pub peer_name: String,
    pub peer_fingerprint: String,
    pub peer_public_key: String,
    pub peer_cert_der: String,
    pub token: String,
    pub expires_at: i64,
    pub used: bool,
}

/// A pairing request this device sent and awaits the token for.
#[derive(Clone, Debug)]
pub struct OutgoingPair {
    pub instance_id: String,
    pub device_name: String,
    pub host: String,
    pub port: u16,
}

/// What checking a typed token against the pending request gives: a used
/// token is refused, then an expired one, then a wrong one.
pub open spec fn token_check(pending: IncomingPair, now_ms: i64, input: Seq<char>) -> Result<
    (),
    Seq<char>,
> {
    if pending.used {
        Err(TOKEN_USED@)
    } else if now_ms > pending.expires_at {
        Err(TOKEN_EXPIRED@)
    } else if pending.token@ != trim_seq(input) {
        Err(TOKEN_WRONG@)
    } else {
        Ok(())
    }
}

pub fn validate_token(pending: &IncomingPair, now_ms: i64, input: &str) -> (r: Result<(), String>)
    ensures
        match r {
            Ok(()) => token_check(*pending, now_ms, input@) == Ok::<(), Seq<char>>(()),
            Err(e) => token_check(*pending, now_ms, input@) == Err::<(), Seq<char>>(e@),
        },
{
    if pending.used {
        return Err(TOKEN_USED.to_string());
    }
    if now_ms > pending.expires_at {
        return Err(TOKEN_EXPIRED.to_string());
    }
    let v = str_chars(input);
    let t = trim_range(&v, 0, v.len());
    assert(v@.subrange(0, v@.len() as int) =~= v@);
    let tok = str_chars(pending.token.as_str());
    if !crate::text::chars_eq(&tok, &t) {
        return Err(TOKEN_WRONG.to_string());
    }
    Ok(())
}

/// A token is good once: after a successful check marks it used, every later
/// check of it fails.
pub proof fn lemma_token_one_time(pending: IncomingPair, now_ms: i64, input: Seq<char>, later: i64, again: Seq<char>)
    requires
        token_check(pending, now_ms, input) == Ok::<(), Seq<char>>(()),
    ensures
        token_check(IncomingPair { used: true, ..pending }, later, again) is Err,
{
}

/// When a token shown at `now_ms` stops being valid.
pub fn token_expires_at(now_ms: i64) -> (r: i64)
    requires
        now_ms + PAIR_TOKEN_TTL_MS <= i64::MAX,
    ensures
        r == now_ms + PAIR_TOKEN_TTL_MS,
{
    now_ms + PAIR_TOKEN_TTL_MS as i64
}

/// Whether a pairing confirmation may be accepted: it repeats exactly the
/// identity the request announced, none of its fields is blank, its
/// fingerprint is the one of its public key (a valid 32-byte Ed25519 key in
/// hex), and its certificate is non-empty base64.
pub open spec fn confirm_ok(pending: IncomingPair, body: PairConfirm) -> bool {
    &&& pending.peer_instance_id@ == body.instance_id@
    &&& pending.peer_name@ == body.name@
    &&& pending.peer_fingerprint@ == body.fingerprint@
    &&& pending.peer_public_key@ == body.public_key@
    &&& pending.peer_cert_der@ == body.cert_der@
    &&& trim_seq(body.instance_id@).len() > 0
    &&& trim_seq(body.name@).len() > 0
    &&& trim_seq(body.public_key@).len() > 0
    &&& trim_seq(body.fingerprint@).len() > 0
    &&& trim_seq(body.cert_der@).len() > 0
    &&& hex_decode(body.public_key@) matches Some(pk)
    &&& pk.len() == 32
    &&& spec_ed25519_key_ok(pk)
    &&& fingerprint_of_key(pk) == body.fingerprint@
    &&& spec_b64_decode(body.cert_der@) matches Some(cert)
    &&& cert.len() > 0
}

fn blank(s: &str) -> (r: bool)
    ensures
        r == (trim_seq(s@).len() == 0),
{
    let v = str_chars(s);
    let t = trim_range(&v, 0, v.len());
    assert(v@.subrange(0, v@.len() as int) =~= v@);
    t.len() == 0
}

/// Reject a confirm whose identity claims differ from the ones captured when
/// the pairing request arrived, or which are missing/malformed.
pub fn validate_pair_confirm(pending: &IncomingPair, body: &PairConfirm) -> (r: Result<(), String>)
    ensures
        match r {
            Ok(()) => confirm_ok(*pending, *body),
            Err(e) => !confirm_ok(*pending, *body) && e@ == "pair_mismatch"@,
        },
{
    if pending.peer_instance_id != body.instance_id || pending.peer_name != body.name
        || pending.peer_fingerprint != body.fingerprint || pending.peer_public_key
        != body.public_key || pending.peer_cert_der != body.cert_der {
        return Err("pair_mismatch".to_string());
    }
    if blank(body.instance_id.as_str()) || blank(body.name.as_str()) || blank(
        body.public_key.as_str(),
    ) || blank(body.fingerprint.as_str()) || blank(body.cert_der.as_str()) {
        return Err("pair_mismatch".to_string());
    }
    let derived = match fingerprint_from_hex_pubkey(body.public_key.as_str()) {
        Ok(fp) => fp,
        Err(_) => return Err("pair_mismatch".to_string()),
    };
    if derived != body.fingerprint {
        return Err("pair_mismatch".to_string());
    }
    let cert = match b64_decode(body.cert_der.as_str()) {
        Ok(c) => c,
        Err(_) => return Err("pair_mismatch".to_string()),
    };
    if cert.len() == 0 {
        return Err("pair_mismatch".to_string());
    }
    Ok(())
}

/// What the receiving device concludes from a confirmation while
/// `pending` holds the request it showed a token for: no pending request is
/// `token_expired`; then the token is checked, then the identity; on success
/// the token is used up.
pub fn confirm_pairing(pending: &mut Option<IncomingPair>, now_ms: i64, body: &PairConfirm) -> (r:
    Result<(), String>)
    ensures
        match *old(pending) {
            None => *final(pending) == None::<IncomingPair> && (r matches Err(e) && e@
                == TOKEN_EXPIRED@),
            Some(p) => match token_check(p, now_ms, body.token@) {
                Err(te) => *final(pending) == Some(p) && (r matches Err(e) && e@ == te),
                Ok(()) => if confirm_ok(p, *body) {
                    *final(pending) == Some(IncomingPair { used: true, ..p }) && r is Ok
                } else {
                    *final(pending) == Some(p) && (r matches Err(e) && e@ == "pair_mismatch"@)
                },
            },
        },
{
    match pending {
        None => Err(TOKEN_EXPIRED.to_string()),
        Some(p) => {
            match validate_token(p, now_ms, body.token.as_str()) {
                Ok(()) => {},
                Err(e) => return Err(e),
            }
            match validate_pair_confirm(p, body) {
                Ok(()) => {},
                Err(e) => return Err(e),
            }
            p.used = true;
            Ok(())
        },
    }
}

/// The device record stored for a newly paired peer: all permissions on, no
/// note, trust intact, reachable at `host`/`port` when known.
pub open spec fn paired_device(
    d: StoredDevice,
    instance_id: String,
    name: String,
    fingerprint: String,
    public_key: String,
    cert_der: String,
    host: Option<String>,
    port: Option<u16>,
) -> bool {
    &&& d.instance_id == instance_id
    &&& d.name == name
    &&& d.note@.len() == 0
    &&& d.fingerprint == fingerprint
    &&& d.public_key == public_key
    &&& d.cert_der == cert_der
    &&& d.allow_send
    &&& d.allow_receive
    &&& d.auto_write_clipboard
    &&& !d.trust_broken
    &&& d.host == host
    &&& d.port == port
}

/// The record for the peer whose confirmation was accepted.
pub fn device_from_confirm(body: &PairConfirm) -> (r: StoredDevice)
    ensures
        paired_device(
            r,
            body.instance_id,
            body.name,
            body.fingerprint,
            body.public_key,
            body.cert_der,
            None,
            None,
        ),
{
    StoredDevice {
        instance_id: body.instance_id.clone(),
        name: body.name.clone(),
        note: String::new(),
        fingerprint: body.fingerprint.clone(),
        public_key: body.public_key.clone(),
        cert_der: body.cert_der.clone(),
        allow_send: true,
        allow_receive: true,
        auto_write_clipboard: true,
        trust_broken: false,
        host: None,
        port: None,
    }
}

/// The record for the peer that accepted our token, at the address we
/// reached it on.
pub fn device_from_ack(ack: &crate::protocol::PairConfirmResponse, host: String, port: u16) -> (r:
    StoredDevice)
    ensures
        paired_device(
            r,
            ack.instance_id,
            ack.name,
            ack.fingerprint,
            ack.public_key,
            ack.cert_der,
            Some(host),
            Some(port),
        ),
{
    StoredDevice {
        instance_id: ack.instance_id.clone(),
        name: ack.name.clone(),
        note: String::new(),
        fingerprint: ack.fingerprint.clone(),
        public_key: ack.public_key.clone(),
        cert_der: ack.cert_der.clone(),
        allow_send: true,
        allow_receive: true,
        auto_write_clipboard: true,
        trust_broken: false,
        host: Some(host),
        port: Some(port),
    }
}

/// The pending outgoing request a typed token belongs to: none pending is
/// `token_expired`, one for another device is `token_invalid`.
pub fn check_outgoing(outgoing: &Option<OutgoingPair>, instance_id: &str) -> (r: Result<(), String>)
    ensures
        match *outgoing {
            None => r matches Err(e) && e@ == "token_expired"@,
            Some(o) => if o.instance_id@ == instance_id@ {
                r is Ok
            } else {
                r matches Err(e) && e@ == "token_invalid"@
            },
        },
{
    match outgoing {
        None => Err("token_expired".to_string()),
        Some(o) => if crate::text::str_eq(o.instance_id.as_str(), instance_id) {
            Ok(())
        } else {
            Err("token_invalid".to_string())
        },
    }
}

/// Fields that present a device: its instance id, the given name, its
/// fingerprint, its public key in hex and its certificate in base64.
pub open spec fn presents(
    id: Identity,
    name: Seq<char>,
    instance_id: String,
    shown_name: String,
    fingerprint: String,
    public_key: String,
    cert_der: String,
) -> bool {
    &&& instance_id@ == id.instance_id@
    &&& shown_name@ == name
    &&& fingerprint@ == id.fingerprint@
    &&& public_key@ == hex_of(id.public_key@)
    &&& cert_der@ == spec_b64_encode(id.cert_der@)
}

/// The request this device sends to pair with another.
pub fn pair_request_body(identity: &Identity, name: &str) -> (r: PairRequest)
    requires
        identity.wf(),
    ensures
        presents(*identity, name@, r.instance_id, r.name, r.fingerprint, r.public_key, r.cert_der),
{
    PairRequest {
        instance_id: identity.instance_id.clone(),
        name: name.to_string(),
        fingerprint: identity.fingerprint.clone(),
        public_key: identity.public_key_hex(),
        cert_der: identity.cert_b64.clone(),
    }
}

/// The confirmation this device sends with the token the user typed.
pub fn pair_confirm_body(identity: &Identity, name: &str, token: &str) -> (r: PairConfirm)
    requires
        identity.wf(),
    ensures
        presents(*identity, name@, r.instance_id, r.name, r.fingerprint, r.public_key, r.cert_der),
        r.token@ == token@,
{
    PairConfirm {
        instance_id: identity.instance_id.clone(),
        name: name.to_string(),
        token: token.to_string(),
        fingerprint: identity.fingerprint.clone(),
        public_key: identity.public_key_hex(),
        cert_der: identity.cert_b64.clone(),
    }
}

/// This device's answer to an accepted confirmation.
pub fn confirm_response(identity: &Identity, name: &str) -> (r: PairConfirmResponse)
    requires
        identity.wf(),
    ensures
        presents(*identity, name@, r.instance_id, r.name, r.fingerprint, r.public_key, r.cert_der),
{
    PairConfirmResponse {
        instance_id: identity.instance_id.clone(),
        name: name.to_string(),
        fingerprint: identity.fingerprint.clone(),
        public_key: identity.public_key_hex(),
        cert_der: identity.cert_b64.clone(),
    }
}

/// The pending pairing a request starts: the requester's identity as it
/// announced it, the token shown, and when that token expires.
pub open spec fn pending_of(req: PairRequest, token: String, expires_at: i64) -> IncomingPair {
    IncomingPair {
        peer_instance_id: req.instance_id,
        peer_name: req.name,
        peer_fingerprint: req.fingerprint,
        peer_public_key: req.public_key,
        peer_cert_der: req.cert_der,
        token,
        expires_at,
        used: false,
    }
}

/// Remember a pairing request while its token is shown.
pub fn incoming_from_request(req: PairRequest, token: String, expires_at: i64) -> (r: IncomingPair)
    ensures
        r == pending_of(req, token, expires_at),
{
    IncomingPair {
        peer_instance_id: req.instance_id,
        peer_name: req.name,
        peer_fingerprint: req.fingerprint,
        peer_public_key: req.public_key,
        peer_cert_der: req.cert_der,
        token,
        expires_at,
        used: false,
    }
}

proof fn lemma_trim_keeps(s: Seq<char>)
    requires
        s.len() > 0,
        forall|k: int| 0 <= k < s.len() ==> !crate::text::is_ws(#[trigger] s[k]),
    ensures
        trim_seq(s) == s,
{
    assert(crate::text::skip_ws(s, 0, s.len() as int) == 0);
    assert(crate::text::trim_end_at(s, 0, s.len() as int) == s.len());
    assert(s.subrange(0, s.len() as int) =~= s);
}

/// A device that pairs with the request and the confirmation its own
/// identity yields is accepted: the confirmation repeats what the request
/// announced and passes every check, whatever token was shown.
pub proof fn lemma_honest_pairing_accepted(
    id: Identity,
    name: Seq<char>,
    req: PairRequest,
    conf: PairConfirm,
    token: String,
    expires_at: i64,
)
    requires
        id.wf(),
        trim_seq(id.instance_id@).len() > 0,
        trim_seq(name).len() > 0,
        id.cert_der@.len() > 0,
        presents(id, name, req.instance_id, req.name, req.fingerprint, req.public_key, req.cert_der),
        presents(
            id,
            name,
            conf.instance_id,
            conf.name,
            conf.fingerprint,
            conf.public_key,
            conf.cert_der,
        ),
    ensures
        confirm_ok(pending_of(req, token, expires_at), conf),
{
    lemma_hex_roundtrip(id.public_key@);
    let pk = hex_of(id.public_key@);
    assert forall|k: int| 0 <= k < pk.len() implies !crate::text::is_ws(#[trigger] pk[k]) by {
        assert(crate::text::is_hex(pk[k]));
    }
    lemma_trim_keeps(pk);
    let fp = id.fingerprint@;
    assert(fp == hex_of(crate::codec::spec_sha256(id.public_key@)));
    lemma_hex_roundtrip(crate::codec::spec_sha256(id.public_key@));
    assert forall|k: int| 0 <= k < fp.len() implies !crate::text::is_ws(#[trigger] fp[k]) by {
        assert(crate::text::is_hex(fp[k]));
    }
    assert(fp.len() > 0) by {
        assert(hex_of(crate::codec::spec_sha256(id.public_key@)).len() == 2
            * crate::codec::spec_sha256(id.public_key@).len());
    }
    lemma_trim_keeps(fp);
    let c = id.cert_b64@;
    assert(c.len() > 0);
    assert forall|k: int| 0 <= k < c.len() implies !crate::text::is_ws(#[trigger] c[k]) by {
        assert(is_b64_char(c[k]));
    }
    lemma_trim_keeps(c);
}

} // verus!
