//! Addressing paired devices: their URLs, the certificate they are pinned
//! to, and recognising a pin mismatch.

use vstd::prelude::*;
use crate::codec::{b64_decode, dec_of, decimal, hex_of, push_decimal, spec_b64_decode};
use crate::crypto::{request_msg, request_signed, spec_ed25519_sign, Identity};
use crate::store::StoredDevice;
use vstd::utf8::encode_utf8;
use crate::text::{find_char, has_sub, push_all, str_chars, str_contains, string_from_chars};

verus! {

/// The host part of a URL: an IPv6 address (it holds `:`) goes in brackets
/// unless it already is.
pub open spec fn url_host(host: Seq<char>) -> Seq<char> {
    if find_char(host, ':', 0) is Some && !(host.len() > 0 && host[0] == '[') {
        seq!['['] + host + seq![']']
    } else {
        host
    }
}

/// The HTTPS URL of `path` on a device at `host`:`port`.
pub open spec fn url_of(host: Seq<char>, port: u16, path: Seq<char>) -> Seq<char> {
    "https://"@ + url_host(host) + seq![':'] + dec_of(port as nat) + path
}

pub fn host_url(host: &str, port: u16, path: &str) -> (r: String)
    ensures
        r@ == url_of(host@, port, path@),
{
    let h = str_chars(host);
    let bracket = crate::text::find_char_from(&h, ':', 0).is_some() && !(h.len() > 0 && h[0]
        == '[');
    let mut out: Vec<char> = str_chars("https://");
    if bracket {
        out.push('[');
        push_all(&mut out, &h);
        out.push(']');
    } else {
        push_all(&mut out, &h);
    }
    out.push(':');
    let mut s = string_from_chars(&out);
    push_decimal(&mut s, port as u64);
    let p = str_chars(path);
    let mut tail = str_chars(s.as_str());
    push_all(&mut tail, &p);
    proof {
        if bracket {
            assert(url_host(host@) =~= seq!['['] + host@ + seq![']']);
        }
    }
    let r = string_from_chars(&tail);
    assert(r@ =~= url_of(host@, port, path@));
    r
}

/// Whether an error says the peer's certificate is not the pinned one.
pub fn is_pin_mismatch(err: &str) -> (r: bool)
    ensures
        r == (has_sub(err@, "trust_broken"@) || has_sub(err@, "certificate pin"@)),
{
    str_contains(err, "trust_broken") || str_contains(err, "certificate pin")
}

/// The certificate a paired device is pinned to: its stored base64 DER.
pub fn pin_from_device(d: &StoredDevice) -> (r: Result<Vec<u8>, String>)
    ensures
        match r {
            Ok(pin) => spec_b64_decode(d.cert_der@) == Some(pin@),
            Err(_) => spec_b64_decode(d.cert_der@) is None,
        },
{
    match b64_decode(d.cert_der.as_str()) {
        Ok(b) => Ok(b),
        Err(e) => {
            let mut m = String::from_str("cert: ");
            m.append(e.as_str());
            Err(m)
        },
    }
}

/// The headers that authenticate a request from this device sent at `ts`
/// (milliseconds) with `body`: its instance id, the timestamp in decimal, and
/// its signature of the request, which the receiving side's check accepts.
pub fn signed_headers(identity: &Identity, ts: u64, body: &[u8]) -> (r: Vec<(String, String)>)
    requires
        identity.wf(),
    ensures
        r@.len() == 3,
        r@[0].0@ == "x-lanpaste-instance"@ && r@[0].1@ == identity.instance_id@,
        r@[1].0@ == "x-lanpaste-ts"@ && r@[1].1@ == dec_of(ts as nat),
        r@[2].0@ == "x-lanpaste-sig"@ && r@[2].1@ == hex_of(
            spec_ed25519_sign(identity.secret_key@, request_msg(identity.instance_id@, ts, body@)),
        ),
        request_signed(hex_of(identity.public_key@), identity.instance_id@, ts, body@, r@[2].1@),
{
    let sig = identity.sign_request(ts, body);
    let mut r: Vec<(String, String)> = Vec::new();
    r.push(("x-lanpaste-instance".to_string(), identity.instance_id.clone()));
    r.push(("x-lanpaste-ts".to_string(), decimal(ts)));
    r.push(("x-lanpaste-sig".to_string(), sig));
    proof {
        reveal_strlit("x-lanpaste-instance");
        reveal_strlit("x-lanpaste-ts");
        reveal_strlit("x-lanpaste-sig");
    }
    r
}

/// Whether a byte is an ASCII letter or digit.
pub open spec fn is_alnum_byte(b: u8) -> bool {
    (0x30 <= b <= 0x39) || (0x41 <= b <= 0x5a) || (0x61 <= b <= 0x7a)
}

/// The upper-case hex digit of `n` (0 to 15).
pub open spec fn hex_upper(n: int) -> char {
    seq!['0', '1', '2', '3', '4', '5', '6', '7', '8', '9', 'A', 'B', 'C', 'D', 'E', 'F'][n]
}

/// One byte percent-encoded: a letter or digit stays, anything else becomes
/// `%` and two upper-case hex digits.
pub open spec fn pct_byte(b: u8) -> Seq<char> {
    if is_alnum_byte(b) {
        seq![b as char]
    } else {
        seq!['%', hex_upper((b / 16) as int), hex_upper((b % 16) as int)]
    }
}

/// Bytes percent-encoded one by one.
pub open spec fn pct_encoded(b: Seq<u8>) -> Seq<char>
    decreases b.len(),
{
    if b.len() == 0 {
        seq![]
    } else {
        pct_byte(b[0]) + pct_encoded(b.subrange(1, b.len() as int))
    }
}

/// `percent_encoding::utf8_percent_encode(s, NON_ALPHANUMERIC)`: the UTF-8
/// bytes of `s` with every byte other than an ASCII letter or digit written
/// as `%XX` (upper-case hex).
#[verifier::external_body]
fn percent_encode_str(s: &str) -> (r: String)
    ensures
        r@ == pct_encoded(encode_utf8(s@)),
{
    percent_encoding::utf8_percent_encode(s, percent_encoding::NON_ALPHANUMERIC).to_string()
}

/// The URL a file item is fetched from: `/files/{id}` on the device, with
/// the download token percent-encoded as the `token` query parameter.
pub fn file_download_url(host: &str, port: u16, file_id: &str, token: &str) -> (r: String)
    ensures
        r@ == url_of(host@, port, "/files/"@ + file_id@) + "?token="@ + pct_encoded(
            encode_utf8(token@),
        ),
{
    let mut path: Vec<char> = str_chars("/files/");
    let id = str_chars(file_id);
    push_all(&mut path, &id);
    let path_s = string_from_chars(&path);
    let base = host_url(host, port, path_s.as_str());
    let mut out: Vec<char> = str_chars(base.as_str());
    let q = str_chars("?token=");
    push_all(&mut out, &q);
    let enc = percent_encode_str(token);
    let e = str_chars(enc.as_str());
    push_all(&mut out, &e);
    let r = string_from_chars(&out);
    assert(r@ =~= url_of(host@, port, "/files/"@ + file_id@) + "?token="@ + pct_encoded(
        encode_utf8(token@),
    ));
    r
}

} // verus!
