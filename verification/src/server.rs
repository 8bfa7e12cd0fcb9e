//! The rules of the HTTPS endpoints paired devices call: who is authorised,
//! which entries are taken in, and how a file is served, resumably.

use vstd::prelude::*;
use crate::codec::{dec_of, push_decimal};
use crate::crypto::{request_signed, verify_request};
use crate::store::{StoredDevice, StoredItem};
use crate::text::{
    find_char, find_char_from, lemma_find_char, matches_at, parse_u64_dec, parse_u64_range,
    str_chars, str_eq, trim_range, trim_seq,
};

verus! {

/// How far a request's timestamp may be from our clock, in ms.
pub const MAX_CLOCK_SKEW_MS: u64 = 300_000;

/// `|a - b|`.
pub open spec fn abs_diff(a: u64, b: u64) -> int {
    if a >= b {
        a - b
    } else {
        b - a
    }
}

/// Whether a signed request is accepted: it names an instance, carries a
/// decimal timestamp within five minutes of `now`, and a signature; the
/// instance is a paired device; and the signature verifies under its key.
pub open spec fn request_authorized(
    instance: Option<Seq<char>>,
    ts: Option<Seq<char>>,
    sig: Option<Seq<char>>,
    now: u64,
    device: Option<StoredDevice>,
    body: Seq<u8>,
) -> bool {
    &&& instance is Some
    &&& ts is Some && parse_u64_dec(ts->0) is Some
    &&& sig is Some
    &&& abs_diff(parse_u64_dec(ts->0)->0, now) <= MAX_CLOCK_SKEW_MS
    &&& device is Some
    &&& request_signed(
        device->0.public_key@,
        instance->0,
        parse_u64_dec(ts->0)->0,
        body,
        sig->0,
    )
}

pub open spec fn opt_str(o: Option<String>) -> Option<Seq<char>> {
    match o {
        Some(s) => Some(s@),
        None => None,
    }
}

/// Check the `x-lanpaste-instance`, `-ts` and `-sig` headers of a request
/// with this body at time `now`, where `device` is the paired device stored
/// under the instance header (looked up only when that header is present).
/// Gives the caller's instance id; every refusal reads `device_removed`.
pub fn authorize_request(
    instance: &Option<String>,
    ts: &Option<String>,
    sig: &Option<String>,
    now: u64,
    device: Option<&StoredDevice>,
    body: &[u8],
) -> (r: Result<String, String>)
    ensures
        match r {
            Ok(id) => request_authorized(
                opt_str(*instance),
                opt_str(*ts),
                opt_str(*sig),
                now,
                match device {
                    Some(d) => Some(*d),
                    None => None,
                },
                body@,
            ) && opt_str(*instance) == Some(id@),
            Err(e) => !request_authorized(
                opt_str(*instance),
                opt_str(*ts),
                opt_str(*sig),
                now,
                match device {
                    Some(d) => Some(*d),
                    None => None,
                },
                body@,
            ) && e@ == "device_removed"@,
        },
{
    let inst = match instance {
        Some(i) => i,
        None => return Err("device_removed".to_string()),
    };
    let ts_text = match ts {
        Some(t) => t,
        None => return Err("device_removed".to_string()),
    };
    let tv = str_chars(ts_text.as_str());
    let stamp = match parse_u64_range(&tv, 0, tv.len()) {
        Some(n) => n,
        None => {
            assert(tv@.subrange(0, tv@.len() as int) =~= tv@);
            return Err("device_removed".to_string());
        },
    };
    assert(tv@.subrange(0, tv@.len() as int) =~= tv@);
    let signature = match sig {
        Some(s) => s,
        None => return Err("device_removed".to_string()),
    };
    let diff = if stamp >= now {
        stamp - now
    } else {
        now - stamp
    };
    if diff > MAX_CLOCK_SKEW_MS {
        return Err("device_removed".to_string());
    }
    let d = match device {
        Some(d) => d,
        None => return Err("device_removed".to_string()),
    };
    match verify_request(d.public_key.as_str(), inst.as_str(), stamp, body, signature.as_str()) {
        Ok(()) => Ok(inst.clone()),
        Err(_) => Err("device_removed".to_string()),
    }
}

/// Whether a signed revoke may go ahead: a device may only unpair itself.
pub fn revoke_allowed(caller: &str, body_instance: &str) -> (r: Result<(), String>)
    ensures
        match r {
            Ok(()) => caller@ == body_instance@,
            Err(e) => caller@ != body_instance@ && e@ == "rejected"@,
        },
{
    if str_eq(caller, body_instance) {
        Ok(())
    } else {
        Err("rejected".to_string())
    }
}

/// Whether an authorised caller may send entries here: it must still be
/// paired (401 `device_removed`) and allowed to send to us (403 `rejected`).
pub fn sync_entry_allowed(device: Option<&StoredDevice>) -> (r: Result<(), (u16, String)>)
    ensures
        match r {
            Ok(()) => device matches Some(d) && d.allow_receive,
            Err((code, e)) => match device {
                None => code == 401 && e@ == "device_removed"@,
                Some(d) => !d.allow_receive && code == 403 && e@ == "rejected"@,
            },
        },
{
    match device {
        None => Err((401, "device_removed".to_string())),
        Some(d) => if !d.allow_receive {
            Err((403, "rejected".to_string()))
        } else {
            Ok(())
        },
    }
}

/// Whether a newly captured or received entry with content hash `hash` is a
/// duplicate: the latest entry in the history has the same hash.
pub fn is_duplicate_of_latest(latest: &Option<String>, hash: &str) -> (r: bool)
    ensures
        r == (latest matches Some(l) && l@ == hash@),
{
    match latest {
        Some(l) => str_eq(l.as_str(), hash),
        None => false,
    }
}

/// Whether an entry received from an allowed device is taken in: not when
/// an entry with its id is stored already (a repeated delivery), nor when it
/// repeats the latest entry of the history.
pub fn receive_gate(
    body: &crate::protocol::SyncEntryBody,
    id_stored: bool,
    latest: &Option<String>,
) -> (r: bool)
    ensures
        r == (!id_stored && !(latest matches Some(l) && l@ == crate::protocol::resolved_hash(
            *body,
        ))),
{
    if id_stored {
        return false;
    }
    let hash = crate::protocol::resolved_content_hash(body);
    !is_duplicate_of_latest(latest, hash.as_str())
}

/// The address recorded with a received entry: where the sender is seen
/// now, else its stored address.
pub fn entry_source_address(device: &StoredDevice, nearby: &Option<(String, u16)>) -> (r: (
    Option<String>,
    Option<i64>,
))
    ensures
        match *nearby {
            Some((h, p)) => r.0 == Some(h) && r.1 == Some(p as i64),
            None => r.0 == device.host && r.1 == match device.port {
                Some(p) => Some(p as i64),
                None => None,
            },
        },
{
    match nearby {
        Some((h, p)) => (Some(h.clone()), Some(*p as i64)),
        None => (
            crate::text::clone_opt(&device.host),
            match device.port {
                Some(p) => Some(p as i64),
                None => None,
            },
        ),
    }
}

/// Whether a caller may download `item` with the token it presented: the
/// item must exist (404 `source_file_gone`), carry a token (rows without
/// one are refused rather than left open to any paired device) that equals
/// the presented one (401 `device_removed`), and hold a blob (404). Gives the
/// blob hash.
pub fn file_access(item: Option<&StoredItem>, token: &Option<String>) -> (r: Result<
    String,
    (u16, String),
>)
    ensures
        match r {
            Ok(hash) => item matches Some(it) && it.download_token is Some && token is Some
                && token->0@ == it.download_token->0@ && it.blob_hash == Some(hash),
            Err((code, e)) => match item {
                None => code == 404 && e@ == "source_file_gone"@,
                Some(it) => if it.download_token is None || token is None || token->0@
                    != it.download_token->0@ {
                    code == 401 && e@ == "device_removed"@
                } else {
                    it.blob_hash is None && code == 404 && e@ == "source_file_gone"@
                },
            },
        },
{
    let it = match item {
        Some(it) => it,
        None => return Err((404, "source_file_gone".to_string())),
    };
    let expected = match &it.download_token {
        Some(t) => t,
        None => return Err((401, "device_removed".to_string())),
    };
    match token {
        Some(t) => if !str_eq(t.as_str(), expected.as_str()) {
            return Err((401, "device_removed".to_string()));
        },
        None => return Err((401, "device_removed".to_string())),
    }
    match &it.blob_hash {
        Some(h) => Ok(h.clone()),
        None => Err((404, "source_file_gone".to_string())),
    }
}

/// `a - b` clamped at 0.
pub open spec fn sat_sub_u64(a: u64, b: u64) -> u64 {
    if a >= b {
        (a - b) as u64
    } else {
        0
    }
}

/// A `Range: bytes=...` header against a file of `len` bytes: `a-b`, `a-`
/// (to the end) or `-n` (the last `n` bytes). `a-b` and `a-` must lie inside
/// the file (an end past the file is not clamped); anything else is ignored.
pub open spec fn range_of(header: Option<Seq<char>>, len: u64) -> Option<(u64, u64)> {
    match header {
        None => None,
        Some(h) => if !matches_at(h, 0, "bytes="@) {
            None
        } else {
            let rest = h.subrange(6, h.len() as int);
            match find_char(rest, '-', 0) {
                None => None,
                Some(k) => {
                    let a = rest.subrange(0, k);
                    let b = rest.subrange(k + 1, rest.len() as int);
                    if a.len() == 0 {
                        match parse_u64_dec(b) {
                            Some(suffix) => Some((sat_sub_u64(len, suffix), sat_sub_u64(len, 1))),
                            None => None,
                        }
                    } else {
                        match parse_u64_dec(a) {
                            None => None,
                            Some(start) => {
                                let end = if b.len() == 0 {
                                    Some(sat_sub_u64(len, 1))
                                } else {
                                    parse_u64_dec(b)
                                };
                                match end {
                                    Some(e) => if start <= e && e < len {
                                        Some((start, e))
                                    } else {
                                        None
                                    },
                                    None => None,
                                }
                            },
                        }
                    }
                },
            }
        },
    }
}

/// The decimal text of a number holds no `-`.
proof fn lemma_dec_has_no_dash(n: nat)
    ensures
        forall|j: int| 0 <= j < dec_of(n).len() ==> #[trigger] dec_of(n)[j] != '-',
{
    crate::codec::lemma_dec_of_parses(n);
    assert forall|j: int| 0 <= j < dec_of(n).len() implies #[trigger] dec_of(n)[j] != '-' by {
        assert(crate::text::digit_of(dec_of(n)[j], 10) is Some);
        if dec_of(n)[j] == '-' {
            assert(('-' as u32) == 0x2d);
        }
    }
}

/// A request for bytes `a` to `b` of a file of `len` bytes, inside the
/// file, is served exactly those bytes; a request from `a` on is served from
/// `a` to the file's last byte.
pub proof fn lemma_range_exact(a: u64, b: u64, len: u64)
    requires
        a <= b < len,
    ensures
        range_of(Some("bytes="@ + dec_of(a as nat) + "-"@ + dec_of(b as nat)), len) == Some((a, b)),
        range_of(Some("bytes="@ + dec_of(a as nat) + "-"@), len) == Some((a, (len - 1) as u64)),
{
    reveal_strlit("bytes=");
    reveal_strlit("-");
    let p = "bytes="@;
    let da = dec_of(a as nat);
    let db = dec_of(b as nat);
    crate::codec::lemma_decimal_roundtrip(a);
    crate::codec::lemma_decimal_roundtrip(b);
    crate::codec::lemma_dec_of_parses(a as nat);
    crate::codec::lemma_dec_of_parses(b as nat);
    lemma_dec_has_no_dash(a as nat);
    let h1 = p + da + "-"@ + db;
    let h2 = p + da + "-"@;
    assert(h1.subrange(0, 6) =~= p);
    assert(h2.subrange(0, 6) =~= p);
    let r1 = h1.subrange(6, h1.len() as int);
    let r2 = h2.subrange(6, h2.len() as int);
    assert(r1 =~= da + "-"@ + db);
    assert(r2 =~= da + "-"@);
    let k = da.len() as int;
    assert forall|j: int| 0 <= j < k implies r1[j] != '-' by {
        assert(r1[j] == da[j]);
    }
    assert forall|j: int| 0 <= j < k implies r2[j] != '-' by {
        assert(r2[j] == da[j]);
    }
    assert(r1[k] == '-');
    assert(r2[k] == '-');
    crate::text::lemma_find_char_at(r1, '-', 0, k);
    crate::text::lemma_find_char_at(r2, '-', 0, k);
    assert(r1.subrange(0, k) =~= da);
    assert(r1.subrange(k + 1, r1.len() as int) =~= db);
    assert(r2.subrange(0, k) =~= da);
    assert(r2.subrange(k + 1, r2.len() as int) =~= Seq::<char>::empty());
}

/// A request for the last `n` bytes of a file of `len` bytes is served from
/// `len - n` (or the start, when `n` is larger) to the last byte.
pub proof fn lemma_range_suffix(n: u64, len: u64)
    ensures
        range_of(Some("bytes=-"@ + dec_of(n as nat)), len) == Some(
            (
                if n <= len {
                    (len - n) as u64
                } else {
                    0u64
                },
                if len >= 1 {
                    (len - 1) as u64
                } else {
                    0u64
                },
            ),
        ),
{
    reveal_strlit("bytes=-");
    reveal_strlit("bytes=");
    let dn = dec_of(n as nat);
    crate::codec::lemma_decimal_roundtrip(n);
    let h = "bytes=-"@ + dn;
    assert(h.subrange(0, 6) =~= "bytes="@);
    let r = h.subrange(6, h.len() as int);
    assert(r =~= seq!['-'] + dn);
    crate::text::lemma_find_char_at(r, '-', 0, 0);
    assert(r.subrange(0, 0).len() == 0);
    assert(r.subrange(1, r.len() as int) =~= dn);
}

/// Parse a `Range` header for a file of `len` bytes.
pub fn parse_range(header: Option<&str>, len: u64) -> (r: Option<(u64, u64)>)
    ensures
        r == range_of(
            match header {
                Some(h) => Some(h@),
                None => None,
            },
            len,
        ),
{
    let h = match header {
        Some(h) => h,
        None => return None,
    };
    let v = str_chars(h);
    let prefix = str_chars("bytes=");
    proof {
        reveal_strlit("bytes=");
    }
    if !crate::text::matches_at_exec(&v, 0, &prefix) {
        return None;
    }
    let n = v.len();
    let rest = crate::text::sub_chars(&v, 6, n);
    proof {
        lemma_find_char(rest@, '-', 0);
    }
    let k = match find_char_from(&rest, '-', 0) {
        Some(k) => k,
        None => return None,
    };
    let m = rest.len();
    let one = if len >= 1 {
        len - 1
    } else {
        0
    };
    if k == 0 {
        let suffix = parse_u64_range(&rest, 1, m);
        match suffix {
            Some(sfx) => {
                let start = if len >= sfx {
                    len - sfx
                } else {
                    0
                };
                assert(rest@.subrange(0, 0).len() == 0);
                return Some((start, one));
            },
            None => {
                assert(rest@.subrange(0, 0).len() == 0);
                return None;
            },
        }
    }
    let start = match parse_u64_range(&rest, 0, k) {
        Some(s) => s,
        None => return None,
    };
    let end = if k + 1 == m {
        assert(rest@.subrange(k + 1, m as int).len() == 0);
        one
    } else {
        match parse_u64_range(&rest, k + 1, m) {
            Some(e) => e,
            None => return None,
        }
    };
    if start <= end && end < len {
        Some((start, end))
    } else {
        None
    }
}

/// A range that is served never reaches past the end of a non-empty file.
pub proof fn lemma_range_inside_file(header: Option<Seq<char>>, len: u64)
    requires
        len > 0,
    ensures
        range_of(header, len) matches Some((s, e)) ==> e < len && s <= len,
{
}

/// How a file request is answered.
pub struct FilePlan {
    /// 200, or 206 for a served range.
    pub status: u16,
    pub start: u64,
    pub end: u64,
    /// How many bytes the body holds (`Content-Length`).
    pub take: u64,
    /// The `Content-Range` header of a 206.
    pub content_range: Option<String>,
}

/// The `ETag` of a blob: its hash in double quotes.
pub fn etag_for(hash: &str) -> (r: String)
    ensures
        r@ == seq!['"'] + hash@ + seq!['"'],
{
    let mut s = String::new();
    crate::text::push_char(&mut s, '"');
    let hv = str_chars(hash);
    let mut i: usize = 0;
    while i < hv.len()
        invariant
            i <= hv@.len(),
            hv@ == hash@,
            s@ == seq!['"'] + hv@.subrange(0, i as int),
        decreases hv@.len() - i,
    {
        crate::text::push_char(&mut s, hv[i]);
        i = i + 1;
        assert(s@ =~= seq!['"'] + hv@.subrange(0, i as int));
    }
    crate::text::push_char(&mut s, '"');
    assert(hv@.subrange(0, hv@.len() as int) =~= hv@);
    assert(s@ =~= seq!['"'] + hash@ + seq!['"']);
    s
}

/// `bytes {start}-{end}/{len}`.
pub open spec fn content_range_text(start: u64, end: u64, len: u64) -> Seq<char> {
    "bytes "@ + dec_of(start as nat) + seq!['-'] + dec_of(end as nat) + seq!['/'] + dec_of(
        len as nat,
    )
}

/// Plan the answer to a file request for a blob of `file_len` bytes with
/// `etag`. A resuming client sends `If-Range` with the ETag of the bytes it
/// holds: a mismatch means the blob changed, so the range is ignored and the
/// whole file sent.
pub fn file_plan(file_len: u64, etag: &str, if_range: Option<&str>, range: Option<&str>) -> (r:
    FilePlan)
    ensures
        ({
            let honour = match if_range {
                Some(v) => trim_seq(v@) == etag@,
                None => true,
            };
            let rg = if honour {
                range_of(
                    match range {
                        Some(h) => Some(h@),
                        None => None,
                    },
                    file_len,
                )
            } else {
                None
            };
            match rg {
                Some((s, e)) => {
                    &&& r.status == 206
                    &&& r.start == s
                    &&& r.end == e
                    &&& r.content_range matches Some(c) && c@ == content_range_text(s, e, file_len)
                },
                None => {
                    &&& r.status == 200
                    &&& r.start == 0
                    &&& r.end == sat_sub_u64(file_len, 1)
                    &&& r.content_range is None
                },
            }
        }),
        r.take == (if r.end >= r.start {
            if r.end - r.start + 1 > u64::MAX {
                u64::MAX as int
            } else {
                r.end - r.start + 1
            }
        } else {
            1int
        }),
{
    let honour = match if_range {
        Some(v) => {
            let vv = str_chars(v);
            let t = trim_range(&vv, 0, vv.len());
            assert(vv@.subrange(0, vv@.len() as int) =~= vv@);
            crate::text::chars_eq_str(&t, etag)
        },
        None => true,
    };
    let rg = if honour {
        parse_range(range, file_len)
    } else {
        None
    };
    let (start, end, status) = match rg {
        Some((s, e)) => (s, e, 206u16),
        None => (0u64, file_len.saturating_sub(1), 200u16),
    };
    let take = end.saturating_sub(start).saturating_add(1);
    let content_range = if status == 206 {
        let mut c = String::from_str("bytes ");
        push_decimal(&mut c, start);
        crate::text::push_char(&mut c, '-');
        push_decimal(&mut c, end);
        crate::text::push_char(&mut c, '/');
        push_decimal(&mut c, file_len);
        assert(c@ =~= content_range_text(start, end, file_len));
        Some(c)
    } else {
        None
    };
    FilePlan { status, start, end, take, content_range }
}

/// What a received entry does to this device's clipboard.
#[derive(Clone, Copy, Debug, PartialEq, Eq, Structural)]
pub enum AutoWrite {
    /// Leave the clipboard alone.
    Nothing,
    /// Promise the entry's file, fetched when it is pasted.
    FilePromise,
    /// Write the entry's content.
    Content,
}

/// Whether a received entry goes to the clipboard: only from a device
/// allowed to write it; an entry with a file as a promise of the file when
/// within the auto-sync cap, never otherwise; any other entry as its
/// content when there is something to write.
pub fn auto_write_action(
    auto_write_clipboard: bool,
    has_file: bool,
    total_bytes: u64,
    cap: u64,
    payload_empty: bool,
) -> (r: AutoWrite)
    ensures
        r == if !auto_write_clipboard {
            AutoWrite::Nothing
        } else if has_file {
            if total_bytes <= cap {
                AutoWrite::FilePromise
            } else {
                AutoWrite::Nothing
            }
        } else if payload_empty {
            AutoWrite::Nothing
        } else {
            AutoWrite::Content
        },
{
    if !auto_write_clipboard {
        AutoWrite::Nothing
    } else if has_file {
        if total_bytes <= cap {
            AutoWrite::FilePromise
        } else {
            AutoWrite::Nothing
        }
    } else if payload_empty {
        AutoWrite::Nothing
    } else {
        AutoWrite::Content
    }
}

} // verus!
