//! Sending entries to paired devices and fetching their files: what goes in
//! a sync message, which failures are worth retrying, how long a queued send
//! lives, and how an interrupted download resumes.

use vstd::prelude::*;
use crate::codec::{b64_encode, spec_b64_encode, push_decimal, dec_of};
use crate::protocol::{SyncEntryBody, SyncItem};
use crate::store::{StoredItem, StoredPasteboard};
use crate::text::{
    clone_opt, has_sub, parse_u64_dec, parse_u64_range, str_chars, str_contains, str_eq,
    trim_range, trim_seq,
};
use crate::types::should_auto_sync;

verus! {

/// How many times a retryable queued send is attempted before the row is
/// dropped. At the 3s flusher cadence this bounds a stuck entry's lifetime.
pub const MAX_SYNC_ATTEMPTS: i64 = 5;

/// Errors that are permanent for a given (entry, device) pair.
pub open spec fn permanent_error(e: Seq<char>) -> bool {
    ||| e == "rejected"@
    ||| e == "payload_too_large"@
    ||| e == "device_removed"@
    ||| e == "trust_broken"@
}

/// Errors that are permanent for a given (entry, device) pair: retrying cannot
/// help, so the caller must surface them instead of queueing. Everything else
/// (offline, timeouts, 5xx, transport errors) is retryable.
pub fn is_retryable_sync_error(err: &str) -> (r: bool)
    ensures
        r == !permanent_error(err@),
{
    !(str_eq(err, "rejected") || str_eq(err, "payload_too_large") || str_eq(err, "device_removed")
        || str_eq(err, "trust_broken"))
}

/// After a failed attempt (now `attempts_after` attempts), should the queued
/// row stay for another try? Permanent failures are dropped immediately;
/// retryable ones are dropped once the bounded attempt budget is spent.
pub fn queue_after_failure(attempts_after: i64, retryable: bool) -> (r: bool)
    ensures
        r == (retryable && attempts_after < MAX_SYNC_ATTEMPTS),
{
    retryable && attempts_after < MAX_SYNC_ATTEMPTS
}

/// A queued send is retried at most `MAX_SYNC_ATTEMPTS - 1` times after its
/// first failure: from `MAX_SYNC_ATTEMPTS` failed attempts on it never stays,
/// and a permanent failure never stays at all.
pub proof fn lemma_queue_is_bounded(attempts: i64, retryable: bool)
    ensures
        attempts >= MAX_SYNC_ATTEMPTS ==> !(retryable && attempts < MAX_SYNC_ATTEMPTS),
        !retryable ==> !(retryable && attempts < MAX_SYNC_ATTEMPTS),
{
}

/// Result of comparing an existing partial download against the expected size.
#[derive(Clone, Copy, Debug, PartialEq, Eq, Structural)]
pub enum ResumeAction {
    /// Start from byte 0 (no usable partial).
    Fresh,
    /// Append starting at this offset.
    Resume(u64),
    /// The partial already holds the whole file; finalize without the network.
    AlreadyComplete(u64),
}

pub open spec fn resume_plan(partial_len: u64, expected_total: Option<u64>) -> ResumeAction {
    if partial_len == 0 {
        ResumeAction::Fresh
    } else {
        match expected_total {
            Some(total) => if partial_len == total {
                ResumeAction::AlreadyComplete(partial_len)
            } else if partial_len > total {
                ResumeAction::Fresh
            } else {
                ResumeAction::Resume(partial_len)
            },
            None => ResumeAction::Resume(partial_len),
        }
    }
}

/// Decide how to resume from a partial of `partial_len` bytes when the total
/// size is known (or not). A partial longer than the expected total is treated
/// as corrupt and restarted.
pub fn plan_resume(partial_len: u64, expected_total: Option<u64>) -> (r: ResumeAction)
    ensures
        r == resume_plan(partial_len, expected_total),
{
    if partial_len == 0 {
        return ResumeAction::Fresh;
    }
    if let Some(total) = expected_total {
        if partial_len == total {
            return ResumeAction::AlreadyComplete(partial_len);
        }
        if partial_len > total {
            return ResumeAction::Fresh;
        }
    }
    ResumeAction::Resume(partial_len)
}

/// A resumed download never starts past the expected end: it appends only
/// to a partial shorter than the file, and a complete partial is finished
/// as it is.
pub proof fn lemma_resume_stays_in_file(partial_len: u64, expected_total: Option<u64>)
    ensures
        resume_plan(partial_len, expected_total) matches ResumeAction::Resume(off) ==> off
            == partial_len && off > 0 && (expected_total matches Some(t) ==> off < t),
        resume_plan(partial_len, expected_total) matches ResumeAction::AlreadyComplete(off) ==> off
            == partial_len && expected_total == Some(partial_len),
{
}

/// The index of the last `c` in `s[..end]`.
pub open spec fn rfind_char(s: Seq<char>, c: char, end: int) -> Option<int>
    decreases end,
{
    if end <= 0 || end > s.len() {
        None
    } else if s[end - 1] == c {
        Some(end - 1)
    } else {
        rfind_char(s, c, end - 1)
    }
}

/// The total length in a `Content-Range: bytes a-b/total` header: the text
/// after the last `/`, trimmed, as a number (`*` means unknown).
pub open spec fn content_range_total(header: Option<Seq<char>>) -> Option<u64> {
    match header {
        Some(h) => match rfind_char(h, '/', h.len() as int) {
            Some(k) => {
                let total = trim_seq(h.subrange(k + 1, h.len() as int));
                if total == seq!['*'] {
                    None
                } else {
                    parse_u64_dec(total)
                }
            },
            None => None,
        },
        None => None,
    }
}

/// Parse the total length out of a `Content-Range: bytes a-b/total` header.
pub fn parse_content_range_total(header: Option<&str>) -> (r: Option<u64>)
    ensures
        r == content_range_total(
            match header {
                Some(h) => Some(h@),
                None => None,
            },
        ),
{
    let h = match header {
        Some(h) => h,
        None => return None,
    };
    let v = str_chars(h);
    let n = v.len();
    let mut end: usize = n;
    while end > 0 && v[end - 1] != '/'
        invariant
            end <= n == v@.len(),
            rfind_char(v@, '/', n as int) == rfind_char(v@, '/', end as int),
        decreases end,
    {
        end = end - 1;
    }
    if end == 0 {
        return None;
    }
    let t = trim_range(&v, end, n);
    if t.len() == 1 && t[0] == '*' {
        assert(t@ =~= seq!['*']);
        return None;
    }
    proof {
        if t@.len() == 1 {
            assert(t@ != seq!['*']) by {
                assert(t@[0] != '*');
            }
        }
    }
    let r = parse_u64_range(&t, 0, t.len());
    assert(t@.subrange(0, t@.len() as int) =~= t@);
    r
}

/// The first stored image bytes for item `id`.
pub open spec fn image_for(images: Seq<(String, Vec<u8>)>, id: Seq<char>) -> Option<int> {
    if exists|k: int| 0 <= k < images.len() && images[k].0@ == id {
        Some(
            choose|k: int|
                0 <= k < images.len() && images[k].0@ == id && forall|j: int|
                    0 <= j < k ==> images[j].0@ != id,
        )
    } else {
        None
    }
}

/// Whether any stored item is a file.
pub open spec fn has_file_item(items: Seq<StoredItem>) -> bool {
    exists|k: int| 0 <= k < items.len() && items[k].item_type@ == "file"@
}

/// The sync item for stored item `it`: all its fields, and the image bytes
/// inline (base64) only for an image of an entry without files. Files travel
/// as metadata only: Finder/Explorer also put a preview image beside a copied
/// file, and inlining it would blow past the receiver's body limit.
pub open spec fn sync_item_for(
    si: SyncItem,
    it: StoredItem,
    has_file: bool,
    images: Seq<(String, Vec<u8>)>,
) -> bool {
    &&& si.id == it.id
    &&& si.item_type == it.item_type
    &&& si.text == it.text_content
    &&& si.html == it.html_content
    &&& si.rtf_b64 == it.rtf_b64
    &&& si.url == it.url
    &&& si.color == it.color
    &&& si.file_name == it.file_name
    &&& si.file_size == it.file_size
    &&& si.file_hash == it.blob_hash
    &&& si.download_token == it.download_token
    &&& si.width == it.width
    &&& si.height == it.height
    &&& if it.item_type@ == "image"@ && !has_file && image_for(images, it.id@) is Some {
        si.image_b64 matches Some(b) && b@ == spec_b64_encode(
            images[image_for(images, it.id@)->0].1@,
        ) && crate::codec::spec_b64_decode(b@) == Some(images[image_for(images, it.id@)->0].1@)
    } else {
        si.image_b64 is None
    }
}

fn has_file_exec(items: &[StoredItem]) -> (r: bool)
    ensures
        r == has_file_item(items@),
{
    let n = items.len();
    let mut i: usize = 0;
    while i < n
        invariant
            n == items@.len(),
            i <= n,
            forall|j: int| 0 <= j < i ==> items@[j].item_type@ != "file"@,
        decreases n - i,
    {
        if str_eq(items[i].item_type.as_str(), "file") {
            return true;
        }
        i = i + 1;
    }
    false
}

fn find_image(images: &[(String, Vec<u8>)], id: &String) -> (r: Option<usize>)
    ensures
        match r {
            Some(k) => k < images@.len() && image_for(images@, id@) == Some(k as int),
            None => image_for(images@, id@) is None,
        },
{
    let n = images.len();
    let mut i: usize = 0;
    while i < n
        invariant
            n == images@.len(),
            i <= n,
            forall|j: int| 0 <= j < i ==> images@[j].0@ != id@,
        decreases n - i,
    {
        if images[i].0 == *id {
            let ghost c = choose|k: int|
                0 <= k < images@.len() && images@[k].0@ == id@ && forall|j: int|
                    0 <= j < k ==> images@[j].0@ != id@;
            assert(images@[i as int].0@ == id@);
            proof {
                if c < i {
                    assert(images@[c].0@ != id@);
                } else if c > i {
                    assert(images@[i as int].0@ != id@);
                }
                assert(c == i);
            }
            return Some(i);
        }
        i = i + 1;
    }
    None
}

/// Build the message that sends an entry to a paired device.
pub fn build_sync_body(
    pb_id: &str,
    copied_at: i64,
    source_device_id: &str,
    source_device_name: &str,
    primary_type: &str,
    title: &str,
    total_bytes: u64,
    content_hash: &str,
    items: &[StoredItem],
    image_bytes: &[(String, Vec<u8>)],
) -> (r: SyncEntryBody)
    ensures
        r.id@ == pb_id@,
        r.copied_at == copied_at,
        r.source_device_id@ == source_device_id@,
        r.source_device_name@ == source_device_name@,
        r.primary_type@ == primary_type@,
        r.title@ == title@,
        r.total_bytes == total_bytes,
        r.content_hash@ == content_hash@,
        r.items@.len() == items@.len(),
        forall|k: int|
            0 <= k < items@.len() ==> sync_item_for(
                #[trigger] r.items@[k],
                items@[k],
                has_file_item(items@),
                image_bytes@,
            ),
{
    let has_file = has_file_exec(items);
    let n = items.len();
    let mut out: Vec<SyncItem> = Vec::new();
    let mut i: usize = 0;
    while i < n
        invariant
            n == items@.len(),
            i <= n,
            has_file == has_file_item(items@),
            out@.len() == i,
            forall|k: int|
                0 <= k < i ==> sync_item_for(
                    #[trigger] out@[k],
                    items@[k],
                    has_file,
                    image_bytes@,
                ),
        decreases n - i,
    {
        let it = &items[i];
        let mut image_b64: Option<String> = None;
        proof {
            reveal_strlit("image");
            reveal_strlit("file");
            assert("file"@ != "image"@) by {
                assert("file"@[0] != "image"@[0]);
            }
        }
        let is_image = str_eq(it.item_type.as_str(), "image");
        if is_image && !has_file {
            let found = find_image(image_bytes, &it.id);
            if let Some(k) = found {
                let enc = b64_encode(image_bytes[k].1.as_slice());
                assert(image_for(image_bytes@, it.id@) == Some(k as int));
                assert(enc@ == spec_b64_encode(image_bytes@[k as int].1@));
                image_b64 = Some(enc);
            } else {
                assert(image_for(image_bytes@, it.id@) is None);
            }
        }
        if str_eq(it.item_type.as_str(), "file") {
            image_b64 = None;
        }
        assert(it.item_type@ == "image"@ && !has_file && image_for(image_bytes@, it.id@) is Some
            ==> (image_b64 matches Some(b) && b@ == spec_b64_encode(
            image_bytes@[image_for(image_bytes@, it.id@)->0].1@,
        ) && crate::codec::spec_b64_decode(b@) == Some(
            image_bytes@[image_for(image_bytes@, it.id@)->0].1@,
        )));
        assert(!(it.item_type@ == "image"@ && !has_file && image_for(image_bytes@, it.id@) is Some)
            ==> image_b64 is None);
        let si = SyncItem {
            id: it.id.clone(),
            item_type: it.item_type.clone(),
            text: clone_opt(&it.text_content),
            html: clone_opt(&it.html_content),
            rtf_b64: clone_opt(&it.rtf_b64),
            url: clone_opt(&it.url),
            color: clone_opt(&it.color),
            image_b64,
            file_name: clone_opt(&it.file_name),
            file_size: it.file_size,
            file_hash: clone_opt(&it.blob_hash),
            download_token: clone_opt(&it.download_token),
            width: it.width,
            height: it.height,
        };
        assert(sync_item_for(si, items@[i as int], has_file, image_bytes@));
        let ghost before = out@;
        out.push(si);
        assert forall|k: int| 0 <= k < i + 1 implies sync_item_for(
            #[trigger] out@[k],
            items@[k],
            has_file,
            image_bytes@,
        ) by {
            if k < i {
                assert(out@[k] == before[k]);
            }
        }
        i = i + 1;
    }
    SyncEntryBody {
        id: pb_id.to_string(),
        copied_at,
        source_device_id: source_device_id.to_string(),
        source_device_name: source_device_name.to_string(),
        primary_type: primary_type.to_string(),
        title: title.to_string(),
        total_bytes,
        content_hash: content_hash.to_string(),
        items: out,
    }
}

/// No sync message carries file bytes: a file item never has inline bytes,
/// and when the entry holds a file no item carries image bytes either.
pub proof fn lemma_sync_body_has_no_file_bytes(
    body_items: Seq<SyncItem>,
    items: Seq<StoredItem>,
    images: Seq<(String, Vec<u8>)>,
)
    requires
        body_items.len() == items.len(),
        forall|k: int|
            0 <= k < items.len() ==> sync_item_for(
                #[trigger] body_items[k],
                items[k],
                has_file_item(items),
                images,
            ),
    ensures
        forall|k: int| 0 <= k < body_items.len() ==> crate::protocol::no_inline_file_bytes(
            #[trigger] body_items[k],
        ),
        has_file_item(items) ==> forall|k: int|
            0 <= k < body_items.len() ==> (#[trigger] body_items[k]).image_b64 is None,
{
    reveal_strlit("image");
    reveal_strlit("file");
    assert forall|k: int| 0 <= k < body_items.len() implies crate::protocol::no_inline_file_bytes(
        #[trigger] body_items[k],
    ) by {
        assert(sync_item_for(body_items[k], items[k], has_file_item(items), images));
        if body_items[k].item_type@ == "file"@ {
            assert(items[k].item_type@ == "file"@);
            assert("file"@ != "image"@) by {
                assert("file"@[0] != "image"@[0]);
            }
        }
    }
    assert forall|k: int| has_file_item(items) && 0 <= k < body_items.len() implies (
    #[trigger] body_items[k]).image_b64 is None by {
        assert(sync_item_for(body_items[k], items[k], has_file_item(items), images));
    }
}

/// An image entry without files carries its bytes, exactly: decoding the
/// inline base64 gives back the stored image bytes.
pub proof fn lemma_sync_body_image_roundtrip(
    si: SyncItem,
    it: StoredItem,
    has_file: bool,
    images: Seq<(String, Vec<u8>)>,
)
    requires
        sync_item_for(si, it, has_file, images),
        it.item_type@ == "image"@,
        !has_file,
        image_for(images, it.id@) is Some,
    ensures
        si.image_b64 matches Some(t) && crate::codec::spec_b64_decode(t@) == Some(
            images[image_for(images, it.id@)->0].1@,
        ),
{
}

/// What a non-success answer to a sync POST means, given its status and (for
/// other client errors) its body text: `None` for success.
pub open spec fn post_error(status: u16, body: Seq<char>) -> Option<Seq<char>> {
    if status == 401 {
        Some("device_removed"@)
    } else if status == 403 {
        Some("rejected"@)
    } else if status == 413 {
        Some("payload_too_large"@)
    } else if 500 <= status <= 599 {
        Some("offline"@)
    } else if 200 <= status <= 299 {
        None
    } else if has_sub(body, "length limit exceeded"@) {
        Some("payload_too_large"@)
    } else {
        Some("rejected"@)
    }
}

/// The outcome of a sync POST from its HTTP status and body text. A 5xx is
/// transient (the peer is reachable but cannot take the entry now); any other
/// 4xx is a permanent rejection for this entry.
pub fn sync_post_result(status: u16, body: &str) -> (r: Result<(), String>)
    ensures
        match r {
            Ok(()) => post_error(status, body@) is None,
            Err(e) => post_error(status, body@) == Some(e@),
        },
{
    if status == 401 {
        return Err("device_removed".to_string());
    }
    if status == 403 {
        return Err("rejected".to_string());
    }
    if status == 413 {
        return Err("payload_too_large".to_string());
    }
    if 500 <= status && status <= 599 {
        return Err("offline".to_string());
    }
    if 200 <= status && status <= 299 {
        return Ok(());
    }
    if str_contains(body, "length limit exceeded") {
        return Err("payload_too_large".to_string());
    }
    Err("rejected".to_string())
}

/// The code a transport error is reported as: a certificate problem is a
/// broken trust, an unreachable or slow peer is offline, anything else keeps
/// its message.
pub open spec fn net_error(msg: Seq<char>, is_connect: bool, is_timeout: bool) -> Seq<char> {
    if has_sub(msg, "trust_broken"@) || has_sub(msg, "certificate"@) {
        "trust_broken"@
    } else if is_connect || is_timeout {
        "offline"@
    } else {
        msg
    }
}

pub fn map_net_err(msg: &str, is_connect: bool, is_timeout: bool) -> (r: String)
    ensures
        r@ == net_error(msg@, is_connect, is_timeout),
{
    if str_contains(msg, "trust_broken") || str_contains(msg, "certificate") {
        "trust_broken".to_string()
    } else if is_connect || is_timeout {
        "offline".to_string()
    } else {
        msg.to_string()
    }
}

/// Whether an entry is sent to a device at all: the device must accept
/// sends (else `rejected`); an entry over the size cap is skipped unless the
/// cap is ignored.
pub fn sync_gate(allow_send: bool, ignore_cap: bool, total_bytes: u64, cap: u64) -> (r: Result<
    bool,
    String,
>)
    ensures
        match r {
            Ok(send) => allow_send && send == (ignore_cap || total_bytes <= cap),
            Err(e) => !allow_send && e@ == "rejected"@,
        },
{
    if !allow_send {
        return Err("rejected".to_string());
    }
    if !ignore_cap && !should_auto_sync(total_bytes, cap) {
        return Ok(false);
    }
    Ok(true)
}

/// Where to reach a device: its address on the network right now when it is
/// seen nearby, else the address stored for it; `None` when either part is
/// missing (the device is offline).
pub open spec fn reach_address(
    host: Option<String>,
    port: Option<u16>,
    nearby: Option<(String, u16)>,
) -> Option<(Seq<char>, u16)> {
    match nearby {
        Some((h, p)) => Some((h@, p)),
        None => match (host, port) {
            (Some(h), Some(p)) => Some((h@, p)),
            _ => None,
        },
    }
}

pub fn sync_address(host: &Option<String>, port: Option<u16>, nearby: &Option<(String, u16)>) -> (r:
    Option<(String, u16)>)
    ensures
        match r {
            Some((h, p)) => reach_address(*host, port, *nearby) == Some((h@, p)),
            None => reach_address(*host, port, *nearby) is None,
        },
{
    match nearby {
        Some((h, p)) => Some((h.clone(), *p)),
        None => match (host, port) {
            (Some(h), Some(p)) => Some((h.clone(), p)),
            _ => None,
        },
    }
}

/// What to do for one paired device when a new entry is copied.
#[derive(Clone, Copy, Debug, PartialEq, Eq, Structural)]
pub enum AutoSyncStep {
    /// Sends to this device are off, or its trust is broken.
    Skip,
    /// The device is offline: queue the entry for the flusher.
    Queue,
    /// Send now.
    Send,
}

pub fn auto_sync_step(allow_send: bool, trust_broken: bool, online: bool) -> (r: AutoSyncStep)
    ensures
        r == if !allow_send || trust_broken {
            AutoSyncStep::Skip
        } else if !online {
            AutoSyncStep::Queue
        } else {
            AutoSyncStep::Send
        },
{
    if !allow_send || trust_broken {
        AutoSyncStep::Skip
    } else if !online {
        AutoSyncStep::Queue
    } else {
        AutoSyncStep::Send
    }
}

/// After sending a new entry to a device: `Ok(true)` when the send should be
/// queued for retry, `Ok(false)` when it landed, `Err` with a permanent error.
pub fn after_auto_send(result: &Result<(), String>) -> (r: Result<bool, String>)
    ensures
        match *result {
            Ok(()) => r == Ok::<bool, String>(false),
            Err(e) => if permanent_error(e@) {
                r matches Err(x) && x@ == e@
            } else {
                r == Ok::<bool, String>(true)
            },
        },
{
    match result {
        Ok(()) => Ok(false),
        Err(e) => if is_retryable_sync_error(e.as_str()) {
            Ok(true)
        } else {
            Err(e.clone())
        },
    }
}

/// A paired device as the auto-sync of a new entry sees it.
#[derive(Clone, Copy, Debug)]
pub struct SyncTarget {
    pub allow_send: bool,
    pub trust_broken: bool,
    pub online: bool,
}

/// The auto-sync step for a device.
pub open spec fn step_of(t: SyncTarget) -> AutoSyncStep {
    if !t.allow_send || t.trust_broken {
        AutoSyncStep::Skip
    } else if !t.online {
        AutoSyncStep::Queue
    } else {
        AutoSyncStep::Send
    }
}

/// What sending to device `k` gave, when it was sent to.
pub open spec fn sent_at(sends: Seq<Option<Result<(), String>>>, k: int) -> Option<
    Result<(), String>,
> {
    if 0 <= k < sends.len() {
        sends[k]
    } else {
        None
    }
}

/// Whether a new entry is queued for a device: it is offline, or sending to
/// it failed with an error worth retrying.
pub open spec fn queued_for(t: SyncTarget, sent: Option<Result<(), String>>) -> bool {
    match step_of(t) {
        AutoSyncStep::Skip => false,
        AutoSyncStep::Queue => true,
        AutoSyncStep::Send => match sent {
            Some(Err(e)) => !permanent_error(e@),
            _ => false,
        },
    }
}

/// The permanent error sending to a device met, if any.
pub open spec fn permanent_for(t: SyncTarget, sent: Option<Result<(), String>>) -> Option<
    Seq<char>,
> {
    match (step_of(t), sent) {
        (AutoSyncStep::Send, Some(Err(e))) => if permanent_error(e@) {
            Some(e@)
        } else {
            None
        },
        _ => None,
    }
}

/// The first permanent error among the devices from `k` on, in their order.
pub open spec fn first_permanent_from(
    targets: Seq<SyncTarget>,
    sends: Seq<Option<Result<(), String>>>,
    k: int,
) -> Option<Seq<char>>
    decreases targets.len() - k,
{
    if k < 0 || k >= targets.len() {
        None
    } else {
        match permanent_for(targets[k], sent_at(sends, k)) {
            Some(e) => Some(e),
            None => first_permanent_from(targets, sends, k + 1),
        }
    }
}

/// The outcome of offering a new entry of `total_bytes` bytes to the paired
/// devices, given what each send gave (`None` where nothing was sent): for
/// each device whether the entry is queued for it, and the first permanent
/// error in device order, if any. An entry over the cap goes nowhere.
pub fn auto_sync_outcome(
    total_bytes: u64,
    cap: u64,
    targets: &[SyncTarget],
    sends: &[Option<Result<(), String>>],
) -> (r: (Vec<bool>, Result<(), String>))
    ensures
        r.0@.len() == targets@.len(),
        total_bytes > cap ==> (forall|k: int| 0 <= k < targets@.len() ==> !#[trigger] r.0@[k])
            && r.1 is Ok,
        total_bytes <= cap ==> {
            &&& forall|k: int|
                0 <= k < targets@.len() ==> #[trigger] r.0@[k] == queued_for(
                    targets@[k],
                    sent_at(sends@, k),
                )
            &&& match first_permanent_from(targets@, sends@, 0) {
                None => r.1 is Ok,
                Some(e) => r.1 matches Err(x) && x@ == e,
            }
        },
{
    let n = targets.len();
    let mut queue: Vec<bool> = Vec::new();
    if !should_auto_sync(total_bytes, cap) {
        let mut i: usize = 0;
        while i < n
            invariant
                i <= n == targets@.len(),
                queue@.len() == i,
                forall|k: int| 0 <= k < i ==> !#[trigger] queue@[k],
            decreases n - i,
        {
            queue.push(false);
            i = i + 1;
        }
        return (queue, Ok(()));
    }
    let mut found: Option<String> = None;
    let mut i: usize = 0;
    while i < n
        invariant
            i <= n == targets@.len(),
            total_bytes <= cap,
            queue@.len() == i,
            forall|k: int|
                0 <= k < i ==> #[trigger] queue@[k] == queued_for(targets@[k], sent_at(sends@, k)),
            first_permanent_from(targets@, sends@, 0) == match found {
                Some(f) => Some(f@),
                None => first_permanent_from(targets@, sends@, i as int),
            },
        decreases n - i,
    {
        let t = targets[i];
        let step = auto_sync_step(t.allow_send, t.trust_broken, t.online);
        let sent: Option<&Result<(), String>> = if i < sends.len() {
            match &sends[i] {
                Some(x) => Some(x),
                None => None,
            }
        } else {
            None
        };
        let mut q = false;
        match step {
            AutoSyncStep::Skip => {},
            AutoSyncStep::Queue => {
                q = true;
            },
            AutoSyncStep::Send => {
                if let Some(res) = sent {
                    match after_auto_send(res) {
                        Ok(retry) => {
                            q = retry;
                        },
                        Err(e) => {
                            if found.is_none() {
                                found = Some(e);
                            }
                        },
                    }
                }
            },
        }
        queue.push(q);
        i = i + 1;
    }
    match found {
        Some(e) => (queue, Err(e)),
        None => (queue, Ok(())),
    }
}

/// What the flusher does with one queued send.
#[derive(Debug)]
pub enum FlushStep {
    /// The device is not nearby: leave the row for a later tick.
    Wait,
    /// Drop the row for good, with this reason.
    Drop(String),
    /// Send now.
    Send,
}

/// The flusher's step for a queued send: wait for an absent device; drop a
/// row whose entry is gone (`item_removed`) or now over the size cap
/// (`payload_too_large`, the cap may have been lowered since); else send.
pub fn flush_step(online: bool, entry_total_bytes: Option<u64>, cap: u64) -> (r: FlushStep)
    ensures
        match r {
            FlushStep::Wait => !online,
            FlushStep::Drop(reason) => online && match entry_total_bytes {
                None => reason@ == "item_removed"@,
                Some(t) => t > cap && reason@ == "payload_too_large"@,
            },
            FlushStep::Send => online && (entry_total_bytes matches Some(t) && t <= cap),
        },
{
    if !online {
        return FlushStep::Wait;
    }
    match entry_total_bytes {
        None => FlushStep::Drop("item_removed".to_string()),
        Some(t) => if !should_auto_sync(t, cap) {
            FlushStep::Drop("payload_too_large".to_string())
        } else {
            FlushStep::Send
        },
    }
}

/// After the flusher's send failed with `err`, with `attempts_after` attempts
/// now recorded: the reason to drop the row, or `None` to keep it.
pub fn after_flush_failure(err: &str, attempts_after: i64) -> (r: Option<String>)
    ensures
        match r {
            Some(reason) => reason@ == err@ && (permanent_error(err@) || attempts_after
                >= MAX_SYNC_ATTEMPTS),
            None => !permanent_error(err@) && attempts_after < MAX_SYNC_ATTEMPTS,
        },
{
    if is_retryable_sync_error(err) {
        if !queue_after_failure(attempts_after, true) {
            Some(err.to_string())
        } else {
            None
        }
    } else {
        Some(err.to_string())
    }
}

/// Where and how to fetch an entry's file from its source device.
pub struct DownloadSource {
    pub host: String,
    pub port: u16,
    pub token: String,
}

/// `p as u16`: the low 16 bits.
pub open spec fn low16(p: i64) -> u16 {
    p as u16
}

fn to_u16(p: i64) -> (r: u16)
    ensures
        r == low16(p),
{
    p as u16
}

/// The address and token to download a file with: the device's address (its
/// nearby one when seen) else the one recorded with the entry, and the
/// item's token else the entry's, else none. `Err("offline")` when no host or
/// port is known.
pub fn download_source(
    device_host: &Option<String>,
    device_port: Option<u16>,
    nearby: &Option<(String, u16)>,
    pb: &StoredPasteboard,
    file: &StoredItem,
) -> (r: Result<DownloadSource, String>)
    ensures
        ({
            let host = match *nearby {
                Some((h, _)) => Some(h),
                None => match *device_host {
                    Some(h) => Some(h),
                    None => pb.source_host,
                },
            };
            let port = match *nearby {
                Some((_, p)) => Some(p),
                None => match device_port {
                    Some(p) => Some(p),
                    None => match pb.source_port {
                        Some(p) => Some(low16(p)),
                        None => None,
                    },
                },
            };
            match r {
                    Ok(src) => {
                    &&& host == Some(src.host)
                    &&& port == Some(src.port)
                    &&& src.token@ == match file.download_token {
                        Some(t) => t@,
                        None => match pb.download_token {
                            Some(t) => t@,
                            None => seq![],
                        },
                    }
                },
                Err(e) => (host is None || port is None) && e@ == "offline"@,
            }
        }),
{
    let host = match nearby {
        Some((h, _)) => Some(h.clone()),
        None => match device_host {
            Some(h) => Some(h.clone()),
            None => clone_opt(&pb.source_host),
        },
    };
    let port = match nearby {
        Some((_, p)) => Some(*p),
        None => match device_port {
            Some(p) => Some(p),
            None => match pb.source_port {
                Some(p) => Some(to_u16(p)),
                None => None,
            },
        },
    };
    let host = match host {
        Some(h) => h,
        None => return Err("offline".to_string()),
    };
    let port = match port {
        Some(p) => p,
        None => return Err("offline".to_string()),
    };
    let token = match &file.download_token {
        Some(t) => t.clone(),
        None => match &pb.download_token {
            Some(t) => t.clone(),
            None => String::new(),
        },
    };
    Ok(DownloadSource { host, port, token })
}

/// The `Range` header that resumes a download at byte `from`.
pub fn range_header(from: u64) -> (r: String)
    ensures
        r@ == "bytes="@ + dec_of(from as nat) + "-"@,
{
    let mut s = String::from_str("bytes=");
    push_decimal(&mut s, from);
    crate::text::push_char(&mut s, '-');
    proof {
        reveal_strlit("-");
    }
    assert(s@ =~= "bytes="@ + dec_of(from as nat) + "-"@);
    s
}

/// Why a download request failed, and whether the partial file must go.
pub struct DownloadFailure {
    pub error: String,
    pub discard_partial: bool,
}

/// The error a failed file request reports, from its status and body text:
/// removed device, rejection, a stale range (`offline`: the next attempt
/// restarts), a server error (`offline`: the partial stays so the next
/// attempt resumes), else the file is gone. Only a server error keeps the
/// partial.
pub fn download_failure(status: u16, body: &str) -> (r: DownloadFailure)
    ensures
        r.error@ == if status == 401 || has_sub(body@, "device_removed"@) {
            "device_removed"@
        } else if status == 403 || has_sub(body@, "rejected"@) {
            "rejected"@
        } else if status == 416 || 500 <= status <= 599 {
            "offline"@
        } else {
            "source_file_gone"@
        },
        r.discard_partial == !(500 <= status <= 599),
{
    let server_error = 500 <= status && status <= 599;
    let error = if status == 401 || str_contains(body, "device_removed") {
        "device_removed".to_string()
    } else if status == 403 || str_contains(body, "rejected") {
        "rejected".to_string()
    } else if status == 416 {
        "offline".to_string()
    } else if server_error {
        "offline".to_string()
    } else {
        "source_file_gone".to_string()
    };
    DownloadFailure { error, discard_partial: !server_error }
}

/// How a successful file answer is written: bytes received so far, the
/// expected total, whether the old partial is thrown away, and whether new
/// bytes are appended to it.
pub struct DownloadStart {
    pub received: u64,
    pub total: u64,
    pub discard_partial: bool,
    pub append: bool,
}

/// `a + b` clamped to `u64::MAX`.
pub open spec fn sat_add_u64(a: u64, b: u64) -> u64 {
    if a + b > u64::MAX {
        u64::MAX
    } else {
        (a + b) as u64
    }
}

/// A 206 answer continues at `resume_from`, with the total taken from
/// `Content-Range`, else from the offset plus `Content-Length`, else the
/// expected size. A 200 answer to a ranged request means the server would not
/// honour the offset: restart from zero and drop the stale partial, so stale
/// bytes are never spliced onto a different file. `received` counts across
/// attempts, so progress never jumps backwards on resume.
pub fn download_start(
    partial_content: bool,
    resume_from: u64,
    expected_size: Option<u64>,
    content_range_total: Option<u64>,
    content_length: Option<u64>,
) -> (r: DownloadStart)
    ensures
        partial_content ==> {
            &&& r.received == resume_from
            &&& r.total == match content_range_total {
                Some(t) => t,
                None => match content_length {
                    Some(cl) => sat_add_u64(resume_from, cl),
                    None => match expected_size {
                        Some(e) => e,
                        None => 0,
                    },
                },
            }
            &&& !r.discard_partial
        },
        !partial_content ==> {
            &&& r.received == 0
            &&& r.total == match content_length {
                Some(cl) => cl,
                None => match expected_size {
                    Some(e) => e,
                    None => 0,
                },
            }
            &&& r.discard_partial == (resume_from > 0)
        },
        r.append == (r.received != 0),
{
    let expected = match expected_size {
        Some(e) => e,
        None => 0,
    };
    if partial_content {
        let total = match content_range_total {
            Some(t) => t,
            None => match content_length {
                Some(cl) => resume_from.saturating_add(cl),
                None => expected,
            },
        };
        DownloadStart {
            received: resume_from,
            total,
            discard_partial: false,
            append: resume_from != 0,
        }
    } else {
        let total = match content_length {
            Some(cl) => cl,
            None => expected,
        };
        DownloadStart { received: 0, total, discard_partial: resume_from > 0, append: false }
    }
}

/// Whether a finished transfer holds the whole file: a known total must be
/// met exactly.
pub fn download_complete(received: u64, total: u64) -> (r: bool)
    ensures
        r == !(total > 0 && received != total),
{
    !(total > 0 && received != total)
}

/// The size a finished download is checked against: the total the answer
/// announced, else the size the entry recorded.
pub fn expected_total_after(total: u64, expected_size: Option<u64>) -> (r: Option<u64>)
    ensures
        r == if total > 0 {
            Some(total)
        } else {
            expected_size
        },
{
    if total > 0 {
        Some(total)
    } else {
        expected_size
    }
}

} // verus!
