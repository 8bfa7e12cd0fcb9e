//! The messages paired devices exchange, and the content hash a received
//! entry is known by.

use vstd::prelude::*;
use vstd::utf8::encode_utf8;
use crate::codec::{
    b64_decode, content_hash_for, content_hash_of, copy_bytes, hex_decode, hex_decode_str, sha256,
    spec_b64_decode, spec_sha256,
};
use crate::text::{matches_at, str_eq, str_starts_with};

verus! {

/// A device asks to pair.
#[derive(Clone, Debug)]
pub struct PairRequest {
    pub instance_id: String,
    pub name: String,
    pub fingerprint: String,
    pub public_key: String,
    pub cert_der: String,
}

/// The requesting device confirms with the token it was shown.
#[derive(Clone, Debug)]
pub struct PairConfirm {
    pub instance_id: String,
    pub name: String,
    pub token: String,
    pub fingerprint: String,
    pub public_key: String,
    pub cert_der: String,
}

/// The confirming device's own identity, sent back on success.
#[derive(Clone, Debug)]
pub struct PairConfirmResponse {
    pub instance_id: String,
    pub name: String,
    pub fingerprint: String,
    pub public_key: String,
    pub cert_der: String,
}

/// A device unpairs itself.
#[derive(Clone, Debug)]
pub struct PairRevoke {
    pub instance_id: String,
}

/// One history entry sent to a paired device.
#[derive(Clone, Debug)]
pub struct SyncEntryBody {
    pub id: String,
    pub copied_at: i64,
    pub source_device_id: String,
    pub source_device_name: String,
    pub primary_type: String,
    pub title: String,
    pub total_bytes: u64,
    pub content_hash: String,
    pub items: Vec<SyncItem>,
}

/// One item of a synced entry. Files travel as metadata only; image bytes
/// travel as base64.
#[derive(Clone, Debug)]
pub struct SyncItem {
    pub id: String,
    pub item_type: String,
    pub text: Option<String>,
    pub html: Option<String>,
    pub rtf_b64: Option<String>,
    pub url: Option<String>,
    pub color: Option<String>,
    /// Image bytes (base64). Never used for files.
    pub image_b64: Option<String>,
    pub file_name: Option<String>,
    pub file_size: Option<u64>,
    pub file_hash: Option<String>,
    pub download_token: Option<String>,
    pub width: Option<u32>,
    pub height: Option<u32>,
}

impl Default for SyncItem {
    fn default() -> (r: SyncItem)
        ensures
            r.id@.len() == 0,
            r.item_type@.len() == 0,
            r.text is None,
            r.html is None,
            r.rtf_b64 is None,
            r.url is None,
            r.color is None,
            r.image_b64 is None,
            r.file_name is None,
            r.file_size is None,
            r.file_hash is None,
            r.download_token is None,
            r.width is None,
            r.height is None,
    {
        SyncItem {
            id: String::new(),
            item_type: String::new(),
            text: None,
            html: None,
            rtf_b64: None,
            url: None,
            color: None,
            image_b64: None,
            file_name: None,
            file_size: None,
            file_hash: None,
            download_token: None,
            width: None,
            height: None,
        }
    }
}

/// A file item never carries inline bytes.
pub open spec fn no_inline_file_bytes(item: SyncItem) -> bool {
    item.item_type@ != "file"@ || item.image_b64 is None
}

pub fn file_item_has_no_bytes(item: &SyncItem) -> (r: bool)
    ensures
        r == no_inline_file_bytes(*item),
{
    !str_eq(item.item_type.as_str(), "file") || item.image_b64.is_none()
}

/// The text of an optional field, empty when absent.
pub open spec fn or_empty(o: Option<String>) -> Seq<char> {
    match o {
        Some(s) => s@,
        None => seq![],
    }
}

/// The bytes a received item is hashed over, as the sender hashed them: a
/// file's content hash (or its name when the hash is missing or not hex), an
/// image's digest, the RTF document, or the item's text.
pub open spec fn sync_item_bytes(it: SyncItem) -> Seq<u8> {
    let ty = it.item_type@;
    if ty == "file"@ {
        match it.file_hash {
            Some(h) => match hex_decode(h@) {
                Some(b) => b,
                None => encode_utf8(or_empty(it.file_name)),
            },
            None => encode_utf8(or_empty(it.file_name)),
        }
    } else if ty == "image"@ {
        match it.image_b64 {
            Some(b) => match spec_b64_decode(b@) {
                Some(raw) => spec_sha256(raw),
                None => seq![],
            },
            None => seq![],
        }
    } else if ty == "rtf"@ {
        match it.rtf_b64 {
            Some(b) => match spec_b64_decode(b@) {
                Some(raw) => raw,
                None => seq![],
            },
            None => seq![],
        }
    } else if ty == "html"@ {
        encode_utf8(or_empty(it.html))
    } else if ty == "url"@ {
        encode_utf8(or_empty(it.url))
    } else if ty == "color"@ {
        encode_utf8(or_empty(it.color))
    } else {
        encode_utf8(or_empty(it.text))
    }
}

/// The content hash of received items.
pub open spec fn sync_items_hash(items: Seq<SyncItem>) -> Seq<char> {
    content_hash_of(items.map_values(|it: SyncItem| (it.item_type@, sync_item_bytes(it))))
}

fn text_bytes(o: &Option<String>) -> (r: Vec<u8>)
    ensures
        r@ == encode_utf8(or_empty(*o)),
{
    match o {
        Some(s) => copy_bytes(s.as_str().as_bytes()),
        None => {
            assert(encode_utf8(seq![]) =~= seq![]);
            Vec::new()
        },
    }
}

fn b64_or_empty(o: &Option<String>) -> (r: Vec<u8>)
    ensures
        r@ == match *o {
            Some(b) => match spec_b64_decode(b@) {
                Some(raw) => raw,
                None => seq![],
            },
            None => seq![],
        },
{
    match o {
        Some(b) => match b64_decode(b.as_str()) {
            Ok(raw) => raw,
            Err(_) => Vec::new(),
        },
        None => Vec::new(),
    }
}

fn item_bytes(it: &SyncItem) -> (r: Vec<u8>)
    ensures
        r@ == sync_item_bytes(*it),
{
    let ty = it.item_type.as_str();
    if str_eq(ty, "file") {
        match &it.file_hash {
            Some(h) => match hex_decode_str(h.as_str()) {
                Ok(b) => b,
                Err(_) => text_bytes(&it.file_name),
            },
            None => text_bytes(&it.file_name),
        }
    } else if str_eq(ty, "image") {
        match &it.image_b64 {
            Some(b) => match b64_decode(b.as_str()) {
                Ok(raw) => sha256(raw.as_slice()),
                Err(_) => Vec::new(),
            },
            None => Vec::new(),
        }
    } else if str_eq(ty, "rtf") {
        b64_or_empty(&it.rtf_b64)
    } else if str_eq(ty, "html") {
        text_bytes(&it.html)
    } else if str_eq(ty, "url") {
        text_bytes(&it.url)
    } else if str_eq(ty, "color") {
        text_bytes(&it.color)
    } else {
        text_bytes(&it.text)
    }
}

/// The content hash of received items, hashed as the sender's store hashes
/// its own entries.
pub fn content_hash_of_sync_items(items: &[SyncItem]) -> (r: String)
    ensures
        r@ == sync_items_hash(items@),
        r@.len() == 64,
        crate::codec::is_lower_hex_text(r@),
{
    let n = items.len();
    let mut parts: Vec<(String, Vec<u8>)> = Vec::new();
    let mut i: usize = 0;
    while i < n
        invariant
            n == items@.len(),
            i <= n,
            parts@.len() == i,
            crate::codec::parts_view(parts@) =~= items@.subrange(0, i as int).map_values(
                |it: SyncItem| (it.item_type@, sync_item_bytes(it)),
            ),
        decreases n - i,
    {
        let b = item_bytes(&items[i]);
        let ghost before = parts@;
        let part = (items[i].item_type.clone(), b);
        parts.push(part);
        proof {
            assert(parts@ == before.push(part));
            assert(crate::codec::parts_view(parts@) =~= crate::codec::parts_view(before).push(
                (items@[i as int].item_type@, sync_item_bytes(items@[i as int])),
            ));
            assert(items@.subrange(0, i + 1).map_values(
                |it: SyncItem| (it.item_type@, sync_item_bytes(it)),
            ) =~= items@.subrange(0, i as int).map_values(
                |it: SyncItem| (it.item_type@, sync_item_bytes(it)),
            ).push((items@[i as int].item_type@, sync_item_bytes(items@[i as int]))));
        }
        i = i + 1;
    }
    assert(items@.subrange(0, n as int) =~= items@);
    content_hash_for(parts.as_slice())
}

/// The hash a received entry is known by: the sender's own content hash when
/// it sent one (older senders wrote `sync:` ids there instead), else the hash
/// of its items.
pub open spec fn resolved_hash(body: SyncEntryBody) -> Seq<char> {
    if body.content_hash@.len() > 0 && !matches_at(body.content_hash@, 0, "sync:"@) {
        body.content_hash@
    } else {
        sync_items_hash(body.items@)
    }
}

pub fn resolved_content_hash(body: &SyncEntryBody) -> (r: String)
    ensures
        r@ == resolved_hash(*body),
{
    let h = body.content_hash.as_str();
    proof {
        reveal_strlit("");
        if h@.len() == 0 {
            assert(h@ =~= ""@);
        }
    }
    if !str_eq(h, "") && !str_starts_with(h, "sync:") {
        return body.content_hash.clone();
    }
    content_hash_of_sync_items(body.items.as_slice())
}


/// A received entry is known by the sender's content hash, whatever kinds
/// of items it holds: a content hash is 64 lower-case hex digits, so it is
/// never empty and never starts with `sync:`.
pub proof fn lemma_sync_hash_matches_sender(body: SyncEntryBody)
    requires
        body.content_hash@.len() == 64,
        crate::codec::is_lower_hex_text(body.content_hash@),
    ensures
        resolved_hash(body) == body.content_hash@,
{
    reveal_strlit("sync:");
    let h = body.content_hash@;
    assert(crate::codec::is_lower_hex(h[0]));
    if matches_at(h, 0, "sync:"@) {
        assert(h.subrange(0, 5)[0] == h[0]);
        assert("sync:"@[0] == 's');
    }
}

/// A text-only entry hashes the same on the receiving device as in the
/// sender's store: the receiver's hash of the synced text items equals the
/// content hash of the captured items they came from.
pub proof fn lemma_text_sync_hash_matches_capture(
    caps: Seq<crate::clipboard::CapturedItem>,
    syncs: Seq<SyncItem>,
    files: Seq<Option<Vec<u8>>>,
)
    requires
        caps.len() == syncs.len(),
        forall|k: int|
            0 <= k < caps.len() ==> {
                &&& (#[trigger] caps[k]).ty == crate::types::PasteType::Text
                &&& caps[k].text is Some
                &&& caps[k].file_path is None
                &&& caps[k].image is None
                &&& caps[k].rtf is None
                &&& caps[k].html is None
                &&& caps[k].url is None
                &&& caps[k].color is None
                &&& syncs[k].item_type@ == "text"@
                &&& syncs[k].text == caps[k].text
            },
    ensures
        sync_items_hash(syncs) == content_hash_of(crate::clipboard::captured_parts(caps, files)),
{
    crate::types::lemma_kind_names_distinct();
    reveal_strlit("text");
    let a = syncs.map_values(|it: SyncItem| (it.item_type@, sync_item_bytes(it)));
    let b = crate::clipboard::captured_parts(caps, files);
    assert forall|k: int| 0 <= k < a.len() implies a[k] == b[k] by {
        assert(caps[k].ty == crate::types::PasteType::Text);
        assert(syncs[k].item_type@ == "text"@);
    }
    assert(a =~= b);
}
} // verus!
