//! Taking in an entry a paired device sent: its stored rows, preview and
//! history record.

use vstd::prelude::*;
use crate::codec::{b64_decode, spec_b64_decode};
use crate::image::{image_dimensions_any, image_dimensions_spec};
use crate::ingest::PreviewModel;
use crate::protocol::{resolved_content_hash, resolved_hash, SyncEntryBody, SyncItem};
use crate::store::{StoredItem, StoredPasteboard};
use crate::text::{clone_opt, str_eq};
use crate::types::Preview;

verus! {

/// Where a received image went in the store, with its bytes.
pub struct RemoteBlob {
    pub hash: String,
    pub bytes: Vec<u8>,
}

/// The bytes of a received image item, when it carries valid base64.
pub fn received_image_bytes(it: &SyncItem) -> (r: Option<Vec<u8>>)
    ensures
        match r {
            Some(b) => it.image_b64 matches Some(t) && spec_b64_decode(t@) == Some(b@),
            None => it.image_b64 matches Some(t) ==> spec_b64_decode(t@) is None,
        },
{
    match &it.image_b64 {
        Some(t) => match b64_decode(t.as_str()) {
            Ok(b) => Some(b),
            Err(_) => None,
        },
        None => None,
    }
}

/// Whether a received entry holds a file.
pub open spec fn has_file_sync(items: Seq<SyncItem>) -> bool {
    exists|k: int| 0 <= k < items.len() && items[k].item_type@ == "file"@
}

/// One received item's contribution to the preview: a file's name and
/// size, the text (unless the entry holds a file), the HTML, URL or colour.
pub open spec fn remote_preview_step(p: PreviewModel, it: SyncItem, has_file: bool) -> PreviewModel {
    let ty = it.item_type@;
    if ty == "file"@ {
        PreviewModel {
            file_name: crate::clipboard::opt_chars_of(it.file_name),
            file_size: it.file_size,
            ..p
        }
    } else if ty == "text"@ {
        if !has_file {
            PreviewModel { text: crate::clipboard::opt_chars_of(it.text), ..p }
        } else {
            p
        }
    } else if ty == "html"@ {
        PreviewModel { html: crate::clipboard::opt_chars_of(it.html), ..p }
    } else if ty == "url"@ {
        PreviewModel { url: crate::clipboard::opt_chars_of(it.url), ..p }
    } else if ty == "color"@ {
        PreviewModel { color: crate::clipboard::opt_chars_of(it.color), ..p }
    } else {
        p
    }
}

pub open spec fn remote_preview(items: Seq<SyncItem>, n: int) -> PreviewModel
    decreases n,
{
    if n <= 0 {
        PreviewModel {
            text: None,
            html: None,
            url: None,
            color: None,
            file_name: None,
            file_size: None,
        }
    } else {
        remote_preview_step(remote_preview(items, n - 1), items[n - 1], has_file_sync(items))
    }
}

pub open spec fn remote_blob_at(blobs: Seq<Option<RemoteBlob>>, k: int) -> Option<RemoteBlob> {
    if 0 <= k < blobs.len() {
        blobs[k]
    } else {
        None
    }
}

/// The row stored for received item `k` of entry `entry_id`: the item's own
/// fields; an image stored into a blob gets its hash, and its size in pixels
/// from the image when the sender gave none.
pub open spec fn remote_item_for(
    si: StoredItem,
    it: SyncItem,
    k: int,
    entry_id: String,
    blob: Option<RemoteBlob>,
) -> bool {
    &&& si.id == it.id
    &&& si.pasteboard_id == entry_id
    &&& si.sort_order == k
    &&& si.item_type == it.item_type
    &&& si.text_content == it.text
    &&& si.html_content == it.html
    &&& si.rtf_b64 == it.rtf_b64
    &&& si.url == it.url
    &&& si.color == it.color
    &&& si.file_name == it.file_name
    &&& si.file_size == it.file_size
    &&& si.download_token == it.download_token
    &&& if it.item_type@ == "image"@ && blob is Some {
        &&& si.blob_hash == Some(blob->0.hash)
        &&& if it.width is None {
            match image_dimensions_spec(blob->0.bytes@) {
                Some((w, h)) => si.width == Some(w) && si.height == Some(h),
                None => si.width == it.width && si.height == it.height,
            }
        } else {
            si.width == it.width && si.height == it.height
        }
    } else {
        &&& si.blob_hash is None
        &&& si.width == it.width
        &&& si.height == it.height
    }
}

/// The first download token any received item carries.
pub open spec fn first_token(items: Seq<SyncItem>, i: int) -> Option<String>
    decreases items.len() - i,
{
    if i < 0 || i >= items.len() {
        None
    } else if items[i].download_token is Some {
        items[i].download_token
    } else {
        first_token(items, i + 1)
    }
}

/// A received entry ready to store.
pub struct RemotePlan {
    pub items: Vec<StoredItem>,
    pub preview: Preview,
    pub entry: StoredPasteboard,
}

fn has_file_exec(items: &[SyncItem]) -> (r: bool)
    ensures
        r == has_file_sync(items@),
{
    let n = items.len();
    let mut i: usize = 0;
    while i < n
        invariant
            n == items@.len(),
            i <= n,
            forall|j: int| 0 <= j < i ==> items@[j].item_type@ != "file"@,
        decreases n - i,
    {
        if str_eq(items[i].item_type.as_str(), "file") {
            return true;
        }
        i = i + 1;
    }
    false
}

fn first_token_exec(items: &[SyncItem]) -> (r: Option<String>)
    ensures
        r == first_token(items@, 0),
{
    let mut k: usize = 0;
    while k < items.len()
        invariant
            k <= items@.len(),
            first_token(items@, 0) == first_token(items@, k as int),
        decreases items@.len() - k,
    {
        if let Some(t) = &items[k].download_token {
            return Some(t.clone());
        }
        k = k + 1;
    }
    None
}

/// Plan the rows, preview and record of an entry received from a paired
/// device. `blobs[k]` is where the store put item `k`'s image bytes;
/// `host`/`port` is where the sender can be reached for its files;
/// `preview_json` is the serialised preview to record.
pub fn plan_remote_entry(
    parsed: &SyncEntryBody,
    blobs: &[Option<RemoteBlob>],
    host: Option<String>,
    port: Option<i64>,
) -> (r: RemotePlan)
    requires
        parsed.items@.len() <= i64::MAX,
    ensures
        r.items@.len() == parsed.items@.len(),
        forall|k: int|
            0 <= k < r.items@.len() ==> remote_item_for(
                #[trigger] r.items@[k],
                parsed.items@[k],
                k,
                parsed.id,
                remote_blob_at(blobs@, k),
            ),
        crate::ingest::preview_model(r.preview) == remote_preview(
            parsed.items@,
            parsed.items@.len() as int,
        ),
        r.preview.image_thumb is None && r.preview.width is None && r.preview.height is None
            && r.preview.path is None,
        r.entry.id == parsed.id,
        r.entry.copied_at == parsed.copied_at,
        r.entry.source_device_id == Some(parsed.source_device_id),
        r.entry.source_device_name == parsed.source_device_name,
        r.entry.primary_type == parsed.primary_type,
        r.entry.title == parsed.title,
        r.entry.content_hash@ == resolved_hash(*parsed),
        r.entry.total_bytes == parsed.total_bytes,
        r.entry.needs_file_download == has_file_sync(parsed.items@),
        r.entry.file_download_state@ == "idle"@,
        r.entry.download_token == first_token(parsed.items@, 0),
        r.entry.source_host == host,
        r.entry.source_port == port,
        r.entry.preview_json@ == "{}"@,
{
    let items = &parsed.items;
    let n = items.len();
    let has_file = has_file_exec(items.as_slice());
    let mut preview = Preview::empty();
    let mut stored: Vec<StoredItem> = Vec::new();
    let mut k: usize = 0;
    proof {
        reveal_strlit("file");
        reveal_strlit("text");
        reveal_strlit("html");
        reveal_strlit("url");
        reveal_strlit("color");
        reveal_strlit("image");
        crate::types::lemma_kind_names_distinct();
    }
    assert(crate::ingest::preview_model(preview) =~= remote_preview(items@, 0));
    while k < n
        invariant
            n == items@.len(),
            items@ == parsed.items@,
            n <= i64::MAX,
            k <= n,
            has_file == has_file_sync(items@),
            crate::ingest::preview_model(preview) == remote_preview(items@, k as int),
            preview.image_thumb is None && preview.width is None && preview.height is None
                && preview.path is None,
            stored@.len() == k,
            forall|j: int|
                0 <= j < k ==> remote_item_for(
                    #[trigger] stored@[j],
                    items@[j],
                    j,
                    parsed.id,
                    remote_blob_at(blobs@, j),
                ),
        decreases n - k,
    {
        let it = &items[k];
        proof {
            crate::types::lemma_kind_names_distinct();
            assert(items@[k as int] == *it);
        }
        let blob: Option<&RemoteBlob> = if k < blobs.len() {
            match &blobs[k] {
                Some(b) => Some(b),
                None => None,
            }
        } else {
            None
        };
        let ghost before = crate::ingest::preview_model(preview);
        let mut si = StoredItem {
            id: it.id.clone(),
            pasteboard_id: parsed.id.clone(),
            sort_order: k as i64,
            item_type: it.item_type.clone(),
            text_content: clone_opt(&it.text),
            html_content: clone_opt(&it.html),
            rtf_b64: clone_opt(&it.rtf_b64),
            url: clone_opt(&it.url),
            color: clone_opt(&it.color),
            blob_hash: None,
            file_name: clone_opt(&it.file_name),
            file_size: it.file_size,
            width: it.width,
            height: it.height,
            download_token: clone_opt(&it.download_token),
        };
        let ty = it.item_type.as_str();
        if str_eq(ty, "file") {
            preview.file_name = clone_opt(&it.file_name);
            preview.file_size = it.file_size;
        } else if str_eq(ty, "image") {
            if let Some(b) = blob {
                si.blob_hash = Some(b.hash.clone());
                if si.width.is_none() {
                    if let Some((w, h)) = image_dimensions_any(b.bytes.as_slice()) {
                        si.width = Some(w);
                        si.height = Some(h);
                    }
                }
            }
        } else if str_eq(ty, "text") {
            if !has_file {
                preview.text = clone_opt(&it.text);
            }
        } else if str_eq(ty, "html") {
            preview.html = clone_opt(&it.html);
        } else if str_eq(ty, "url") {
            preview.url = clone_opt(&it.url);
        } else if str_eq(ty, "color") {
            preview.color = clone_opt(&it.color);
        }
        assert(remote_blob_at(blobs@, k as int) == match blob {
            Some(b) => Some(*b),
            None => None,
        });
        assert(crate::ingest::preview_model(preview) =~= remote_preview_step(
            before,
            items@[k as int],
            has_file,
        ));
        assert(remote_item_for(si, items@[k as int], k as int, parsed.id, remote_blob_at(blobs@, k as int)));
        let ghost prev = stored@;
        stored.push(si);
        assert forall|j: int| 0 <= j < k + 1 implies remote_item_for(
            #[trigger] stored@[j],
            items@[j],
            j,
            parsed.id,
            remote_blob_at(blobs@, j),
        ) by {
            if j < k {
                assert(stored@[j] == prev[j]);
            }
        }
        k = k + 1;
    }
    let entry = StoredPasteboard {
        id: parsed.id.clone(),
        copied_at: parsed.copied_at,
        source_device_id: Some(parsed.source_device_id.clone()),
        source_device_name: parsed.source_device_name.clone(),
        primary_type: parsed.primary_type.clone(),
        title: parsed.title.clone(),
        content_hash: resolved_content_hash(parsed),
        total_bytes: parsed.total_bytes,
        needs_file_download: has_file,
        file_download_state: "idle".to_string(),
        download_token: first_token_exec(items.as_slice()),
        source_host: host,
        source_port: port,
        preview_json: "{}".to_string(),
    };
    RemotePlan { items: stored, preview, entry }
}

/// A received image keeps the sender's size in pixels when its own header
/// cannot be read.
pub fn image_preview_fallback(preview: &mut Preview, width: Option<u32>, height: Option<u32>)
    ensures
        old(preview).width is None ==> final(preview).width == width && final(preview).height
            == height,
        old(preview).width is Some ==> *final(preview) == *old(preview),
        final(preview).text == old(preview).text,
        final(preview).path == old(preview).path,
        final(preview).image_thumb == old(preview).image_thumb,
{
    if preview.width.is_none() {
        preview.width = width;
        preview.height = height;
    }
}

} // verus!
