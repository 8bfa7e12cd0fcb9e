//! Turning a clipboard capture into a history entry: its stored items, its
//! title, the preview the overlay shows, and its size.

use vstd::prelude::*;
use vstd::utf8::encode_utf8;
use crate::clipboard::{
    first_plain, html_title, html_title_of, title_of, truncate_title, CapturedItem,
    CapturedPasteboard,
};
use crate::codec::{b64_encode, spec_b64_encode, hex_of};
use crate::crypto::{new_download_token, new_uuid};
use crate::html::{html_text, html_visible_text};
use crate::image::{image_dimensions_any, image_dimensions_spec};
use crate::rtf::{rtf_visible, rtf_visible_text};
use crate::store::{base_name, StoredItem};
use crate::text::{str_chars, trim_range, trim_seq, string_from_chars, clone_opt};
use crate::types::{primary_of, primary_type, PasteType, Preview};

verus! {

/// Where the store put an item's content: the blob's hash and size.
pub struct BlobRef {
    pub hash: String,
    pub size: u64,
}

/// The text parts of a preview, as plain values.
#[verifier::ext_equal]
pub struct PreviewModel {
    pub text: Option<Seq<char>>,
    pub html: Option<Seq<char>>,
    pub url: Option<Seq<char>>,
    pub color: Option<Seq<char>>,
    pub file_name: Option<Seq<char>>,
    pub file_size: Option<u64>,
}

pub open spec fn preview_model(p: Preview) -> PreviewModel {
    PreviewModel {
        text: crate::clipboard::opt_chars_of(p.text),
        html: crate::clipboard::opt_chars_of(p.html),
        url: crate::clipboard::opt_chars_of(p.url),
        color: crate::clipboard::opt_chars_of(p.color),
        file_name: crate::clipboard::opt_chars_of(p.file_name),
        file_size: p.file_size,
    }
}

/// The running state while the items are taken in.
#[verifier::ext_equal]
pub struct IngestModel {
    pub preview: PreviewModel,
    pub title: Seq<char>,
    pub total: int,
}

/// The name a copied file is stored under: the last component of its path,
/// else `file`.
pub open spec fn file_name_of(path: Seq<char>, windows: bool) -> Seq<char> {
    match base_name(path, windows) {
        Some(n) => n,
        None => "file"@,
    }
}

/// The number of UTF-8 bytes of `s`.
pub open spec fn byte_len(s: Seq<char>) -> int {
    encode_utf8(s).len() as int
}

/// The title of an RTF copy: the text copied beside it, else its visible
/// text, else `RTF`.
pub open spec fn rtf_title_of(sidecar: Option<Seq<char>>, visible: Seq<char>) -> Seq<char> {
    if sidecar is Some && title_of(sidecar->0, 80).len() > 0 {
        title_of(sidecar->0, 80)
    } else if trim_seq(visible).len() > 0 {
        title_of(trim_seq(visible), 80)
    } else {
        "RTF"@
    }
}

/// Taking in one captured item: it adds to the preview, sets the title when
/// its kind is the entry's primary kind, and adds its size.
pub open spec fn ingest_step(
    st: IngestModel,
    cap: CapturedItem,
    blob: Option<BlobRef>,
    primary: PasteType,
    sidecar: Option<Seq<char>>,
    image_title: Seq<char>, windows: bool,
) -> IngestModel {
    let p = st.preview;
    match cap.ty {
        PasteType::File => if cap.file_path is Some && blob is Some {
            let name = file_name_of(cap.file_path->0@, windows);
            let size = blob->0.size;
            IngestModel {
                preview: PreviewModel { file_name: Some(name), file_size: Some(size), ..p },
                title: if primary == PasteType::File {
                    name
                } else {
                    st.title
                },
                total: st.total + size,
            }
        } else {
            st
        },
        PasteType::Image => if cap.image is Some && blob is Some {
            IngestModel {
                title: if primary == PasteType::Image {
                    image_title
                } else {
                    st.title
                },
                total: st.total + blob->0.size,
                ..st
            }
        } else {
            st
        },
        PasteType::Html => if cap.html is Some {
            let h = cap.html->0@;
            let visible = html_text(h, 0);
            IngestModel {
                preview: PreviewModel {
                    html: Some(
                        title_of(
                            if trim_seq(visible).len() == 0 {
                                h
                            } else {
                                visible
                            },
                            400,
                        ),
                    ),
                    ..p
                },
                title: if primary == PasteType::Html {
                    html_title_of(h, sidecar)
                } else {
                    st.title
                },
                total: st.total + byte_len(h),
            }
        } else {
            st
        },
        PasteType::Rtf => if cap.rtf is Some {
            let r = cap.rtf->0@;
            let visible = rtf_visible(r);
            IngestModel {
                preview: if primary == PasteType::Rtf && p.text is None && trim_seq(visible).len()
                    > 0 {
                    PreviewModel { text: Some(title_of(visible, 400)), ..p }
                } else {
                    p
                },
                title: if primary == PasteType::Rtf {
                    rtf_title_of(sidecar, visible)
                } else {
                    st.title
                },
                total: st.total + r.len(),
            }
        } else {
            st
        },
        PasteType::Url => if cap.url is Some {
            let u = cap.url->0@;
            IngestModel {
                preview: PreviewModel { url: Some(u), ..p },
                title: if primary == PasteType::Url {
                    title_of(u, 80)
                } else {
                    st.title
                },
                total: st.total + byte_len(u),
            }
        } else {
            st
        },
        PasteType::Color => if cap.color is Some {
            let c = cap.color->0@;
            IngestModel {
                preview: PreviewModel { color: Some(c), ..p },
                title: if primary == PasteType::Color {
                    c
                } else {
                    st.title
                },
                total: st.total + byte_len(c),
            }
        } else {
            st
        },
        PasteType::Text => if cap.text is Some {
            let t = cap.text->0@;
            IngestModel {
                preview: if primary != PasteType::File {
                    PreviewModel { text: Some(title_of(t, 400)), ..p }
                } else {
                    p
                },
                title: if primary == PasteType::Text {
                    title_of(t, 80)
                } else {
                    st.title
                },
                total: st.total + byte_len(t),
            }
        } else {
            st
        },
    }
}

pub open spec fn blob_at(blobs: Seq<Option<BlobRef>>, k: int) -> Option<BlobRef> {
    if 0 <= k < blobs.len() {
        blobs[k]
    } else {
        None
    }
}

pub open spec fn ingest_fold(
    items: Seq<CapturedItem>,
    blobs: Seq<Option<BlobRef>>,
    n: int,
    primary: PasteType,
    sidecar: Option<Seq<char>>,
    generic_title: Seq<char>,
    image_title: Seq<char>, windows: bool,
) -> IngestModel
    decreases n,
{
    if n <= 0 {
        IngestModel {
            preview: PreviewModel {
                text: None,
                html: None,
                url: None,
                color: None,
                file_name: None,
                file_size: None,
            },
            title: generic_title,
            total: 0,
        }
    } else {
        ingest_step(
            ingest_fold(items, blobs, n - 1, primary, sidecar, generic_title, image_title, windows),
            items[n - 1],
            blob_at(blobs, n - 1),
            primary,
            sidecar,
            image_title, windows,
        )
    }
}

/// The first item's text, whatever its kind.
pub open spec fn first_text(items: Seq<CapturedItem>, i: int) -> Option<Seq<char>>
    decreases items.len() - i,
{
    if i < 0 || i >= items.len() {
        None
    } else if items[i].text is Some {
        Some(items[i].text->0@)
    } else {
        first_text(items, i + 1)
    }
}

/// The primary kind of a capture.
pub open spec fn primary_of_items(items: Seq<CapturedItem>) -> PasteType {
    primary_of(items.map_values(|i: CapturedItem| i.ty))
}

/// The entry a capture becomes: the items taken in order, then, when the
/// preview still has no text and the entry is neither a file nor an image,
/// the first text of any item.
pub open spec fn ingest_result(
    items: Seq<CapturedItem>,
    blobs: Seq<Option<BlobRef>>,
    generic_title: Seq<char>,
    image_title: Seq<char>, windows: bool,
) -> IngestModel {
    let primary = primary_of_items(items);
    let st = ingest_fold(
        items,
        blobs,
        items.len() as int,
        primary,
        first_plain(items, 0),
        generic_title,
        image_title, windows,
    );
    if st.preview.text is None && primary != PasteType::File && primary != PasteType::Image
        && first_text(items, 0) is Some {
        IngestModel {
            preview: PreviewModel { text: Some(title_of(first_text(items, 0)->0, 400)), ..st.preview },
            ..st
        }
    } else {
        st
    }
}

/// The row stored for captured item `k` of entry `entry_id`: its kind and
/// contents (RTF as base64); for a file or image taken into a blob, the
/// blob's hash and size and a download token (16 random bytes in hex); a
/// file's name; an image's size in pixels.
pub open spec fn stored_item_for(
    si: StoredItem,
    cap: CapturedItem,
    k: int,
    entry_id: Seq<char>,
    blob: Option<BlobRef>, windows: bool,
) -> bool {
    &&& si.pasteboard_id@ == entry_id
    &&& si.sort_order == k
    &&& si.item_type@ == cap.ty.name()
    &&& si.text_content == cap.text
    &&& si.html_content == cap.html
    &&& si.rtf_b64 == match cap.rtf {
        Some(_) => si.rtf_b64,
        None => None,
    }
    &&& (cap.rtf matches Some(r) ==> (si.rtf_b64 matches Some(b) && b@ == spec_b64_encode(r@)))
    &&& si.url == cap.url
    &&& si.color == cap.color
    &&& if cap.ty == PasteType::File && cap.file_path is Some && blob is Some {
        &&& si.blob_hash == Some(blob->0.hash)
        &&& si.file_size == Some(blob->0.size)
        &&& si.file_name matches Some(n) && n@ == file_name_of(cap.file_path->0@, windows)
        &&& si.download_token matches Some(t) && exists|b: Seq<u8>| b.len() == 16 && t@ == hex_of(b)
        &&& si.width is None && si.height is None
    } else if cap.ty == PasteType::Image && cap.image is Some && blob is Some {
        &&& si.blob_hash == Some(blob->0.hash)
        &&& si.file_size == Some(blob->0.size)
        &&& si.file_name is None
        &&& si.download_token matches Some(t) && exists|b: Seq<u8>| b.len() == 16 && t@ == hex_of(b)
        &&& match image_dimensions_spec(cap.image->0@) {
            Some((w, h)) => si.width == Some(w) && si.height == Some(h),
            None => si.width is None && si.height is None,
        }
    } else {
        &&& si.blob_hash is None
        &&& si.file_size is None
        &&& si.file_name is None
        &&& si.download_token is None
        &&& si.width is None && si.height is None
    }
}

/// A captured entry ready to store: its id, rows, title, preview, size and
/// primary kind.
pub struct IngestPlan {
    pub id: String,
    pub items: Vec<StoredItem>,
    pub preview: Preview,
    pub title: String,
    pub total_bytes: u64,
    pub primary: PasteType,
}

/// What `plan_ingest` can take in: RTF shorter than 2 GiB, and sizes that
/// add up within 64 bits.
pub open spec fn ingestible(
    items: Seq<CapturedItem>,
    blobs: Seq<Option<BlobRef>>,
    generic_title: Seq<char>,
    image_title: Seq<char>, windows: bool,
) -> bool {
    &&& forall|k: int|
        0 <= k < items.len() ==> ((#[trigger] items[k]).rtf matches Some(r) ==> r@.len()
            < 0x7fff_ffff)
    &&& forall|n: int|
        0 <= n <= items.len() ==> #[trigger] ingest_fold(
            items,
            blobs,
            n,
            primary_of_items(items),
            first_plain(items, 0),
            generic_title,
            image_title, windows,
        ).total <= u64::MAX
}

fn first_plain_text(items: &[CapturedItem]) -> (r: Option<String>)
    ensures
        match r {
            Some(p) => first_plain(items@, 0) == Some(p@),
            None => first_plain(items@, 0) is None,
        },
{
    let mut k: usize = 0;
    while k < items.len()
        invariant
            k <= items@.len(),
            first_plain(items@, 0) == first_plain(items@, k as int),
        decreases items@.len() - k,
    {
        if items[k].ty == PasteType::Text {
            if let Some(t) = &items[k].text {
                let v = str_chars(t.as_str());
                let tr = trim_range(&v, 0, v.len());
                assert(v@.subrange(0, v@.len() as int) =~= v@);
                if tr.len() != 0 {
                    return Some(string_from_chars(&tr));
                }
            }
        }
        k = k + 1;
    }
    None
}

fn first_text_exec(items: &[CapturedItem]) -> (r: Option<String>)
    ensures
        match r {
            Some(t) => first_text(items@, 0) == Some(t@),
            None => first_text(items@, 0) is None,
        },
{
    let mut k: usize = 0;
    while k < items.len()
        invariant
            k <= items@.len(),
            first_text(items@, 0) == first_text(items@, k as int),
        decreases items@.len() - k,
    {
        if let Some(t) = &items[k].text {
            return Some(t.clone());
        }
        k = k + 1;
    }
    None
}

fn rtf_title(sidecar: &Option<String>, visible: &String) -> (r: String)
    ensures
        r@ == rtf_title_of(crate::clipboard::opt_chars_of(*sidecar), visible@),
{
    if let Some(t) = sidecar {
        let tt = truncate_title(t.as_str(), 80);
        if tt.as_str().unicode_len() > 0 {
            return tt;
        }
    }
    let v = str_chars(visible.as_str());
    let tv = trim_range(&v, 0, v.len());
    assert(v@.subrange(0, v@.len() as int) =~= v@);
    if tv.len() > 0 {
        let s = string_from_chars(&tv);
        truncate_title(s.as_str(), 80)
    } else {
        "RTF".to_string()
    }
}

fn preview_text_exec(p: &Preview) -> (r: bool)
    ensures
        r == (p.text is None),
{
    p.text.is_none()
}

/// Plan the history entry for a (normalised) capture. `blobs[k]` is where
/// the store put item `k`'s file or image; `generic_title` and `image_title`
/// are the localised titles of a generic and of an image entry; `windows`
/// picks the platform's path rules for file names. The entry and its rows
/// get fresh ids.
pub fn plan_ingest(
    captured: &CapturedPasteboard,
    blobs: &[Option<BlobRef>],
    generic_title: &str,
    image_title: &str,
    windows: bool,
) -> (r: IngestPlan)
    requires
        ingestible(captured.items@, blobs@, generic_title@, image_title@, windows),
        captured.items@.len() <= i64::MAX,
    ensures
        r.primary == primary_of_items(captured.items@),
        ({
            let m = ingest_result(captured.items@, blobs@, generic_title@, image_title@, windows);
            &&& preview_model(r.preview) == m.preview
            &&& r.title@ == m.title
            &&& r.total_bytes == m.total
        }),
        r.preview.image_thumb is None,
        r.preview.width is None,
        r.preview.height is None,
        r.preview.path is None,
        r.items@.len() == captured.items@.len(),
        forall|k: int|
            0 <= k < r.items@.len() ==> stored_item_for(
                #[trigger] r.items@[k],
                captured.items@[k],
                k,
                r.id@,
                blob_at(blobs@, k), windows,
            ),
        crate::crypto::is_uuid_text(r.id@),
        forall|k: int| 0 <= k < r.items@.len() ==> crate::crypto::is_uuid_text((#[trigger] r.items@[k]).id@),
{
    let items = &captured.items;
    let n = items.len();
    let types = captured.types();
    let primary = primary_type(types.as_slice());
    assert(types@ == captured.items@.map_values(|i: CapturedItem| i.ty));
    let sidecar = first_plain_text(items.as_slice());
    let ghost side = crate::clipboard::opt_chars_of(sidecar);
    let id = new_uuid();
    let mut preview = Preview::empty();
    let mut title = generic_title.to_string();
    let mut total: u64 = 0;
    let mut stored: Vec<StoredItem> = Vec::new();
    let ghost all = captured.items@;
    let mut k: usize = 0;
    proof {
        reveal_strlit("RTF");
    }
    assert(preview_model(preview) =~= ingest_fold(
        all,
        blobs@,
        0,
        primary,
        side,
        generic_title@,
        image_title@, windows,
    ).preview);
    while k < n
        invariant
            n == all.len(),
            all == captured.items@,
            items@ == all,
            n <= i64::MAX,
            k <= n,
            primary == primary_of_items(all),
            side == first_plain(all, 0),
            side == crate::clipboard::opt_chars_of(sidecar),
            ingestible(all, blobs@, generic_title@, image_title@, windows),
            preview_model(preview) == ingest_fold(
                all,
                blobs@,
                k as int,
                primary,
                side,
                generic_title@,
                image_title@, windows,
            ).preview,
            title@ == ingest_fold(
                all,
                blobs@,
                k as int,
                primary,
                side,
                generic_title@,
                image_title@, windows,
            ).title,
            total == ingest_fold(
                all,
                blobs@,
                k as int,
                primary,
                side,
                generic_title@,
                image_title@, windows,
            ).total,
            preview.image_thumb is None,
            preview.width is None,
            preview.height is None,
            preview.path is None,
            stored@.len() == k,
            forall|j: int|
                0 <= j < k ==> stored_item_for(
                    #[trigger] stored@[j],
                    all[j],
                    j,
                    id@,
                    blob_at(blobs@, j), windows,
                ),
            crate::crypto::is_uuid_text(id@),
            forall|j: int| 0 <= j < k ==> crate::crypto::is_uuid_text((#[trigger] stored@[j]).id@),
        decreases n - k,
    {
        let cap = &items[k];
        let blob: Option<&BlobRef> = if k < blobs.len() {
            match &blobs[k] {
                Some(b) => Some(b),
                None => None,
            }
        } else {
            None
        };
        let ghost before = ingest_fold(
            all,
            blobs@,
            k as int,
            primary,
            side,
            generic_title@,
            image_title@, windows,
        );
        let ghost next = ingest_fold(
            all,
            blobs@,
            (k + 1) as int,
            primary,
            side,
            generic_title@,
            image_title@, windows,
        );
        proof {
            assert(next == ingest_step(before, all[k as int], blob_at(blobs@, k as int), primary, side, image_title@, windows));
            assert(next.total <= u64::MAX);
            assert(all[k as int] == *cap);
            assert(blob_at(blobs@, k as int) == match blob {
                Some(b) => Some(*b),
                None => None,
            });
        }
        let rtf_b64 = match &cap.rtf {
            Some(b) => Some(b64_encode(b.as_slice())),
            None => None,
        };
        let mut si = StoredItem {
            id: new_uuid(),
            pasteboard_id: id.clone(),
            sort_order: k as i64,
            item_type: String::from_str(cap.ty.as_str()),
            text_content: clone_opt(&cap.text),
            html_content: clone_opt(&cap.html),
            rtf_b64,
            url: clone_opt(&cap.url),
            color: clone_opt(&cap.color),
            blob_hash: None,
            file_name: None,
            file_size: None,
            width: None,
            height: None,
            download_token: None,
        };
        match cap.ty {
            PasteType::File => {
                if let (Some(path), Some(b)) = (&cap.file_path, blob) {
                    let pv = str_chars(path.as_str());
                    let name = match crate::store::base_name_chars(&pv, windows) {
                        Some(nm) => string_from_chars(&nm),
                        None => "file".to_string(),
                    };
                    si.blob_hash = Some(b.hash.clone());
                    si.file_size = Some(b.size);
                    si.file_name = Some(name.clone());
                    si.download_token = Some(new_download_token());
                    preview.file_name = Some(name.clone());
                    preview.file_size = Some(b.size);
                    if primary == PasteType::File {
                        title = name;
                    }
                    total = total + b.size;
                }
            },
            PasteType::Image => {
                if let (Some(bytes), Some(b)) = (&cap.image, blob) {
                    si.blob_hash = Some(b.hash.clone());
                    si.file_size = Some(b.size);
                    si.download_token = Some(new_download_token());
                    if let Some((w, h)) = image_dimensions_any(bytes.as_slice()) {
                        si.width = Some(w);
                        si.height = Some(h);
                    }
                    if primary == PasteType::Image {
                        title = image_title.to_string();
                    }
                    total = total + b.size;
                }
            },
            PasteType::Html => {
                if let Some(h) = &cap.html {
                    let visible = html_visible_text(h.as_str());
                    let vv = str_chars(visible.as_str());
                    let tv = trim_range(&vv, 0, vv.len());
                    assert(vv@.subrange(0, vv@.len() as int) =~= vv@);
                    let shown = if tv.len() == 0 {
                        truncate_title(h.as_str(), 400)
                    } else {
                        truncate_title(visible.as_str(), 400)
                    };
                    preview.html = Some(shown);
                    if primary == PasteType::Html {
                        title = html_title(
                            h.as_str(),
                            match &sidecar {
                                Some(s) => Some(s.as_str()),
                                None => None,
                            },
                        );
                    }
                    let blen = h.as_str().as_bytes().len();
                    assert(blen == byte_len(h@));
                    assert(next.total == total + byte_len(h@));
                    total = total + blen as u64;
                }
            },
            PasteType::Rtf => {
                if let Some(r) = &cap.rtf {
                    assert(all[k as int].rtf == cap.rtf);
                    let visible = rtf_visible_text(r.as_slice());
                    if primary == PasteType::Rtf {
                        title = rtf_title(&sidecar, &visible);
                        let vv = str_chars(visible.as_str());
                        let tv = trim_range(&vv, 0, vv.len());
                        assert(vv@.subrange(0, vv@.len() as int) =~= vv@);
                        if preview_text_exec(&preview) && tv.len() > 0 {
                            preview.text = Some(truncate_title(visible.as_str(), 400));
                        }
                    }
                    total = total + r.len() as u64;
                }
            },
            PasteType::Url => {
                if let Some(u) = &cap.url {
                    preview.url = Some(u.clone());
                    if primary == PasteType::Url {
                        title = truncate_title(u.as_str(), 80);
                    }
                    let blen = u.as_str().as_bytes().len();
                    assert(blen == byte_len(u@));
                    assert(next.total == total + byte_len(u@));
                    total = total + blen as u64;
                }
            },
            PasteType::Color => {
                if let Some(c) = &cap.color {
                    preview.color = Some(c.clone());
                    if primary == PasteType::Color {
                        title = c.clone();
                    }
                    let blen = c.as_str().as_bytes().len();
                    assert(blen == byte_len(c@));
                    assert(next.total == total + byte_len(c@));
                    total = total + blen as u64;
                }
            },
            PasteType::Text => {
                if let Some(t) = &cap.text {
                    if primary != PasteType::File {
                        preview.text = Some(truncate_title(t.as_str(), 400));
                    }
                    if primary == PasteType::Text {
                        title = truncate_title(t.as_str(), 80);
                    }
                    let blen = t.as_str().as_bytes().len();
                    assert(blen == byte_len(t@));
                    assert(next.total == total + byte_len(t@));
                    total = total + blen as u64;
                }
            },
        }
        assert(stored_item_for(si, all[k as int], k as int, id@, blob_at(blobs@, k as int), windows));
        let ghost prev_stored = stored@;
        stored.push(si);
        assert forall|j: int| 0 <= j < k + 1 implies stored_item_for(
            #[trigger] stored@[j],
            all[j],
            j,
            id@,
            blob_at(blobs@, j), windows,
        ) by {
            if j < k {
                assert(stored@[j] == prev_stored[j]);
            }
        }
        k = k + 1;
    }
    if preview.text.is_none() && primary != PasteType::File && primary != PasteType::Image {
        if let Some(t) = first_text_exec(items.as_slice()) {
            preview.text = Some(truncate_title(t.as_str(), 400));
        }
    }
    IngestPlan { id, items: stored, preview, title, total_bytes: total, primary }
}


/// Whether a normalised capture becomes a new entry, and under which
/// content hash: it must hold items, and its hash (over the items and the
/// contents read for their files) must differ from the latest entry's.
pub fn ingest_gate(
    captured: &crate::clipboard::CapturedPasteboard,
    files: &[Option<Vec<u8>>],
    latest: &Option<String>,
) -> (r: Option<String>)
    ensures
        match r {
            None => captured.items@.len() == 0 || (latest matches Some(l) && l@
                == crate::codec::content_hash_of(
                crate::clipboard::captured_parts(captured.items@, files@),
            )),
            Some(h) => {
                &&& captured.items@.len() > 0
                &&& h@ == crate::codec::content_hash_of(
                    crate::clipboard::captured_parts(captured.items@, files@),
                )
                &&& !(latest matches Some(l) && l@ == h@)
                &&& h@.len() == 64
                &&& crate::codec::is_lower_hex_text(h@)
            },
        },
{
    if captured.items.len() == 0 {
        return None;
    }
    let hash = captured.content_hash(files);
    if crate::server::is_duplicate_of_latest(latest, hash.as_str()) {
        None
    } else {
        Some(hash)
    }
}

/// The history row of a newly captured entry: the plan's id, title, kind
/// and size, its content hash, copied now on this device.
pub fn new_pasteboard_row(
    plan: &IngestPlan,
    hash: &str,
    copied_at: i64,
    local_id: &str,
    local_name: &str,
    preview_json: String,
) -> (r: crate::store::StoredPasteboard)
    ensures
        r.id@ == plan.id@,
        r.copied_at == copied_at,
        r.source_device_id matches Some(s) && s@ == local_id@,
        r.source_device_name@ == local_name@,
        r.primary_type@ == plan.primary.name(),
        r.title@ == plan.title@,
        r.content_hash@ == hash@,
        r.total_bytes == plan.total_bytes,
        !r.needs_file_download,
        r.file_download_state@ == "idle"@,
        r.download_token is None,
        r.source_host is None,
        r.source_port is None,
        r.preview_json@ == preview_json@,
{
    crate::store::StoredPasteboard {
        id: plan.id.clone(),
        copied_at,
        source_device_id: Some(local_id.to_string()),
        source_device_name: local_name.to_string(),
        primary_type: String::from_str(plan.primary.as_str()),
        title: plan.title.clone(),
        content_hash: hash.to_string(),
        total_bytes: plan.total_bytes,
        needs_file_download: false,
        file_download_state: "idle".to_string(),
        download_token: None,
        source_host: None,
        source_port: None,
        preview_json,
    }
}
} // verus!
