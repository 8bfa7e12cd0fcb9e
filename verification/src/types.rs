//! Clipboard item kinds, the settings and the records exchanged with the UI.

use vstd::prelude::*;
use crate::text::str_eq;

verus! {

/// Items of at most this many bytes sync to paired devices on their own.
pub const DEFAULT_AUTO_SYNC_MAX_BYTES: u64 = 20 * 1024 * 1024;

/// History keeps at most this many entries by default.
pub const DEFAULT_CLEANUP_MAX_ITEMS: u64 = 500;

/// History keeps at most this many bytes by default.
pub const DEFAULT_CLEANUP_MAX_BYTES: u64 = 1024 * 1024 * 1024;

/// The default shortcut that opens the overlay.
pub const DEFAULT_SHORTCUT: &'static str = "Option+Shift+V";

/// How long a pairing token stays valid, in milliseconds.
pub const PAIR_TOKEN_TTL_MS: u64 = 60_000;

/// The kind of one clipboard item.
#[derive(Clone, Copy, Debug, PartialEq, Eq, Structural)]
pub enum PasteType {
    Text,
    Url,
    Color,
    Html,
    Rtf,
    Image,
    File,
}

impl PasteType {
    /// The name of a kind, as the UI and the wire protocol write it.
    pub open spec fn name(self) -> Seq<char> {
        match self {
            PasteType::Text => "text"@,
            PasteType::Url => "url"@,
            PasteType::Color => "color"@,
            PasteType::Html => "html"@,
            PasteType::Rtf => "rtf"@,
            PasteType::Image => "image"@,
            PasteType::File => "file"@,
        }
    }

    /// The kind that a name stands for.
    pub open spec fn from_name(s: Seq<char>) -> Option<PasteType> {
        if s == "text"@ {
            Some(PasteType::Text)
        } else if s == "url"@ {
            Some(PasteType::Url)
        } else if s == "color"@ {
            Some(PasteType::Color)
        } else if s == "html"@ {
            Some(PasteType::Html)
        } else if s == "rtf"@ {
            Some(PasteType::Rtf)
        } else if s == "image"@ {
            Some(PasteType::Image)
        } else if s == "file"@ {
            Some(PasteType::File)
        } else {
            None
        }
    }

    pub fn as_str(self) -> (r: &'static str)
        ensures
            r@ == self.name(),
    {
        match self {
            PasteType::Text => "text",
            PasteType::Url => "url",
            PasteType::Color => "color",
            PasteType::Html => "html",
            PasteType::Rtf => "rtf",
            PasteType::Image => "image",
            PasteType::File => "file",
        }
    }

    pub fn parse(s: &str) -> (r: Option<PasteType>)
        ensures
            r == PasteType::from_name(s@),
    {
        if str_eq(s, "text") {
            Some(PasteType::Text)
        } else if str_eq(s, "url") {
            Some(PasteType::Url)
        } else if str_eq(s, "color") {
            Some(PasteType::Color)
        } else if str_eq(s, "html") {
            Some(PasteType::Html)
        } else if str_eq(s, "rtf") {
            Some(PasteType::Rtf)
        } else if str_eq(s, "image") {
            Some(PasteType::Image)
        } else if str_eq(s, "file") {
            Some(PasteType::File)
        } else {
            None
        }
    }
}

/// Reading a kind's name gives the kind back: `parse(as_str(t)) == Some(t)`
/// for every kind, and two kinds never share a name.
pub proof fn lemma_paste_type_name_roundtrip(t: PasteType)
    ensures
        PasteType::from_name(t.name()) == Some(t),
{
    reveal_strlit("text");
    reveal_strlit("url");
    reveal_strlit("color");
    reveal_strlit("html");
    reveal_strlit("rtf");
    reveal_strlit("image");
    reveal_strlit("file");
    assert("text"@.len() == 4 && "text"@[0] == 't');
    assert("url"@.len() == 3 && "url"@[0] == 'u');
    assert("color"@.len() == 5 && "color"@[0] == 'c');
    assert("html"@.len() == 4 && "html"@[0] == 'h');
    assert("rtf"@.len() == 3 && "rtf"@[0] == 'r');
    assert("image"@.len() == 5 && "image"@[0] == 'i');
    assert("file"@.len() == 4 && "file"@[0] == 'f');
}


/// The seven kind names are pairwise different.
pub proof fn lemma_kind_names_distinct()
    ensures
        "text"@ != "url"@,
        "text"@ != "color"@,
        "text"@ != "html"@,
        "text"@ != "rtf"@,
        "text"@ != "image"@,
        "text"@ != "file"@,
        "url"@ != "color"@,
        "url"@ != "html"@,
        "url"@ != "rtf"@,
        "url"@ != "image"@,
        "url"@ != "file"@,
        "color"@ != "html"@,
        "color"@ != "rtf"@,
        "color"@ != "image"@,
        "color"@ != "file"@,
        "html"@ != "rtf"@,
        "html"@ != "image"@,
        "html"@ != "file"@,
        "rtf"@ != "image"@,
        "rtf"@ != "file"@,
        "image"@ != "file"@,
{
    lemma_paste_type_name_roundtrip(PasteType::Text);
    lemma_paste_type_name_roundtrip(PasteType::Url);
    lemma_paste_type_name_roundtrip(PasteType::Color);
    lemma_paste_type_name_roundtrip(PasteType::Html);
    lemma_paste_type_name_roundtrip(PasteType::Rtf);
    lemma_paste_type_name_roundtrip(PasteType::Image);
    lemma_paste_type_name_roundtrip(PasteType::File);
}

/// The kind that decides how a pasteboard looks in the list: file, then
/// colour, HTML, RTF, image, URL, and text last (also when there is none).
pub open spec fn primary_of(types: Seq<PasteType>) -> PasteType {
    if types.contains(PasteType::File) {
        PasteType::File
    } else if types.contains(PasteType::Color) {
        PasteType::Color
    } else if types.contains(PasteType::Html) {
        PasteType::Html
    } else if types.contains(PasteType::Rtf) {
        PasteType::Rtf
    } else if types.contains(PasteType::Image) {
        PasteType::Image
    } else if types.contains(PasteType::Url) {
        PasteType::Url
    } else {
        PasteType::Text
    }
}

fn has_type(types: &[PasteType], t: PasteType) -> (r: bool)
    ensures
        r == types@.contains(t),
{
    let mut i: usize = 0;
    while i < types.len()
        invariant
            i <= types@.len(),
            forall|j: int| 0 <= j < i ==> types@[j] != t,
        decreases types@.len() - i,
    {
        if types[i] == t {
            assert(types@[i as int] == t);
            return true;
        }
        i = i + 1;
    }
    false
}

/// Primary appearance type: file > color > html > rtf > image > url > text.
pub fn primary_type(types: &[PasteType]) -> (r: PasteType)
    ensures
        r == primary_of(types@),
{
    if has_type(types, PasteType::File) {
        PasteType::File
    } else if has_type(types, PasteType::Color) {
        PasteType::Color
    } else if has_type(types, PasteType::Html) {
        PasteType::Html
    } else if has_type(types, PasteType::Rtf) {
        PasteType::Rtf
    } else if has_type(types, PasteType::Image) {
        PasteType::Image
    } else if has_type(types, PasteType::Url) {
        PasteType::Url
    } else {
        PasteType::Text
    }
}

/// The primary kind is always one of the kinds present, unless there is
/// none, when it is text.
pub proof fn lemma_primary_type_present(types: Seq<PasteType>)
    ensures
        types.len() > 0 ==> types.contains(primary_of(types)) || (primary_of(types)
            == PasteType::Text && !types.contains(PasteType::Text) && forall|k: int|
            0 <= k < types.len() ==> types[k] == PasteType::Text),
        types.contains(PasteType::File) ==> primary_of(types) == PasteType::File,
{
    if types.len() > 0 && !types.contains(primary_of(types)) {
        assert(primary_of(types) == PasteType::Text);
        let t = types[0];
        assert(types.contains(t));
    }
}

/// An entry syncs by itself only when it is at most `max_bytes` large.
pub fn should_auto_sync(total_bytes: u64, max_bytes: u64) -> (r: bool)
    ensures
        r == (total_bytes <= max_bytes),
{
    total_bytes <= max_bytes
}

/// What a history row previews.
#[derive(Clone, Debug)]
pub struct Preview {
    pub text: Option<String>,
    pub color: Option<String>,
    pub url: Option<String>,
    pub html: Option<String>,
    pub image_thumb: Option<String>,
    pub width: Option<u32>,
    pub height: Option<u32>,
    pub file_name: Option<String>,
    pub file_size: Option<u64>,
    pub path: Option<String>,
}

impl Preview {
    /// A preview with nothing in it.
    pub fn empty() -> (r: Preview)
        ensures
            r.text is None && r.color is None && r.url is None && r.html is None && r.image_thumb is None
                && r.width is None && r.height is None && r.file_name is None && r.file_size is None
                && r.path is None,
    {
        Preview {
            text: None,
            color: None,
            url: None,
            html: None,
            image_thumb: None,
            width: None,
            height: None,
            file_name: None,
            file_size: None,
            path: None,
        }
    }
}

/// One row of history as the overlay shows it.
#[derive(Clone, Debug)]
pub struct HistoryEntry {
    pub id: String,
    pub copied_at: i64,
    pub source_device_id: Option<String>,
    pub source_device_name: String,
    pub primary_type: PasteType,
    pub title: String,
    pub preview: Preview,
    pub needs_file_download: bool,
    pub file_download_state: String,
}

/// A LanPaste instance seen on the network and not yet paired.
#[derive(Clone, Debug)]
pub struct NearbyDevice {
    pub instance_id: String,
    pub name: String,
    pub fingerprint: String,
}

/// A paired device with its switches.
#[derive(Clone, Debug)]
pub struct PairedDevice {
    pub instance_id: String,
    pub name: String,
    pub note: String,
    pub online: bool,
    pub allow_send: bool,
    pub allow_receive: bool,
    pub auto_write_clipboard: bool,
    pub trust_broken: bool,
}

/// The user's settings.
#[derive(Clone, Debug)]
pub struct AppSettings {
    pub auto_sync_max_bytes: u64,
    pub cleanup_max_items: u64,
    pub cleanup_max_bytes: u64,
    pub cleanup_max_age_days: Option<u32>,
    pub overlay_shortcut: String,
}

impl Default for AppSettings {
    fn default() -> (r: AppSettings)
        ensures
            r.auto_sync_max_bytes == DEFAULT_AUTO_SYNC_MAX_BYTES,
            r.cleanup_max_items == DEFAULT_CLEANUP_MAX_ITEMS,
            r.cleanup_max_bytes == DEFAULT_CLEANUP_MAX_BYTES,
            r.cleanup_max_age_days is None,
            r.overlay_shortcut@ == DEFAULT_SHORTCUT@,
    {
        AppSettings {
            auto_sync_max_bytes: DEFAULT_AUTO_SYNC_MAX_BYTES,
            cleanup_max_items: DEFAULT_CLEANUP_MAX_ITEMS,
            cleanup_max_bytes: DEFAULT_CLEANUP_MAX_BYTES,
            cleanup_max_age_days: None,
            overlay_shortcut: String::from_str(DEFAULT_SHORTCUT),
        }
    }
}

/// What the target of a pairing shows: the token and when it expires.
#[derive(Clone, Debug)]
pub struct PairingShowPayload {
    pub token: String,
    pub expires_at: i64,
}

/// What the initiator of a pairing asks the user for.
#[derive(Clone, Debug)]
pub struct PairingInputPayload {
    pub instance_id: String,
    pub device_name: String,
}

/// Progress of a file download.
#[derive(Clone, Debug)]
pub struct TransferProgressPayload {
    pub id: String,
    pub received: u64,
    pub total: u64,
}

} // verus!
