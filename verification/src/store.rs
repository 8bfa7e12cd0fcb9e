//! The records the history store keeps, and the rules that sit beside the
//! database: safe file names for blobs, finding the file of an entry, and
//! reading stored settings.

use vstd::prelude::*;
use crate::text::{
    clone_opt, is_ctrl, is_control, parse_u64_dec, parse_u64_range, str_chars,
    string_from_chars, sub_chars, trim_range, trim_seq, str_eq,
};
use crate::types::{AppSettings, HistoryEntry, PasteType, Preview};
use crate::codec::{dec_of, decimal};

verus! {

/// One stored clipboard item.
#[derive(Clone, Debug)]
pub struct StoredItem {
    pub id: String,
    pub pasteboard_id: String,
    pub sort_order: i64,
    pub item_type: String,
    pub text_content: Option<String>,
    pub html_content: Option<String>,
    pub rtf_b64: Option<String>,
    pub url: Option<String>,
    pub color: Option<String>,
    pub blob_hash: Option<String>,
    pub file_name: Option<String>,
    pub file_size: Option<u64>,
    pub width: Option<u32>,
    pub height: Option<u32>,
    pub download_token: Option<String>,
}

/// One stored history entry.
#[derive(Clone, Debug)]
pub struct StoredPasteboard {
    pub id: String,
    pub copied_at: i64,
    pub source_device_id: Option<String>,
    pub source_device_name: String,
    pub primary_type: String,
    pub title: String,
    pub content_hash: String,
    pub total_bytes: u64,
    pub needs_file_download: bool,
    pub file_download_state: String,
    pub download_token: Option<String>,
    pub source_host: Option<String>,
    pub source_port: Option<i64>,
    pub preview_json: String,
}

/// One paired device.
#[derive(Clone, Debug)]
pub struct StoredDevice {
    pub instance_id: String,
    pub name: String,
    pub note: String,
    pub fingerprint: String,
    pub public_key: String,
    pub cert_der: String,
    pub allow_send: bool,
    pub allow_receive: bool,
    pub auto_write_clipboard: bool,
    pub trust_broken: bool,
    pub host: Option<String>,
    pub port: Option<u16>,
}

impl StoredItem {
    /// A copy of the item.
    pub fn copy(&self) -> (r: StoredItem)
        ensures
            r == *self,
    {
        StoredItem {
            id: self.id.clone(),
            pasteboard_id: self.pasteboard_id.clone(),
            sort_order: self.sort_order,
            item_type: self.item_type.clone(),
            text_content: clone_opt(&self.text_content),
            html_content: clone_opt(&self.html_content),
            rtf_b64: clone_opt(&self.rtf_b64),
            url: clone_opt(&self.url),
            color: clone_opt(&self.color),
            blob_hash: clone_opt(&self.blob_hash),
            file_name: clone_opt(&self.file_name),
            file_size: self.file_size,
            width: self.width,
            height: self.height,
            download_token: clone_opt(&self.download_token),
        }
    }
}

impl StoredDevice {
    /// A copy of the device record.
    pub fn copy(&self) -> (r: StoredDevice)
        ensures
            r == *self,
    {
        StoredDevice {
            instance_id: self.instance_id.clone(),
            name: self.name.clone(),
            note: self.note.clone(),
            fingerprint: self.fingerprint.clone(),
            public_key: self.public_key.clone(),
            cert_der: self.cert_der.clone(),
            allow_send: self.allow_send,
            allow_receive: self.allow_receive,
            auto_write_clipboard: self.auto_write_clipboard,
            trust_broken: self.trust_broken,
            host: clone_opt(&self.host),
            port: self.port,
        }
    }
}

/// A character that separates path components: `/`, and on Windows `\` too.
pub open spec fn is_path_sep(c: char, windows: bool) -> bool {
    c == '/' || (windows && c == '\\')
}

/// Where the path component that ends at `end` starts: just after the last
/// separator before `end`, or 0.
pub open spec fn seg_start(s: Seq<char>, end: int, windows: bool) -> int
    decreases end,
{
    if end <= 0 {
        0
    } else if is_path_sep(s[end - 1], windows) {
        end
    } else {
        seg_start(s, end - 1, windows)
    }
}

pub proof fn lemma_seg_start(s: Seq<char>, end: int, windows: bool)
    requires
        end <= s.len(),
    ensures
        0 <= seg_start(s, end, windows) <= if end < 0 {
            0
        } else {
            end
        },
        forall|k: int|
            seg_start(s, end, windows) <= k < end ==> !is_path_sep(#[trigger] s[k], windows),
        seg_start(s, end, windows) > 0 ==> is_path_sep(s[seg_start(s, end, windows) - 1], windows),
    decreases end,
{
    if end > 0 && !is_path_sep(s[end - 1], windows) {
        lemma_seg_start(s, end - 1, windows);
    }
}

/// The last path component of `s[..end]` that is neither empty nor `.`.
pub open spec fn last_component(s: Seq<char>, end: int, windows: bool) -> Option<Seq<char>>
    decreases end + 1,
{
    if end <= 0 || end > s.len() {
        None
    } else {
        let st = seg_start(s, end, windows);
        let seg = s.subrange(st, end);
        if seg.len() == 0 || seg == seq!['.'] {
            proof {
                lemma_seg_start(s, end, windows);
            }
            last_component(s, st - 1, windows)
        } else {
            Some(seg)
        }
    }
}

/// The last component of a path without prefix, unless it is `..` or
/// there is none.
pub open spec fn name_after(t: Seq<char>, windows: bool) -> Option<Seq<char>> {
    match last_component(t, t.len() as int, windows) {
        Some(seg) => if seg == seq!['.', '.'] {
            None
        } else {
            Some(seg)
        },
        None => None,
    }
}

/// The first index from `i` on that holds `/` or `\`, or the length.
pub open spec fn next_win_sep(s: Seq<char>, i: int) -> int
    decreases s.len() - i,
{
    if i < 0 || i >= s.len() {
        s.len() as int
    } else if is_path_sep(s[i], true) {
        i
    } else {
        next_win_sep(s, i + 1)
    }
}

pub proof fn lemma_next_win_sep(s: Seq<char>, i: int)
    requires
        0 <= i <= s.len(),
    ensures
        i <= next_win_sep(s, i) <= s.len(),
        forall|k: int| i <= k < next_win_sep(s, i) ==> !is_path_sep(#[trigger] s[k], true),
        next_win_sep(s, i) < s.len() ==> is_path_sep(s[next_win_sep(s, i)], true),
    decreases s.len() - i,
{
    if i < s.len() && !is_path_sep(s[i], true) {
        lemma_next_win_sep(s, i + 1);
    }
}

/// The length of the Windows prefix a path starts with: a drive `X:`, or a
/// share `\\server\share` (with either separator); 0 when there is none.
pub open spec fn win_prefix_len(s: Seq<char>) -> int {
    if s.len() >= 2 && crate::text::is_alpha(s[0]) && s[1] == ':' {
        2
    } else if s.len() >= 2 && is_path_sep(s[0], true) && is_path_sep(s[1], true) {
        let b = next_win_sep(s, 2);
        if b > 2 && b < s.len() && next_win_sep(s, b + 1) > b + 1 {
            next_win_sep(s, b + 1)
        } else {
            0
        }
    } else {
        0
    }
}

/// The length of the prefix of a path: on Windows its drive or share, and
/// nothing on other platforms.
pub open spec fn prefix_len(s: Seq<char>, windows: bool) -> int {
    if windows {
        win_prefix_len(s)
    } else {
        0
    }
}

/// `Path::file_name` under the platform's rules (`windows` for Windows):
/// the last component after the path's prefix, unless it is `..` or there
/// is none. Windows verbatim paths (`\\?\`), which split at `\` only, are
/// read as ordinary ones.
pub open spec fn base_name(s: Seq<char>, windows: bool) -> Option<Seq<char>> {
    name_after(s.subrange(prefix_len(s, windows), s.len() as int), windows)
}

fn is_sep_char(c: char, windows: bool) -> (r: bool)
    ensures
        r == is_path_sep(c, windows),
{
    c == '/' || (windows && c == '\\')
}

fn next_win_sep_exec(v: &[char], i: usize) -> (r: usize)
    requires
        i <= v@.len(),
    ensures
        r == next_win_sep(v@, i as int),
{
    let mut k = i;
    while k < v.len() && !is_sep_char(v[k], true)
        invariant
            i <= k <= v@.len(),
            next_win_sep(v@, i as int) == next_win_sep(v@, k as int),
        decreases v@.len() - k,
    {
        k = k + 1;
    }
    k
}

fn prefix_len_exec(v: &[char], windows: bool) -> (r: usize)
    ensures
        r == prefix_len(v@, windows),
        r <= v@.len(),
{
    if !windows || v.len() < 2 {
        return 0;
    }
    if crate::text::is_ascii_alphabetic(v[0]) && v[1] == ':' {
        return 2;
    }
    if is_sep_char(v[0], true) && is_sep_char(v[1], true) {
        let b = next_win_sep_exec(v, 2);
        proof {
            lemma_next_win_sep(v@, 2);
        }
        if b > 2 && b < v.len() {
            let c = next_win_sep_exec(v, b + 1);
            proof {
                lemma_next_win_sep(v@, b + 1);
            }
            if c > b + 1 {
                return c;
            }
        }
    }
    0
}

/// `Path::file_name` on the characters of a path, under the platform's
/// rules (see `base_name`).
pub fn base_name_chars(v: &[char], windows: bool) -> (r: Option<Vec<char>>)
    ensures
        match r {
            Some(b) => base_name(v@, windows) == Some(b@),
            None => base_name(v@, windows) is None,
        },
{
    let p = prefix_len_exec(v, windows);
    let t = sub_chars(v, p, v.len());
    name_after_chars(&t, windows)
}

fn name_after_chars(v: &[char], windows: bool) -> (r: Option<Vec<char>>)
    ensures
        match r {
            Some(b) => name_after(v@, windows) == Some(b@),
            None => name_after(v@, windows) is None,
        },
{
    let n = v.len();
    let mut end: usize = n;
    loop
        invariant
            end <= n == v@.len(),
            last_component(v@, n as int, windows) == last_component(v@, end as int, windows),
        decreases end,
    {
        if end == 0 {
            return None;
        }
        let mut st: usize = end;
        while st > 0 && !is_sep_char(v[st - 1], windows)
            invariant
                st <= end <= n == v@.len(),
                seg_start(v@, end as int, windows) == seg_start(v@, st as int, windows),
            decreases st,
        {
            st = st - 1;
        }
        proof {
            lemma_seg_start(v@, end as int, windows);
        }
        assert(seg_start(v@, st as int, windows) == st);
        let len = end - st;
        if len == 0 || (len == 1 && v[st] == '.') {
            proof {
                if len == 1 {
                    assert(v@.subrange(st as int, end as int) =~= seq!['.']);
                } else {
                    assert(v@.subrange(st as int, end as int).len() == 0);
                }
            }
            if st == 0 {
                assert(last_component(v@, end as int, windows) == last_component(v@, -1, windows));
                return None;
            }
            end = st - 1;
        } else {
            let seg = sub_chars(v, st, end);
            proof {
                if len == 1 {
                    assert(seg@[0] != '.');
                    assert(seg@ != seq!['.']);
                }
            }
            if len == 2 && v[st] == '.' && v[st + 1] == '.' {
                assert(seg@ =~= seq!['.', '.']);
                return None;
            }
            proof {
                if len == 2 {
                    assert(seg@ != seq!['.', '.']) by {
                        if v[st as int] != '.' {
                            assert(seg@[0] != '.');
                        } else {
                            assert(seg@[1] != '.');
                        }
                    }
                }
            }
            return Some(seg);
        }
    }
}

/// Characters a file name may not hold.
pub open spec fn forbidden_in_name(c: char) -> bool {
    ||| is_ctrl(c)
    ||| c == '<'
    ||| c == '>'
    ||| c == ':'
    ||| c == '"'
    ||| c == '/'
    ||| c == '\\'
    ||| c == '|'
    ||| c == '?'
    ||| c == '*'
    ||| c == '\0'
}

/// The characters of `s` that may stand in a file name, in order.
pub open spec fn name_chars(s: Seq<char>) -> Seq<char>
    decreases s.len(),
{
    if s.len() == 0 {
        seq![]
    } else if forbidden_in_name(s.last()) {
        name_chars(s.drop_last())
    } else {
        name_chars(s.drop_last()).push(s.last())
    }
}

pub proof fn lemma_name_chars_prefix(s: Seq<char>, i: int)
    requires
        0 <= i <= s.len(),
    ensures
        name_chars(s.subrange(0, i)).len() <= name_chars(s).len(),
        name_chars(s).subrange(0, name_chars(s.subrange(0, i)).len() as int) == name_chars(
            s.subrange(0, i),
        ),
    decreases s.len() - i,
{
    if i < s.len() {
        lemma_name_chars_prefix(s, i + 1);
        let p = s.subrange(0, i + 1);
        assert(p.drop_last() =~= s.subrange(0, i));
        let a = name_chars(s.subrange(0, i));
        let b = name_chars(p);
        let w = name_chars(s);
        assert(w.subrange(0, a.len() as int) =~= b.subrange(0, a.len() as int));
        if !forbidden_in_name(p.last()) {
            assert(b.subrange(0, a.len() as int) =~= a);
        }
    } else {
        assert(s.subrange(0, i) =~= s);
        assert(name_chars(s).subrange(0, name_chars(s).len() as int) =~= name_chars(s));
    }
}

/// A file name kept to at most 255 characters.
pub const MAX_NAME_CHARS: usize = 255;

/// The safe name for a blob: the last component of the trimmed name (or the
/// whole name when it has none), without control characters and
/// `< > : " / \ | ? *`, at most 255 characters, trimmed; `file` when
/// nothing usable is left. `windows` picks the platform's path rules.
pub open spec fn sanitized_name(name: Option<Seq<char>>, windows: bool) -> Seq<char> {
    let raw = trim_seq(
        match name {
            Some(n) => n,
            None => seq![],
        },
    );
    let base = match base_name(raw, windows) {
        Some(b) => if b.len() > 0 {
            b
        } else {
            raw
        },
        None => raw,
    };
    let kept = name_chars(base);
    let capped = if kept.len() <= 255 {
        kept
    } else {
        kept.subrange(0, 255)
    };
    let out = trim_seq(capped);
    if out.len() == 0 || out == seq!['.'] || out == seq!['.', '.'] {
        "file"@
    } else {
        out
    }
}

fn is_forbidden(c: char) -> (r: bool)
    ensures
        r == forbidden_in_name(c),
{
    is_control(c) || c == '<' || c == '>' || c == ':' || c == '"' || c == '/' || c == '\\' || c
        == '|' || c == '?' || c == '*' || c == '\0'
}

/// `std::path::MAIN_SEPARATOR`: the separator of path components on this
/// platform (`/` on Unix, `\` on Windows). Nothing is stated of its value.
#[verifier::external_body]
pub(crate) fn main_separator() -> (r: char) {
    std::path::MAIN_SEPARATOR
}

/// Clipboard and Finder need a real filename + extension: the name a blob is
/// exposed under, by this platform's path rules (`sanitize_file_name_on`
/// gives each platform's).
pub fn sanitize_file_name(name: Option<&str>) -> (r: String)
    ensures
        ({
            let n = match name {
                Some(n) => Some(n@),
                None => None,
            };
            r@ == sanitized_name(n, false) || r@ == sanitized_name(n, true)
        }),
{
    let windows = main_separator() == '\\';
    sanitize_file_name_on(name, windows)
}

/// The name a blob is exposed under, by Windows path rules when `windows`
/// holds and by Unix ones otherwise.
pub fn sanitize_file_name_on(name: Option<&str>, windows: bool) -> (r: String)
    ensures
        r@ == sanitized_name(
            match name {
                Some(n) => Some(n@),
                None => None,
            },
            windows,
        ),
{
    let given: Vec<char> = match name {
        Some(n) => str_chars(n),
        None => Vec::new(),
    };
    let raw = trim_range(&given, 0, given.len());
    assert(given@.subrange(0, given@.len() as int) =~= given@);
    let base = match base_name_chars(&raw, windows) {
        Some(b) => if b.len() > 0 {
            b
        } else {
            raw
        },
        None => raw,
    };
    let mut out: Vec<char> = Vec::new();
    let n = base.len();
    let mut i: usize = 0;
    assert(base@.subrange(0, n as int) =~= base@);
    while i < n
        invariant_except_break
            out@ == name_chars(base@.subrange(0, i as int)),
            out@.len() < 255,
        invariant
            n == base@.len(),
            i <= n,
            base@.subrange(0, n as int) == base@,
        ensures
            out@ == (if name_chars(base@).len() <= 255 {
                name_chars(base@)
            } else {
                name_chars(base@).subrange(0, 255)
            }),
        decreases n - i,
    {
        let c = base[i];
        proof {
            assert(base@.subrange(0, i + 1).drop_last() =~= base@.subrange(0, i as int));
            lemma_name_chars_prefix(base@, i + 1);
        }
        if !is_forbidden(c) {
            out.push(c);
            if out.len() >= 255 {
                proof {
                    let p = name_chars(base@.subrange(0, i + 1));
                    assert(p.len() == 255);
                    assert(name_chars(base@).subrange(0, 255) == p);
                }
                break;
            }
        }
        i = i + 1;
        proof {
            if i == n {
                assert(base@.subrange(0, n as int) =~= base@);
            }
        }
    }
    let t = trim_range(&out, 0, out.len());
    assert(out@.subrange(0, out@.len() as int) =~= out@);
    if t.len() == 0 || (t.len() == 1 && t[0] == '.') || (t.len() == 2 && t[0] == '.' && t[1]
        == '.') {
        proof {
            reveal_strlit("file");
            if t.len() == 1 {
                assert(t@ =~= seq!['.']);
            }
            if t.len() == 2 {
                assert(t@ =~= seq!['.', '.']);
            }
        }
        return String::from_str("file");
    }
    proof {
        if t.len() == 1 {
            assert(t@ != seq!['.']) by {
                assert(t@[0] != '.');
            }
        }
        if t.len() == 2 {
            assert(t@ != seq!['.', '.']) by {
                if t@[0] != '.' {
                } else {
                    assert(t@[1] != '.');
                }
            }
        }
    }
    string_from_chars(&t)
}

/// The index of the first file item.
pub fn find_file_item(items: &[StoredItem]) -> (r: Option<usize>)
    ensures
        match r {
            Some(k) => k < items@.len() && items@[k as int].item_type@ == "file"@ && forall|j: int|
                0 <= j < k ==> items@[j].item_type@ != "file"@,
            None => forall|j: int| 0 <= j < items@.len() ==> items@[j].item_type@ != "file"@,
        },
{
    let n = items.len();
    let mut i: usize = 0;
    while i < n
        invariant
            n == items@.len(),
            i <= n,
            forall|j: int| 0 <= j < i ==> items@[j].item_type@ != "file"@,
        decreases n - i,
    {
        if str_eq(items[i].item_type.as_str(), "file") {
            return Some(i);
        }
        i = i + 1;
    }
    None
}

/// What the store found for a download request naming `id`: the items of a
/// history entry with that id (when there is one), the item with that id
/// (when there is one), and the items of that item's entry.
pub struct FileLookup {
    pub entry_items: Option<Vec<StoredItem>>,
    pub item: Option<StoredItem>,
    pub item_siblings: Vec<StoredItem>,
}

/// Resolve a file item from either a pasteboard id or an item id: the first
/// file item of the entry with that id; else the item itself when it is a
/// file; else the first file item of its entry. Peers download with
/// `GET /files/{item.id}`.
pub fn find_file_for_download(found: &FileLookup) -> (r: Option<StoredItem>)
    ensures
        match r {
            Some(it) => {
                ||| found.entry_items matches Some(es) && exists|k: int|
                    0 <= k < es@.len() && es@[k] == it && it.item_type@ == "file"@ && forall|
                        j: int,
                    | 0 <= j < k ==> es@[j].item_type@ != "file"@
                ||| (found.entry_items matches Some(es) ==> forall|j: int|
                    0 <= j < es@.len() ==> es@[j].item_type@ != "file"@) && {
                    ||| found.item == Some(it) && it.item_type@ == "file"@
                    ||| found.item matches Some(x) && x.item_type@ != "file"@ && exists|k: int|
                        0 <= k < found.item_siblings@.len() && found.item_siblings@[k] == it
                            && it.item_type@ == "file"@ && forall|j: int|
                            0 <= j < k ==> found.item_siblings@[j].item_type@ != "file"@
                }
            },
            None => {
                &&& found.entry_items matches Some(es) ==> forall|j: int|
                    0 <= j < es@.len() ==> es@[j].item_type@ != "file"@
                &&& found.item matches Some(x) ==> x.item_type@ != "file"@ && forall|j: int|
                    0 <= j < found.item_siblings@.len() ==> found.item_siblings@[j].item_type@
                        != "file"@
            },
        },
{
    if let Some(es) = &found.entry_items {
        if let Some(k) = find_file_item(es.as_slice()) {
            return Some(es[k].copy());
        }
    }
    if let Some(it) = &found.item {
        if str_eq(it.item_type.as_str(), "file") {
            return Some(it.copy());
        }
        if let Some(k) = find_file_item(found.item_siblings.as_slice()) {
            return Some(found.item_siblings[k].copy());
        }
    }
    None
}

/// A stored setting's text read as a `u64`, as `str::parse` reads it.
pub fn parse_setting_u64(v: &str) -> (r: Option<u64>)
    ensures
        r == parse_u64_dec(v@),
{
    let c = str_chars(v);
    let r = parse_u64_range(&c, 0, c.len());
    assert(c@.subrange(0, c@.len() as int) =~= c@);
    r
}

/// A stored setting's text read as a `u32`.
pub open spec fn parse_u32_dec(s: Seq<char>) -> Option<u32> {
    match parse_u64_dec(s) {
        Some(n) => if n <= u32::MAX {
            Some(n as u32)
        } else {
            None
        },
        None => None,
    }
}

pub fn parse_setting_u32(v: &str) -> (r: Option<u32>)
    ensures
        r == parse_u32_dec(v@),
{
    match parse_setting_u64(v) {
        Some(n) => if n <= u32::MAX as u64 {
            Some(n as u32)
        } else {
            None
        },
        None => None,
    }
}

/// The settings read back from their stored texts: each number that parses
/// replaces the default; an empty or `null` age limit means none; a non-empty
/// shortcut replaces the default.
pub open spec fn settings_from(
    auto_sync: Option<Seq<char>>,
    max_items: Option<Seq<char>>,
    max_bytes: Option<Seq<char>>,
    max_age: Option<Seq<char>>,
    shortcut: Option<Seq<char>>,
    base: AppSettings,
    r: AppSettings,
) -> bool {
    &&& r.auto_sync_max_bytes == match auto_sync {
        Some(v) => match parse_u64_dec(v) {
            Some(n) => n,
            None => base.auto_sync_max_bytes,
        },
        None => base.auto_sync_max_bytes,
    }
    &&& r.cleanup_max_items == match max_items {
        Some(v) => match parse_u64_dec(v) {
            Some(n) => n,
            None => base.cleanup_max_items,
        },
        None => base.cleanup_max_items,
    }
    &&& r.cleanup_max_bytes == match max_bytes {
        Some(v) => match parse_u64_dec(v) {
            Some(n) => n,
            None => base.cleanup_max_bytes,
        },
        None => base.cleanup_max_bytes,
    }
    &&& r.cleanup_max_age_days == match max_age {
        Some(v) => if v.len() == 0 || v == "null"@ {
            None
        } else {
            match parse_u32_dec(v) {
                Some(n) => Some(n),
                None => base.cleanup_max_age_days,
            }
        },
        None => base.cleanup_max_age_days,
    }
    &&& r.overlay_shortcut@ == match shortcut {
        Some(v) => if v.len() > 0 {
            v
        } else {
            base.overlay_shortcut@
        },
        None => base.overlay_shortcut@,
    }
}

pub open spec fn opt_view(o: Option<&str>) -> Option<Seq<char>> {
    match o {
        Some(s) => Some(s@),
        None => None,
    }
}

/// The settings from the stored texts of `autoSyncMaxBytes`,
/// `cleanupMaxItems`, `cleanupMaxBytes`, `cleanupMaxAgeDays` and
/// `overlayShortcut`, each `None` when the key is not stored, over the
/// defaults.
pub fn settings_from_stored(
    auto_sync: Option<&str>,
    max_items: Option<&str>,
    max_bytes: Option<&str>,
    max_age: Option<&str>,
    shortcut: Option<&str>,
) -> (r: AppSettings)
    ensures
        exists|base: AppSettings|
            {
                &&& base.auto_sync_max_bytes == crate::types::DEFAULT_AUTO_SYNC_MAX_BYTES
                &&& base.cleanup_max_items == crate::types::DEFAULT_CLEANUP_MAX_ITEMS
                &&& base.cleanup_max_bytes == crate::types::DEFAULT_CLEANUP_MAX_BYTES
                &&& base.cleanup_max_age_days is None
                &&& base.overlay_shortcut@ == crate::types::DEFAULT_SHORTCUT@
                &&& settings_from(
                    opt_view(auto_sync),
                    opt_view(max_items),
                    opt_view(max_bytes),
                    opt_view(max_age),
                    opt_view(shortcut),
                    base,
                    r,
                )
            },
{
    let base = <AppSettings as Default>::default();
    let mut s = <AppSettings as Default>::default();
    if let Some(v) = auto_sync {
        if let Some(n) = parse_setting_u64(v) {
            s.auto_sync_max_bytes = n;
        }
    }
    if let Some(v) = max_items {
        if let Some(n) = parse_setting_u64(v) {
            s.cleanup_max_items = n;
        }
    }
    if let Some(v) = max_bytes {
        if let Some(n) = parse_setting_u64(v) {
            s.cleanup_max_bytes = n;
        }
    }
    if let Some(v) = max_age {
        proof {
            reveal_strlit("");
            if v@.len() == 0 {
                assert(v@ =~= ""@);
            }
        }
        if str_eq(v, "") || str_eq(v, "null") {
            s.cleanup_max_age_days = None;
        } else if let Some(n) = parse_setting_u32(v) {
            s.cleanup_max_age_days = Some(n);
        }
    }
    if let Some(v) = shortcut {
        proof {
            reveal_strlit("");
            if v@.len() == 0 {
                assert(v@ =~= ""@);
            }
        }
        if !str_eq(v, "") {
            let sc = String::from_str(v);
            assert(sc@ == v@);
            s.overlay_shortcut = sc;
        } else {
            proof {
                reveal_strlit("");
            }
            assert(v@.len() == 0);
        }
    }
    proof {
        reveal_strlit("");
        reveal_strlit("null");
        assert(s.auto_sync_max_bytes == match opt_view(auto_sync) {
            Some(v) => match parse_u64_dec(v) {
                Some(n) => n,
                None => base.auto_sync_max_bytes,
            },
            None => base.auto_sync_max_bytes,
        });
        assert(s.cleanup_max_age_days == match opt_view(max_age) {
            Some(v) => if v.len() == 0 || v == "null"@ {
                None
            } else {
                match parse_u32_dec(v) {
                    Some(n) => Some(n),
                    None => base.cleanup_max_age_days,
                }
            },
            None => base.cleanup_max_age_days,
        });
        assert(s.overlay_shortcut@ == match opt_view(shortcut) {
            Some(v) => if v.len() > 0 {
                v
            } else {
                base.overlay_shortcut@
            },
            None => base.overlay_shortcut@,
        });
        assert(settings_from(
            opt_view(auto_sync),
            opt_view(max_items),
            opt_view(max_bytes),
            opt_view(max_age),
            opt_view(shortcut),
            base,
            s,
        ));
    }
    s
}


/// The stored texts of the settings, one per key.
pub struct StoredSettings {
    pub auto_sync_max_bytes: String,
    pub cleanup_max_items: String,
    pub cleanup_max_bytes: String,
    pub cleanup_max_age_days: String,
    pub overlay_shortcut: String,
}

/// How the settings are written: numbers in decimal, no age limit as an
/// empty text, the shortcut as it is.
pub fn stored_settings(s: &AppSettings) -> (r: StoredSettings)
    ensures
        r.auto_sync_max_bytes@ == dec_of(s.auto_sync_max_bytes as nat),
        r.cleanup_max_items@ == dec_of(s.cleanup_max_items as nat),
        r.cleanup_max_bytes@ == dec_of(s.cleanup_max_bytes as nat),
        r.cleanup_max_age_days@ == match s.cleanup_max_age_days {
            Some(d) => dec_of(d as nat),
            None => seq![],
        },
        r.overlay_shortcut@ == s.overlay_shortcut@,
{
    StoredSettings {
        auto_sync_max_bytes: decimal(s.auto_sync_max_bytes),
        cleanup_max_items: decimal(s.cleanup_max_items),
        cleanup_max_bytes: decimal(s.cleanup_max_bytes),
        cleanup_max_age_days: match s.cleanup_max_age_days {
            Some(d) => decimal(d as u64),
            None => String::new(),
        },
        overlay_shortcut: s.overlay_shortcut.clone(),
    }
}

/// Saving the settings and loading them back gives the same settings, as
/// long as the shortcut is not empty (an empty one loads as the default).
pub proof fn lemma_settings_roundtrip(s: AppSettings, base: AppSettings, r: AppSettings)
    requires
        s.overlay_shortcut@.len() > 0,
        settings_from(
            Some(dec_of(s.auto_sync_max_bytes as nat)),
            Some(dec_of(s.cleanup_max_items as nat)),
            Some(dec_of(s.cleanup_max_bytes as nat)),
            Some(
                match s.cleanup_max_age_days {
                    Some(d) => dec_of(d as nat),
                    None => seq![],
                },
            ),
            Some(s.overlay_shortcut@),
            base,
            r,
        ),
    ensures
        r.auto_sync_max_bytes == s.auto_sync_max_bytes,
        r.cleanup_max_items == s.cleanup_max_items,
        r.cleanup_max_bytes == s.cleanup_max_bytes,
        r.cleanup_max_age_days == s.cleanup_max_age_days,
        r.overlay_shortcut@ == s.overlay_shortcut@,
{
    crate::codec::lemma_decimal_roundtrip(s.auto_sync_max_bytes);
    crate::codec::lemma_decimal_roundtrip(s.cleanup_max_items);
    crate::codec::lemma_decimal_roundtrip(s.cleanup_max_bytes);
    match s.cleanup_max_age_days {
        Some(d) => {
            crate::codec::lemma_decimal_roundtrip(d as u64);
            crate::codec::lemma_dec_of_parses(d as nat);
            reveal_strlit("null");
            assert(dec_of(d as nat) != "null"@) by {
                let t = dec_of(d as nat);
                if t == "null"@ {
                    assert(crate::text::digit_of(t[0], 10) is Some);
                    assert(t[0] == 'n');
                }
            }
        },
        None => {},
    }
}

/// One history row for the overlay: the stored record with its parsed
/// preview; an unknown kind shows as text.
pub fn history_entry(pb: &StoredPasteboard, preview: Preview) -> (r: HistoryEntry)
    ensures
        r.id == pb.id,
        r.copied_at == pb.copied_at,
        r.source_device_id == pb.source_device_id,
        r.source_device_name == pb.source_device_name,
        r.primary_type == match PasteType::from_name(pb.primary_type@) {
            Some(t) => t,
            None => PasteType::Text,
        },
        r.title == pb.title,
        r.preview == preview,
        r.needs_file_download == pb.needs_file_download,
        r.file_download_state == pb.file_download_state,
{
    HistoryEntry {
        id: pb.id.clone(),
        copied_at: pb.copied_at,
        source_device_id: clone_opt(&pb.source_device_id),
        source_device_name: pb.source_device_name.clone(),
        primary_type: match PasteType::parse(pb.primary_type.as_str()) {
            Some(t) => t,
            None => PasteType::Text,
        },
        title: pb.title.clone(),
        preview,
        needs_file_download: pb.needs_file_download,
        file_download_state: pb.file_download_state.clone(),
    }
}

pub proof fn lemma_name_chars_allowed(s: Seq<char>)
    ensures
        forall|k: int| 0 <= k < name_chars(s).len() ==> !forbidden_in_name(#[trigger] name_chars(s)[k]),
    decreases s.len(),
{
    if s.len() > 0 {
        lemma_name_chars_allowed(s.drop_last());
        let r = name_chars(s.drop_last());
        if !forbidden_in_name(s.last()) {
            assert forall|k: int| 0 <= k < name_chars(s).len() implies !forbidden_in_name(
                #[trigger] name_chars(s)[k],
            ) by {
                if k < r.len() {
                    assert(name_chars(s)[k] == r[k]);
                }
            }
        }
    }
}

/// A blob's file name is always safe to create: never empty, `.` or `..`,
/// at most 255 characters, and free of control characters and
/// `< > : " / \ | ? *`.
pub proof fn lemma_sanitized_name_safe(name: Option<Seq<char>>, windows: bool)
    ensures
        sanitized_name(name, windows).len() > 0,
        sanitized_name(name, windows) != seq!['.'],
        sanitized_name(name, windows) != seq!['.', '.'],
        sanitized_name(name, windows).len() <= 255,
        forall|k: int|
            0 <= k < sanitized_name(name, windows).len() ==> !forbidden_in_name(
                #[trigger] sanitized_name(name, windows)[k],
            ),
{
    reveal_strlit("file");
    let raw = trim_seq(
        match name {
            Some(n) => n,
            None => seq![],
        },
    );
    let base = match base_name(raw, windows) {
        Some(b) => if b.len() > 0 {
            b
        } else {
            raw
        },
        None => raw,
    };
    let kept = name_chars(base);
    lemma_name_chars_allowed(base);
    let capped = if kept.len() <= 255 {
        kept
    } else {
        kept.subrange(0, 255)
    };
    assert forall|k: int| 0 <= k < capped.len() implies !forbidden_in_name(#[trigger] capped[k]) by {
        assert(capped[k] == kept[k]);
    }
    let out = trim_seq(capped);
    crate::text::lemma_skip_ws(capped, 0, capped.len() as int);
    let a = crate::text::skip_ws(capped, 0, capped.len() as int);
    crate::text::lemma_trim_end_at(capped, a, capped.len() as int);
    assert forall|k: int| 0 <= k < out.len() implies !forbidden_in_name(#[trigger] out[k]) by {
        assert(out[k] == capped[a + k]);
    }
    let f = "file"@;
    assert(f.len() == 4);
    assert(f[0] == 'f' && f[1] == 'i' && f[2] == 'l' && f[3] == 'e');
    assert forall|k: int| 0 <= k < f.len() implies !forbidden_in_name(#[trigger] f[k]) by {
        assert(f[k] == 'f' || f[k] == 'i' || f[k] == 'l' || f[k] == 'e');
    }
    assert(f != seq!['.']);
    assert(f != seq!['.', '.']);
}

proof fn lemma_seg_start_no_sep(s: Seq<char>, end: int, windows: bool)
    requires
        0 <= end <= s.len(),
        forall|k: int| 0 <= k < s.len() ==> !is_path_sep(#[trigger] s[k], windows),
    ensures
        seg_start(s, end, windows) == 0,
    decreases end,
{
    if end > 0 {
        lemma_seg_start_no_sep(s, end - 1, windows);
    }
}

proof fn lemma_name_chars_keeps_allowed(s: Seq<char>)
    requires
        forall|k: int| 0 <= k < s.len() ==> !forbidden_in_name(#[trigger] s[k]),
    ensures
        name_chars(s) == s,
    decreases s.len(),
{
    if s.len() > 0 {
        let d = s.drop_last();
        assert forall|k: int| 0 <= k < d.len() implies !forbidden_in_name(#[trigger] d[k]) by {
            assert(d[k] == s[k]);
        }
        lemma_name_chars_keeps_allowed(d);
        assert(!forbidden_in_name(s[s.len() - 1]));
        assert(d.push(s.last()) =~= s);
    }
}

/// A sanitized name is trimmed, and sanitizing it again leaves it as it is.
pub proof fn lemma_sanitized_name_idempotent(name: Option<Seq<char>>, windows: bool)
    ensures
        !crate::text::is_ws(sanitized_name(name, windows)[0]),
        !crate::text::is_ws(sanitized_name(name, windows).last()),
        sanitized_name(Some(sanitized_name(name, windows)), windows) == sanitized_name(name, windows),
{
    reveal_strlit("file");
    lemma_sanitized_name_safe(name, windows);
    let x = sanitized_name(name, windows);
    let raw = trim_seq(
        match name {
            Some(n) => n,
            None => seq![],
        },
    );
    let base = match base_name(raw, windows) {
        Some(b) => if b.len() > 0 {
            b
        } else {
            raw
        },
        None => raw,
    };
    let kept = name_chars(base);
    let capped = if kept.len() <= 255 {
        kept
    } else {
        kept.subrange(0, 255)
    };
    crate::text::lemma_trim_seq_ends(capped);
    let f = "file"@;
    assert(f[0] == 'f' && f[3] == 'e' && f.len() == 4);
    assert(!crate::text::is_ws(x[0]) && !crate::text::is_ws(x.last()));
    crate::text::lemma_trim_seq_trimmed(x);
    assert forall|k: int| 0 <= k < x.len() implies !is_path_sep(#[trigger] x[k], windows) by {
        assert(!forbidden_in_name(x[k]));
    }
    assert(!forbidden_in_name(x[0]));
    if x.len() >= 2 {
        assert(!forbidden_in_name(x[1]));
    }
    assert(prefix_len(x, windows) == 0);
    lemma_seg_start_no_sep(x, x.len() as int, windows);
    assert(x.subrange(0, x.len() as int) =~= x);
    assert(last_component(x, x.len() as int, windows) == Some(x));
    assert(base_name(x, windows) == Some(x));
    lemma_name_chars_keeps_allowed(x);
}

/// A new age limit sent by the settings window: JSON `null` (no limit), a
/// whole number of days, or any other value (which clears the limit too).
pub enum AgeLimitUpdate {
    Null,
    Days(u64),
    Other,
}

/// Settings after an update, and the shortcut to bind when it changes.
pub struct SettingsUpdate {
    pub settings: AppSettings,
    pub new_shortcut: Option<String>,
}

/// Apply the fields the settings window sent: each given number replaces
/// its setting; an age limit of `null` or of a non-number clears the limit,
/// a number of days (kept to 32 bits) sets it; a non-empty shortcut other
/// than the current one replaces it, and is reported for binding.
pub fn settings_update(
    current: &AppSettings,
    auto_sync_max_bytes: Option<u64>,
    cleanup_max_items: Option<u64>,
    cleanup_max_bytes: Option<u64>,
    cleanup_max_age_days: Option<AgeLimitUpdate>,
    overlay_shortcut: Option<String>,
) -> (r: SettingsUpdate)
    ensures
        r.settings.auto_sync_max_bytes == match auto_sync_max_bytes {
            Some(v) => v,
            None => current.auto_sync_max_bytes,
        },
        r.settings.cleanup_max_items == match cleanup_max_items {
            Some(v) => v,
            None => current.cleanup_max_items,
        },
        r.settings.cleanup_max_bytes == match cleanup_max_bytes {
            Some(v) => v,
            None => current.cleanup_max_bytes,
        },
        r.settings.cleanup_max_age_days == match cleanup_max_age_days {
            Some(AgeLimitUpdate::Days(n)) => Some(n as u32),
            Some(_) => None,
            None => current.cleanup_max_age_days,
        },
        match overlay_shortcut {
            Some(v) => if v@.len() > 0 && v@ != current.overlay_shortcut@ {
                r.new_shortcut == Some(v) && r.settings.overlay_shortcut == v
            } else {
                r.new_shortcut is None && r.settings.overlay_shortcut == current.overlay_shortcut
            },
            None => r.new_shortcut is None && r.settings.overlay_shortcut
                == current.overlay_shortcut,
        },
{
    let age = match cleanup_max_age_days {
        Some(AgeLimitUpdate::Days(n)) => Some(n as u32),
        Some(_) => None,
        None => current.cleanup_max_age_days,
    };
    let (shortcut, new_shortcut) = match overlay_shortcut {
        Some(v) => if str_chars(v.as_str()).len() > 0 && !str_eq(
            v.as_str(),
            current.overlay_shortcut.as_str(),
        ) {
            let c = v.clone();
            (v, Some(c))
        } else {
            (current.overlay_shortcut.clone(), None)
        },
        None => (current.overlay_shortcut.clone(), None),
    };
    SettingsUpdate {
        settings: AppSettings {
            auto_sync_max_bytes: match auto_sync_max_bytes {
                Some(v) => v,
                None => current.auto_sync_max_bytes,
            },
            cleanup_max_items: match cleanup_max_items {
                Some(v) => v,
                None => current.cleanup_max_items,
            },
            cleanup_max_bytes: match cleanup_max_bytes {
                Some(v) => v,
                None => current.cleanup_max_bytes,
            },
            cleanup_max_age_days: age,
            overlay_shortcut: shortcut,
        },
        new_shortcut,
    }
}

} // verus!
