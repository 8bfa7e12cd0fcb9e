//! What a copy puts on the clipboard and how it is read: the captured items,
//! colour detection, titles, and the clean-up that turns styled HTML or RTF
//! around plain text back into text.

use vstd::prelude::*;
use crate::html::{
    html_has_rich_markup, html_is_plain_wrapper, html_rich_scan, html_text, html_visible_text,
    plain_wrapper,
};
use crate::rtf::{rtf_has_rich_markup, rtf_rich, rtf_visible, rtf_visible_text};
use crate::text::{
    find_char, find_char_from, is_ascii_hexdigit, is_hex, lemma_find_char, lower_chars, lower_seq,
    str_chars, string_from_chars, sub_chars, trim_range, trim_seq,
};
use crate::types::PasteType;
use crate::codec::{
    b64_decode, content_hash_for, content_hash_of, copy_bytes, parts_view, sha256,
    spec_b64_decode, spec_sha256,
};
use crate::store::StoredItem;
use vstd::utf8::{decode_utf8, encode_utf8, valid_utf8};

verus! {

/// One representation of what was copied.
#[derive(Clone, Debug)]
pub struct CapturedItem {
    pub ty: PasteType,
    pub text: Option<String>,
    pub html: Option<String>,
    pub rtf: Option<Vec<u8>>,
    pub url: Option<String>,
    pub color: Option<String>,
    pub image: Option<Vec<u8>>,
    /// The copied file's path, as text.
    pub file_path: Option<String>,
}

/// Everything one copy put on the clipboard.
#[derive(Clone, Debug)]
pub struct CapturedPasteboard {
    pub items: Vec<CapturedItem>,
}

fn clone_opt_string(o: &Option<String>) -> (r: Option<String>)
    ensures
        r == *o,
{
    match o {
        Some(s) => Some(s.clone()),
        None => None,
    }
}

fn clone_opt_bytes(o: &Option<Vec<u8>>) -> (r: Option<Vec<u8>>)
    ensures
        match (r, *o) {
            (Some(a), Some(b)) => a@ == b@,
            (None, None) => true,
            _ => false,
        },
{
    match o {
        Some(v) => {
            let mut c: Vec<u8> = Vec::new();
            let mut i: usize = 0;
            while i < v.len()
                invariant
                    i <= v@.len(),
                    c@ == v@.subrange(0, i as int),
                decreases v@.len() - i,
            {
                c.push(v[i]);
                i = i + 1;
            }
            assert(c@ =~= v@);
            Some(c)
        },
        None => None,
    }
}

/// Two captured items hold the same content.
pub open spec fn same_item(a: CapturedItem, b: CapturedItem) -> bool {
    &&& a.ty == b.ty
    &&& a.text == b.text
    &&& a.html == b.html
    &&& match (a.rtf, b.rtf) {
        (Some(x), Some(y)) => x@ == y@,
        (None, None) => true,
        _ => false,
    }
    &&& a.url == b.url
    &&& a.color == b.color
    &&& match (a.image, b.image) {
        (Some(x), Some(y)) => x@ == y@,
        (None, None) => true,
        _ => false,
    }
    &&& a.file_path == b.file_path
}

fn clone_item(it: &CapturedItem) -> (r: CapturedItem)
    ensures
        same_item(r, *it),
{
    CapturedItem {
        ty: it.ty,
        text: clone_opt_string(&it.text),
        html: clone_opt_string(&it.html),
        rtf: clone_opt_bytes(&it.rtf),
        url: clone_opt_string(&it.url),
        color: clone_opt_string(&it.color),
        image: clone_opt_bytes(&it.image),
        file_path: clone_opt_string(&it.file_path),
    }
}

impl CapturedPasteboard {
    /// The kinds of the items, in order.
    pub fn types(&self) -> (r: Vec<PasteType>)
        ensures
            r@ == self.items@.map_values(|i: CapturedItem| i.ty),
    {
        let mut r: Vec<PasteType> = Vec::new();
        let mut k: usize = 0;
        while k < self.items.len()
            invariant
                k <= self.items@.len(),
                r@ == self.items@.subrange(0, k as int).map_values(|i: CapturedItem| i.ty),
            decreases self.items@.len() - k,
        {
            r.push(self.items[k].ty);
            k = k + 1;
            assert(r@ =~= self.items@.subrange(0, k as int).map_values(|i: CapturedItem| i.ty));
        }
        assert(self.items@.subrange(0, k as int) =~= self.items@);
        r
    }
}

/// Whether any item is a file.
pub fn pasteboard_has_file(items: &[CapturedItem]) -> (r: bool)
    ensures
        r == exists|k: int| 0 <= k < items@.len() && items@[k].ty == PasteType::File,
{
    let mut k: usize = 0;
    while k < items.len()
        invariant
            k <= items@.len(),
            forall|j: int| 0 <= j < k ==> items@[j].ty != PasteType::File,
        decreases items@.len() - k,
    {
        if items[k].ty == PasteType::File {
            return true;
        }
        k = k + 1;
    }
    false
}

/// A whole-string colour: `#rgb` or `#rrggbb` (hex digits, any case),
/// ignoring surrounding whitespace, lower-cased.
pub open spec fn color_of(s: Seq<char>) -> Option<Seq<char>> {
    let t = trim_seq(s);
    if (t.len() == 4 || t.len() == 7) && t[0] == '#' && forall|k: int| 1 <= k < t.len() ==> is_hex(
        #[trigger] t[k],
    ) {
        Some(lower_seq(t))
    } else {
        None
    }
}

/// Detect `#rgb` / `#rrggbb` from a whole-string copy.
pub fn parse_color(s: &str) -> (r: Option<String>)
    ensures
        match r {
            Some(c) => color_of(s@) == Some(c@),
            None => color_of(s@) is None,
        },
{
    let v = str_chars(s);
    let t = trim_range(&v, 0, v.len());
    assert(v@.subrange(0, v@.len() as int) =~= v@);
    if (t.len() == 4 || t.len() == 7) && t[0] == '#' {
        let mut k: usize = 1;
        while k < t.len()
            invariant
                1 <= k <= t@.len(),
                t@ == trim_seq(s@),
                t@.len() == 4 || t@.len() == 7,
                t@[0] == '#',
                forall|j: int| 1 <= j < k ==> is_hex(#[trigger] t@[j]),
            decreases t@.len() - k,
        {
            if !is_ascii_hexdigit(t[k]) {
                assert(!is_hex(t@[k as int]));
                assert(color_of(s@) is None);
                return None;
            }
            k = k + 1;
        }
        let l = lower_chars(&t);
        Some(string_from_chars(&l))
    } else {
        None
    }
}

/// The first line of `s` once trimmed, cut to `max` characters with an
/// ellipsis when longer.
pub open spec fn title_of(s: Seq<char>, max: int) -> Seq<char> {
    let t = trim_seq(s);
    let first = match find_char(t, '\n', 0) {
        Some(k) => if k > 0 && t[k - 1] == '\r' {
            t.subrange(0, k - 1)
        } else {
            t.subrange(0, k)
        },
        None => t,
    };
    if first.len() <= max {
        first
    } else {
        first.subrange(0, max).push('\u{2026}')
    }
}

pub fn truncate_title_chars(s: &[char], max: usize) -> (r: Vec<char>)
    ensures
        r@ == title_of(s@, max as int),
{
    let t = trim_range(s, 0, s.len());
    assert(s@.subrange(0, s@.len() as int) =~= s@);
    proof {
        lemma_find_char(t@, '\n', 0);
    }
    let first = match find_char_from(&t, '\n', 0) {
        Some(k) => if k > 0 && t[k - 1] == '\r' {
            sub_chars(&t, 0, k - 1)
        } else {
            sub_chars(&t, 0, k)
        },
        None => sub_chars(&t, 0, t.len()),
    };
    assert(t@.subrange(0, t@.len() as int) =~= t@);
    if first.len() <= max {
        first
    } else {
        let mut c = sub_chars(&first, 0, max);
        c.push('\u{2026}');
        c
    }
}

/// A one-line title: the first line, at most `max` characters.
pub fn truncate_title(s: &str, max: usize) -> (r: String)
    ensures
        r@ == title_of(s@, max as int),
{
    let v = str_chars(s);
    let t = truncate_title_chars(&v, max);
    string_from_chars(&t)
}

/// Whether `s` has something besides whitespace.
pub open spec fn has_content(s: Seq<char>) -> bool {
    trim_seq(s).len() != 0
}

fn has_content_exec(v: &[char]) -> (r: bool)
    ensures
        r == has_content(v@),
{
    let t = trim_range(v, 0, v.len());
    assert(v@.subrange(0, v@.len() as int) =~= v@);
    t.len() != 0
}

/// The title of an HTML copy: the text copied beside it, else its visible
/// text, else the markup itself.
pub open spec fn html_title_of(html: Seq<char>, sidecar: Option<Seq<char>>) -> Seq<char> {
    if sidecar is Some && has_content(sidecar->0) {
        title_of(trim_seq(sidecar->0), 80)
    } else if has_content(html_text(html, 0)) {
        title_of(html_text(html, 0), 80)
    } else {
        title_of(html, 80)
    }
}

pub fn html_title(html: &str, sidecar_text: Option<&str>) -> (r: String)
    ensures
        r@ == html_title_of(
            html@,
            match sidecar_text {
                Some(t) => Some(t@),
                None => None,
            },
        ),
{
    if let Some(t) = sidecar_text {
        let v = str_chars(t);
        let tr = trim_range(&v, 0, v.len());
        assert(v@.subrange(0, v@.len() as int) =~= v@);
        if tr.len() != 0 {
            let r = truncate_title_chars(&tr, 80);
            return string_from_chars(&r);
        }
    }
    let visible = html_visible_text(html);
    let vis = str_chars(visible.as_str());
    if has_content_exec(&vis) {
        let r = truncate_title_chars(&vis, 80);
        string_from_chars(&r)
    } else {
        truncate_title(html, 80)
    }
}

/// The first text item with something besides whitespace, trimmed.
pub open spec fn first_plain(items: Seq<CapturedItem>, i: int) -> Option<Seq<char>>
    decreases items.len() - i,
{
    if i < 0 || i >= items.len() {
        None
    } else if items[i].ty == PasteType::Text && items[i].text is Some && has_content(
        items[i].text->0@,
    ) {
        Some(trim_seq(items[i].text->0@))
    } else {
        first_plain(items, i + 1)
    }
}

/// Taking up the visible text of a dropped wrapper: it becomes the plain
/// text, and the text to add, when there was no plain text yet.
pub open spec fn remember(plain: Option<Seq<char>>, conv: Option<Seq<char>>, vis: Seq<char>) -> (
    Option<Seq<char>>,
    Option<Seq<char>>,
) {
    if plain is None && has_content(vis) {
        (
            Some(trim_seq(vis)),
            if conv is None {
                Some(vis)
            } else {
                conv
            },
        )
    } else {
        (plain, conv)
    }
}

/// The items kept from index `i` on, and the text to add in the end, when
/// styled wrappers are dropped: an HTML item without structure that only
/// wraps the plain text (or has visible text where there is no plain text),
/// and an RTF item without structure beside plain text (or, without plain
/// text, with visible text). Structured HTML and RTF always stay.
pub open spec fn normalize_from(
    items: Seq<CapturedItem>,
    i: int,
    plain: Option<Seq<char>>,
    conv: Option<Seq<char>>,
) -> (Seq<CapturedItem>, Option<Seq<char>>)
    decreases items.len() - i,
{
    if i < 0 || i >= items.len() {
        (seq![], conv)
    } else {
        let it = items[i];
        let kept = normalize_from(items, i + 1, plain, conv);
        if it.ty == PasteType::Html && it.html is Some && html_rich_scan(it.html->0@) != Some(
            true,
        ) {
            let h = it.html->0@;
            let vis = html_text(h, 0);
            let dropped = match plain {
                Some(p) => plain_wrapper(h, p),
                None => has_content(vis),
            };
            if dropped {
                let (p2, c2) = remember(plain, conv, vis);
                normalize_from(items, i + 1, p2, c2)
            } else {
                (seq![it] + kept.0, kept.1)
            }
        } else if it.ty == PasteType::Rtf && it.rtf is Some && !rtf_rich(it.rtf->0@) {
            if plain is Some {
                normalize_from(items, i + 1, plain, conv)
            } else {
                let vis = rtf_visible(it.rtf->0@);
                if has_content(vis) {
                    let (p2, c2) = remember(plain, conv, vis);
                    normalize_from(items, i + 1, p2, c2)
                } else {
                    (seq![it] + kept.0, kept.1)
                }
            }
        } else {
            (seq![it] + kept.0, kept.1)
        }
    }
}

/// What `normalize_captured` can read: HTML whose markup scan stays in
/// bounds, and RTF shorter than 2 GiB.
pub open spec fn normalizable(items: Seq<CapturedItem>) -> bool {
    forall|k: int|
        0 <= k < items.len() ==> {
            &&& (#[trigger] items[k]).ty == PasteType::Html && items[k].html is Some
                ==> html_rich_scan(items[k].html->0@) is Some
            &&& items[k].ty == PasteType::Rtf && items[k].rtf is Some ==> items[k].rtf->0@.len()
                < 0x7fff_ffff
        }
}

pub open spec fn has_text_item(items: Seq<CapturedItem>) -> bool {
    exists|k: int| 0 <= k < items.len() && items[k].ty == PasteType::Text
}

/// The result of normalising: the kept items, then the visible text of the
/// first dropped wrapper as a text item when no text item is left.
pub open spec fn normalized_ok(items: Seq<CapturedItem>, r: Seq<CapturedItem>) -> bool {
    let (kept, conv) = normalize_from(items, 0, first_plain(items, 0), None);
    let add = conv is Some && !has_text_item(kept);
    &&& r.len() == kept.len() + if add {
        1int
    } else {
        0int
    }
    &&& forall|k: int| 0 <= k < kept.len() ==> same_item(#[trigger] r[k], kept[k])
    &&& add ==> {
        let last = r[r.len() - 1];
        &&& last.ty == PasteType::Text
        &&& last.text matches Some(t) && t@ == conv->0
        &&& last.html is None && last.rtf is None && last.url is None && last.color is None
        &&& last.image is None && last.file_path is None
    }
}

/// An item normalising never drops: anything but HTML or RTF, HTML with no
/// markup or with structure, RTF with no data or with structure.
pub open spec fn always_kept(it: CapturedItem) -> bool {
    &&& !(it.ty == PasteType::Html && it.html is Some && html_rich_scan(it.html->0@) != Some(true))
    &&& !(it.ty == PasteType::Rtf && it.rtf is Some && !rtf_rich(it.rtf->0@))
}

/// The items of `items` whose place in `m` is set, in order.
pub open spec fn select(items: Seq<CapturedItem>, m: Seq<bool>) -> Seq<CapturedItem>
    decreases items.len(),
{
    if items.len() == 0 || m.len() == 0 {
        seq![]
    } else if m[0] {
        seq![items[0]] + select(items.drop_first(), m.drop_first())
    } else {
        select(items.drop_first(), m.drop_first())
    }
}

/// Which of the items from index `i` on normalising keeps.
pub open spec fn keep_mask(
    items: Seq<CapturedItem>,
    i: int,
    plain: Option<Seq<char>>,
    conv: Option<Seq<char>>,
) -> Seq<bool>
    decreases items.len() - i,
{
    if i < 0 || i >= items.len() {
        seq![]
    } else {
        let it = items[i];
        if it.ty == PasteType::Html && it.html is Some && html_rich_scan(it.html->0@) != Some(
            true,
        ) {
            let h = it.html->0@;
            let vis = html_text(h, 0);
            let dropped = match plain {
                Some(p) => plain_wrapper(h, p),
                None => has_content(vis),
            };
            if dropped {
                let (p2, c2) = remember(plain, conv, vis);
                seq![false] + keep_mask(items, i + 1, p2, c2)
            } else {
                seq![true] + keep_mask(items, i + 1, plain, conv)
            }
        } else if it.ty == PasteType::Rtf && it.rtf is Some && !rtf_rich(it.rtf->0@) {
            if plain is Some {
                seq![false] + keep_mask(items, i + 1, plain, conv)
            } else {
                let vis = rtf_visible(it.rtf->0@);
                if has_content(vis) {
                    let (p2, c2) = remember(plain, conv, vis);
                    seq![false] + keep_mask(items, i + 1, p2, c2)
                } else {
                    seq![true] + keep_mask(items, i + 1, plain, conv)
                }
            }
        } else {
            seq![true] + keep_mask(items, i + 1, plain, conv)
        }
    }
}

proof fn lemma_keep_mask(
    items: Seq<CapturedItem>,
    i: int,
    plain: Option<Seq<char>>,
    conv: Option<Seq<char>>,
)
    requires
        0 <= i <= items.len(),
    ensures
        keep_mask(items, i, plain, conv).len() == items.len() - i,
        normalize_from(items, i, plain, conv).0 == select(
            items.subrange(i, items.len() as int),
            keep_mask(items, i, plain, conv),
        ),
        forall|k: int|
            0 <= k < items.len() - i && always_kept(#[trigger] items[i + k]) ==> keep_mask(
                items,
                i,
                plain,
                conv,
            )[k],
        (forall|k: int| i <= k < items.len() ==> always_kept(#[trigger] items[k])) ==> normalize_from(
            items,
            i,
            plain,
            conv,
        ).1 == conv,
    decreases items.len() - i,
{
    if i < items.len() {
        let it = items[i];
        let rest = items.subrange(i, items.len() as int);
        assert(rest.drop_first() =~= items.subrange(i + 1, items.len() as int));
        assert(rest[0] == it);
        let m = keep_mask(items, i, plain, conv);
        if it.ty == PasteType::Html && it.html is Some && html_rich_scan(it.html->0@) != Some(
            true,
        ) {
            let h = it.html->0@;
            let vis = html_text(h, 0);
            let dropped = match plain {
                Some(p) => plain_wrapper(h, p),
                None => has_content(vis),
            };
            if dropped {
                let (p2, c2) = remember(plain, conv, vis);
                lemma_keep_mask(items, i + 1, p2, c2);
                assert(m.drop_first() =~= keep_mask(items, i + 1, p2, c2));
            } else {
                lemma_keep_mask(items, i + 1, plain, conv);
                assert(m.drop_first() =~= keep_mask(items, i + 1, plain, conv));
            }
        } else if it.ty == PasteType::Rtf && it.rtf is Some && !rtf_rich(it.rtf->0@) {
            if plain is Some {
                lemma_keep_mask(items, i + 1, plain, conv);
                assert(m.drop_first() =~= keep_mask(items, i + 1, plain, conv));
            } else {
                let vis = rtf_visible(it.rtf->0@);
                if has_content(vis) {
                    let (p2, c2) = remember(plain, conv, vis);
                    lemma_keep_mask(items, i + 1, p2, c2);
                    assert(m.drop_first() =~= keep_mask(items, i + 1, p2, c2));
                } else {
                    lemma_keep_mask(items, i + 1, plain, conv);
                    assert(m.drop_first() =~= keep_mask(items, i + 1, plain, conv));
                }
            }
        } else {
            lemma_keep_mask(items, i + 1, plain, conv);
            assert(m.drop_first() =~= keep_mask(items, i + 1, plain, conv));
        }
        assert forall|k: int|
            0 <= k < items.len() - i && always_kept(#[trigger] items[i + k]) implies m[k] by {
            if k > 0 {
                assert(items[i + k] == items[(i + 1) + (k - 1)]);
                assert(m[k] == m.drop_first()[k - 1]);
            }
        }
    } else {
        assert(items.subrange(i, items.len() as int).len() == 0);
    }
}

proof fn lemma_select_all(items: Seq<CapturedItem>, m: Seq<bool>)
    requires
        m.len() == items.len(),
        forall|k: int| 0 <= k < m.len() ==> m[k],
    ensures
        select(items, m) == items,
    decreases items.len(),
{
    if items.len() > 0 {
        lemma_select_all(items.drop_first(), m.drop_first());
        assert(seq![items[0]] + items.drop_first() =~= items);
    }
}

/// Normalising keeps the items it does not drop unchanged and in order:
/// every item that is not an unstructured HTML or RTF wrapper stays, and
/// the only item it may add is one text item, last, when no text item is
/// left. Without such wrappers the items come back as they were.
pub proof fn lemma_normalize_structure(items: Seq<CapturedItem>, r: Seq<CapturedItem>)
    requires
        normalized_ok(items, r),
    ensures
        exists|m: Seq<bool>|
            {
                &&& m.len() == items.len()
                &&& forall|i: int| 0 <= i < items.len() && always_kept(#[trigger] items[i]) ==> m[i]
                &&& ({
                    let kept = #[trigger] select(items, m);
                    &&& kept.len() <= r.len() <= kept.len() + 1
                    &&& forall|j: int| 0 <= j < kept.len() ==> same_item(#[trigger] r[j], kept[j])
                    &&& r.len() == kept.len() + 1 ==> {
                        &&& !has_text_item(kept)
                        &&& r[r.len() - 1].ty == PasteType::Text
                    }
                })
            },
        (forall|i: int| 0 <= i < items.len() ==> always_kept(#[trigger] items[i])) ==> {
            &&& r.len() == items.len()
            &&& forall|j: int| 0 <= j < items.len() ==> same_item(#[trigger] r[j], items[j])
        },
{
    let plain = first_plain(items, 0);
    let m = keep_mask(items, 0, plain, None);
    lemma_keep_mask(items, 0, plain, None);
    assert(items.subrange(0, items.len() as int) =~= items);
    assert forall|i: int| 0 <= i < items.len() && always_kept(#[trigger] items[i]) implies m[i] by {
        assert(items[0 + i] == items[i]);
    }
    let kept = select(items, m);
    if forall|i: int| 0 <= i < items.len() ==> always_kept(#[trigger] items[i]) {
        assert forall|k: int| 0 <= k < m.len() implies m[k] by {
            assert(always_kept(items[k]));
        }
        lemma_select_all(items, m);
    }
}

fn first_plain_exec(items: &[CapturedItem]) -> (r: Option<Vec<char>>)
    ensures
        match r {
            Some(p) => first_plain(items@, 0) == Some(p@),
            None => first_plain(items@, 0) is None,
        },
{
    let mut k: usize = 0;
    while k < items.len()
        invariant
            k <= items@.len(),
            first_plain(items@, 0) == first_plain(items@, k as int),
        decreases items@.len() - k,
    {
        if items[k].ty == PasteType::Text {
            if let Some(t) = &items[k].text {
                let v = str_chars(t.as_str());
                let tr = trim_range(&v, 0, v.len());
                assert(v@.subrange(0, v@.len() as int) =~= v@);
                if tr.len() != 0 {
                    return Some(tr);
                }
            }
        }
        k = k + 1;
    }
    None
}

/// The characters of an optional buffer.
pub open spec fn opt_chars(o: Option<Vec<char>>) -> Option<Seq<char>> {
    match o {
        Some(v) => Some(v@),
        None => None,
    }
}

/// Chromium / Electron / Word put styled HTML and RTF beside the same unicode
/// text. Keep structurally rich formats; drop font/colour wrappers so history
/// is text.
pub fn normalize_captured(captured: &CapturedPasteboard) -> (r: CapturedPasteboard)
    requires
        normalizable(captured.items@),
    ensures
        normalized_ok(captured.items@, r.items@),
{
    let items = &captured.items;
    let ghost all = items@;
    let mut plain = first_plain_exec(items);
    let ghost plain0 = opt_chars(plain);
    let mut converted: Option<Vec<char>> = None;
    let mut out: Vec<CapturedItem> = Vec::new();
    let ghost mut kept: Seq<CapturedItem> = seq![];
    let ghost goal = normalize_from(all, 0, plain0, None);
    let mut k: usize = 0;
    while k < items.len()
        invariant
            all == items@,
            normalizable(all),
            k <= all.len(),
            goal == normalize_from(all, 0, plain0, None),
            goal.0 == kept + normalize_from(all, k as int, opt_chars(plain), opt_chars(converted)).0,
            goal.1 == normalize_from(all, k as int, opt_chars(plain), opt_chars(converted)).1,
            out@.len() == kept.len(),
            forall|j: int| 0 <= j < kept.len() ==> same_item(#[trigger] out@[j], kept[j]),
        decreases all.len() - k,
    {
        let ghost pv = opt_chars(plain);
        let ghost cv = opt_chars(converted);
        let ghost whole = normalize_from(all, k as int, pv, cv);
        let ghost next = normalize_from(all, k + 1, pv, cv);
        let item = &items[k];
        assert(all[k as int] == *item);
        let mut keep = true;
        if item.ty == PasteType::Html {
            if let Some(h) = &item.html {
                if !html_has_rich_markup(h.as_str()) {
                    let visible = html_visible_text(h.as_str());
                    let vis = str_chars(visible.as_str());
                    let dropped = match &plain {
                        Some(p) => {
                            let ps = string_from_chars(p);
                            html_is_plain_wrapper(h.as_str(), ps.as_str())
                        },
                        None => has_content_exec(&vis),
                    };
                    if dropped {
                        keep = false;
                        if plain.is_none() && has_content_exec(&vis) {
                            let tv = trim_range(&vis, 0, vis.len());
                            assert(vis@.subrange(0, vis@.len() as int) =~= vis@);
                            plain = Some(tv);
                            if converted.is_none() {
                                converted = Some(vis);
                            }
                        }
                    }
                }
            }
        } else if item.ty == PasteType::Rtf {
            if let Some(rb) = &item.rtf {
                if !rtf_has_rich_markup(rb.as_slice()) {
                    if plain.is_some() {
                        keep = false;
                    } else {
                        let visible = rtf_visible_text(rb.as_slice());
                        let vis = str_chars(visible.as_str());
                        if has_content_exec(&vis) {
                            keep = false;
                            let tv = trim_range(&vis, 0, vis.len());
                            assert(vis@.subrange(0, vis@.len() as int) =~= vis@);
                            plain = Some(tv);
                            if converted.is_none() {
                                converted = Some(vis);
                            }
                        }
                    }
                }
            }
        }
        if keep {
            assert(whole.0 =~= seq![*item] + next.0);
            assert(whole.1 == next.1);
            let c = clone_item(item);
            out.push(c);
            proof {
                assert(kept + whole.0 =~= kept.push(*item) + next.0);
                kept = kept.push(*item);
            }
        } else {
            assert(whole == normalize_from(all, k + 1, opt_chars(plain), opt_chars(converted)));
        }
        k = k + 1;
    }
    assert(kept + seq![] =~= kept);
    let mut res = out;
    if let Some(text) = converted {
        let mut has_text = false;
        let mut j: usize = 0;
        while j < res.len()
            invariant
                j <= res@.len(),
                res@.len() == kept.len(),
                forall|t: int| 0 <= t < kept.len() ==> same_item(#[trigger] res@[t], kept[t]),
                has_text == exists|t: int| 0 <= t < j && kept[t].ty == PasteType::Text,
            decreases res@.len() - j,
        {
            assert(same_item(res@[j as int], kept[j as int]));
            if res[j].ty == PasteType::Text {
                has_text = true;
            }
            j = j + 1;
        }
        if !has_text {
            res.push(
                CapturedItem {
                    ty: PasteType::Text,
                    text: Some(string_from_chars(&text)),
                    html: None,
                    rtf: None,
                    url: None,
                    color: None,
                    image: None,
                    file_path: None,
                },
            );
            assert forall|t: int| 0 <= t < kept.len() implies same_item(#[trigger] res@[t], kept[t]) by {
                assert(res@[t] == out@[t]);
            }
        }
    }
    CapturedPasteboard { items: res }
}


/// The bytes an item is hashed over for duplicate detection: a file's
/// contents digest (its path when the file cannot be read), an image's
/// digest, the RTF document, or the item's first text representation.
pub open spec fn part_bytes(it: CapturedItem, file: Option<Seq<u8>>) -> Seq<u8> {
    if it.file_path is Some {
        match file {
            Some(b) => spec_sha256(b),
            None => encode_utf8(it.file_path->0@),
        }
    } else if it.image is Some {
        spec_sha256(it.image->0@)
    } else if it.rtf is Some {
        it.rtf->0@
    } else if it.html is Some {
        encode_utf8(it.html->0@)
    } else if it.url is Some {
        encode_utf8(it.url->0@)
    } else if it.color is Some {
        encode_utf8(it.color->0@)
    } else if it.text is Some {
        encode_utf8(it.text->0@)
    } else {
        seq![]
    }
}

/// The contents read for item `k`'s file, if any.
pub open spec fn file_at(files: Seq<Option<Vec<u8>>>, k: int) -> Option<Seq<u8>> {
    if 0 <= k < files.len() {
        match files[k] {
            Some(b) => Some(b@),
            None => None,
        }
    } else {
        None
    }
}

/// The `(kind, bytes)` parts of a captured pasteboard.
pub open spec fn captured_parts(items: Seq<CapturedItem>, files: Seq<Option<Vec<u8>>>) -> Seq<
    (Seq<char>, Seq<u8>),
> {
    Seq::new(items.len(), |k: int| (items[k].ty.name(), part_bytes(items[k], file_at(files, k))))
}

fn part_bytes_exec(it: &CapturedItem, file: &Option<Vec<u8>>) -> (r: Vec<u8>)
    ensures
        r@ == part_bytes(
            *it,
            match *file {
                Some(b) => Some(b@),
                None => None,
            },
        ),
{
    if let Some(p) = &it.file_path {
        match file {
            Some(b) => sha256(b.as_slice()),
            None => copy_bytes(p.as_str().as_bytes()),
        }
    } else if let Some(img) = &it.image {
        sha256(img.as_slice())
    } else if let Some(rtf) = &it.rtf {
        copy_bytes(rtf.as_slice())
    } else if let Some(h) = &it.html {
        copy_bytes(h.as_str().as_bytes())
    } else if let Some(u) = &it.url {
        copy_bytes(u.as_str().as_bytes())
    } else if let Some(c) = &it.color {
        copy_bytes(c.as_str().as_bytes())
    } else if let Some(t) = &it.text {
        copy_bytes(t.as_str().as_bytes())
    } else {
        Vec::new()
    }
}

impl CapturedPasteboard {
    /// The `(kind, bytes)` parts the content hash covers, one per item, in
    /// order. `files[k]` holds the contents of item `k`'s file when it could
    /// be read.
    pub fn hash_parts(&self, files: &[Option<Vec<u8>>]) -> (r: Vec<(String, Vec<u8>)>)
        ensures
            parts_view(r@) == captured_parts(self.items@, files@),
    {
        let n = self.items.len();
        let mut parts: Vec<(String, Vec<u8>)> = Vec::new();
        let mut k: usize = 0;
        while k < n
            invariant
                n == self.items@.len(),
                k <= n,
                parts@.len() == k,
                forall|j: int|
                    0 <= j < k ==> (#[trigger] parts_view(parts@)[j]) == captured_parts(
                        self.items@,
                        files@,
                    )[j],
            decreases n - k,
        {
            let it = &self.items[k];
            let none: Option<Vec<u8>> = None;
            let file = if k < files.len() {
                &files[k]
            } else {
                &none
            };
            let b = part_bytes_exec(it, file);
            assert(match *file {
                Some(x) => Some(x@),
                None => None,
            } == file_at(files@, k as int));
            assert(b@ == part_bytes(self.items@[k as int], file_at(files@, k as int)));
            let key = String::from_str(it.ty.as_str());
            assert(key@ == self.items@[k as int].ty.name());
            let ghost before = parts@;
            let part = (key, b);
            parts.push(part);
            proof {
                assert(parts@ == before.push(part));
                assert forall|j: int| 0 <= j < k + 1 implies (#[trigger] parts_view(parts@)[j])
                    == captured_parts(self.items@, files@)[j] by {
                    if j < k {
                        assert(parts@[j] == before[j]);
                        assert(parts_view(parts@)[j] == parts_view(before)[j]);
                    } else {
                        assert(parts@[j] == part);
                    }
                }
            }
            k = k + 1;
        }
        assert(parts_view(parts@) =~= captured_parts(self.items@, files@));
        parts
    }

    /// The content hash consecutive duplicates are recognised by.
    pub fn content_hash(&self, files: &[Option<Vec<u8>>]) -> (r: String)
        ensures
            r@ == content_hash_of(captured_parts(self.items@, files@)),
            r@.len() == 64,
            crate::codec::is_lower_hex_text(r@),
    {
        let parts = self.hash_parts(files);
        content_hash_for(parts.as_slice())
    }
}

/// Copying the same content twice gives the same content hash, so the second
/// copy is recognised as a duplicate.
pub proof fn lemma_content_hash_stable(
    a: Seq<CapturedItem>,
    b: Seq<CapturedItem>,
    files: Seq<Option<Vec<u8>>>,
)
    requires
        a.len() == b.len(),
        forall|k: int| 0 <= k < a.len() ==> same_item(#[trigger] a[k], b[k]),
    ensures
        content_hash_of(captured_parts(a, files)) == content_hash_of(captured_parts(b, files)),
{
    assert(captured_parts(a, files) =~= captured_parts(b, files));
}

/// What is written to the system clipboard for a history entry.
#[derive(Clone, Debug)]
pub struct WritePayload {
    pub text: Option<String>,
    pub html: Option<String>,
    pub rtf: Option<Vec<u8>>,
    pub url: Option<String>,
    pub image_png: Option<Vec<u8>>,
    pub file_paths: Vec<String>,
}

/// A payload as plain values.
#[verifier::ext_equal]
pub struct PayloadModel {
    pub text: Option<Seq<char>>,
    pub html: Option<Seq<char>>,
    pub rtf: Option<Seq<u8>>,
    pub url: Option<Seq<char>>,
    pub image_png: Option<Seq<u8>>,
    pub file_paths: Seq<Seq<char>>,
}

pub open spec fn opt_chars_of(o: Option<String>) -> Option<Seq<char>> {
    match o {
        Some(s) => Some(s@),
        None => None,
    }
}

pub open spec fn opt_bytes_of(o: Option<Vec<u8>>) -> Option<Seq<u8>> {
    match o {
        Some(b) => Some(b@),
        None => None,
    }
}

impl WritePayload {
    pub open spec fn model(self) -> PayloadModel {
        PayloadModel {
            text: opt_chars_of(self.text),
            html: opt_chars_of(self.html),
            rtf: opt_bytes_of(self.rtf),
            url: opt_chars_of(self.url),
            image_png: opt_bytes_of(self.image_png),
            file_paths: self.file_paths@.map_values(|p: String| p@),
        }
    }

    /// Whether there is nothing to write.
    pub fn is_empty(&self) -> (r: bool)
        ensures
            r == (self.text is None && self.html is None && self.rtf is None && self.url is None
                && self.image_png is None && self.file_paths@.len() == 0),
    {
        self.text.is_none() && self.html.is_none() && self.rtf.is_none() && self.url.is_none()
            && self.image_png.is_none() && self.file_paths.len() == 0
    }
}

/// What the store holds for one item besides its row: an image's bytes, or
/// the path a file's blob is exposed under.
pub struct ItemBlob {
    pub image: Option<Vec<u8>>,
    pub file_path: Option<String>,
}

pub open spec fn empty_payload() -> PayloadModel {
    PayloadModel {
        text: None,
        html: None,
        rtf: None,
        url: None,
        image_png: None,
        file_paths: seq![],
    }
}

/// One stored item's contribution to the payload: the first text (or
/// colour) is kept; HTML, URL and a decodable RTF replace earlier ones; an
/// image with a blob gives its bytes; a file with a blob adds its path.
pub open spec fn payload_step(p: PayloadModel, it: StoredItem, blob: ItemBlob) -> PayloadModel {
    let ty = it.item_type@;
    if ty == "text"@ || ty == "color"@ {
        if p.text is None {
            PayloadModel {
                text: match it.text_content {
                    Some(t) => Some(t@),
                    None => opt_chars_of(it.color),
                },
                ..p
            }
        } else {
            p
        }
    } else if ty == "html"@ {
        PayloadModel { html: opt_chars_of(it.html_content), ..p }
    } else if ty == "rtf"@ {
        match it.rtf_b64 {
            Some(b) => match spec_b64_decode(b@) {
                Some(raw) => PayloadModel { rtf: Some(raw), ..p },
                None => p,
            },
            None => p,
        }
    } else if ty == "url"@ {
        PayloadModel { url: opt_chars_of(it.url), ..p }
    } else if ty == "image"@ {
        if it.blob_hash is Some && blob.image is Some {
            PayloadModel { image_png: Some(blob.image->0@), ..p }
        } else {
            p
        }
    } else if ty == "file"@ {
        if it.blob_hash is Some && blob.file_path is Some {
            PayloadModel { file_paths: p.file_paths.push(blob.file_path->0@), ..p }
        } else {
            p
        }
    } else {
        p
    }
}

pub open spec fn payload_fold(items: Seq<StoredItem>, blobs: Seq<ItemBlob>, n: int) -> PayloadModel
    decreases n,
{
    if n <= 0 {
        empty_payload()
    } else {
        let b = if n - 1 < blobs.len() {
            blobs[n - 1]
        } else {
            ItemBlob { image: None, file_path: None }
        };
        payload_step(payload_fold(items, blobs, n - 1), items[n - 1], b)
    }
}

/// The payload of an entry's items: a file entry is written as its files
/// alone.
pub open spec fn payload_of(items: Seq<StoredItem>, blobs: Seq<ItemBlob>) -> PayloadModel {
    let p = payload_fold(items, blobs, items.len() as int);
    if p.file_paths.len() > 0 {
        PayloadModel { file_paths: p.file_paths, ..empty_payload() }
    } else {
        p
    }
}

/// The payload that writes an entry back to the clipboard, from its stored
/// items in order and, per item, the image bytes or file path its blob
/// gives.
pub fn payload_from_items(items: &[StoredItem], blobs: &[ItemBlob]) -> (r: WritePayload)
    ensures
        r.model() == payload_of(items@, blobs@),
{
    let mut p = WritePayload {
        text: None,
        html: None,
        rtf: None,
        url: None,
        image_png: None,
        file_paths: Vec::new(),
    };
    let n = items.len();
    let mut k: usize = 0;
    proof {
        reveal_strlit("text");
        reveal_strlit("color");
        reveal_strlit("html");
        reveal_strlit("rtf");
        reveal_strlit("url");
        reveal_strlit("image");
        reveal_strlit("file");
    }
    assert(p.model() =~= empty_payload());
    while k < n
        invariant
            n == items@.len(),
            k <= n,
            p.model() == payload_fold(items@, blobs@, k as int),
        decreases n - k,
    {
        let it = &items[k];
        let ty = it.item_type.as_str();
        let ghost before = p.model();
        let ghost blob = if k < blobs@.len() {
            blobs@[k as int]
        } else {
            ItemBlob { image: None, file_path: None }
        };
        if crate::text::str_eq(ty, "text") || crate::text::str_eq(ty, "color") {
            if p.text.is_none() {
                p.text = match &it.text_content {
                    Some(t) => Some(t.clone()),
                    None => crate::text::clone_opt(&it.color),
                };
            }
        } else if crate::text::str_eq(ty, "html") {
            p.html = crate::text::clone_opt(&it.html_content);
        } else if crate::text::str_eq(ty, "rtf") {
            if let Some(b) = &it.rtf_b64 {
                if let Ok(raw) = b64_decode(b.as_str()) {
                    p.rtf = Some(raw);
                }
            }
        } else if crate::text::str_eq(ty, "url") {
            p.url = crate::text::clone_opt(&it.url);
        } else if crate::text::str_eq(ty, "image") {
            if it.blob_hash.is_some() && k < blobs.len() {
                if let Some(img) = &blobs[k].image {
                    p.image_png = Some(copy_bytes(img.as_slice()));
                }
            }
        } else if crate::text::str_eq(ty, "file") {
            if it.blob_hash.is_some() && k < blobs.len() {
                if let Some(path) = &blobs[k].file_path {
                    let ghost fp = p.file_paths@;
                    p.file_paths.push(path.clone());
                    assert(p.file_paths@.map_values(|q: String| q@) =~= fp.map_values(
                        |q: String| q@,
                    ).push(path@));
                }
            }
        }
        assert(p.model() =~= payload_step(before, items@[k as int], blob));
        k = k + 1;
    }
    if p.file_paths.len() > 0 {
        let r = WritePayload {
            text: None,
            html: None,
            rtf: None,
            url: None,
            image_png: None,
            file_paths: p.file_paths,
        };
        assert(r.model() =~= payload_of(items@, blobs@));
        r
    } else {
        assert(p.model().file_paths.len() == 0);
        p
    }
}

/// A file entry is written back as files only: whenever the entry's payload
/// holds a file, it holds nothing else.
pub proof fn lemma_file_payload_is_files_only(items: Seq<StoredItem>, blobs: Seq<ItemBlob>)
    ensures
        payload_of(items, blobs).file_paths.len() > 0 ==> {
            let p = payload_of(items, blobs);
            &&& p.text is None
            &&& p.html is None
            &&& p.rtf is None
            &&& p.url is None
            &&& p.image_png is None
        },
{
}

/// A text or colour item that has a text or a colour: the items the written
/// text comes from.
pub open spec fn is_text_kind(it: StoredItem) -> bool {
    (it.item_type@ == "text"@ || it.item_type@ == "color"@) && item_text(it) is Some
}

/// The text a text or colour item gives: its text, else its colour.
pub open spec fn item_text(it: StoredItem) -> Option<Seq<char>> {
    match it.text_content {
        Some(t) => Some(t@),
        None => opt_chars_of(it.color),
    }
}

/// The blob of the item at `k`, or none when there is no such blob.
pub open spec fn blob_at(blobs: Seq<ItemBlob>, k: int) -> ItemBlob {
    if 0 <= k < blobs.len() {
        blobs[k]
    } else {
        ItemBlob { image: None, file_path: None }
    }
}

/// The paths of the file items among the first `n` that have a blob, in
/// order.
pub open spec fn file_paths_upto(items: Seq<StoredItem>, blobs: Seq<ItemBlob>, n: int) -> Seq<
    Seq<char>,
>
    decreases n,
{
    if n <= 0 {
        seq![]
    } else {
        let it = items[n - 1];
        let b = blob_at(blobs, n - 1);
        let prev = file_paths_upto(items, blobs, n - 1);
        if it.item_type@ == "file"@ && it.blob_hash is Some && b.file_path is Some {
            prev.push(b.file_path->0@)
        } else {
            prev
        }
    }
}

proof fn lemma_kind_names_differ()
    ensures
        "text"@ != "color"@,
        "text"@ != "html"@,
        "text"@ != "rtf"@,
        "text"@ != "url"@,
        "text"@ != "image"@,
        "text"@ != "file"@,
        "color"@ != "html"@,
        "color"@ != "rtf"@,
        "color"@ != "url"@,
        "color"@ != "image"@,
        "color"@ != "file"@,
        "html"@ != "rtf"@,
        "html"@ != "url"@,
        "html"@ != "image"@,
        "html"@ != "file"@,
        "rtf"@ != "url"@,
        "rtf"@ != "image"@,
        "rtf"@ != "file"@,
        "url"@ != "image"@,
        "url"@ != "file"@,
        "image"@ != "file"@,
{
    reveal_strlit("text");
    reveal_strlit("color");
    reveal_strlit("html");
    reveal_strlit("rtf");
    reveal_strlit("url");
    reveal_strlit("image");
    reveal_strlit("file");
    assert("text"@[0] == 't');
    assert("color"@[0] == 'c');
    assert("html"@[0] == 'h');
    assert("rtf"@[0] == 'r');
    assert("url"@[0] == 'u');
    assert("image"@[0] == 'i');
    assert("file"@[0] == 'f');
}

proof fn lemma_payload_fold_files(items: Seq<StoredItem>, blobs: Seq<ItemBlob>, n: int)
    requires
        0 <= n <= items.len(),
    ensures
        payload_fold(items, blobs, n).file_paths == file_paths_upto(items, blobs, n),
    decreases n,
{
    if n > 0 {
        lemma_kind_names_differ();
        lemma_payload_fold_files(items, blobs, n - 1);
    }
}

proof fn lemma_payload_fold_text(items: Seq<StoredItem>, blobs: Seq<ItemBlob>, n: int)
    requires
        0 <= n <= items.len(),
    ensures
        (forall|k: int| 0 <= k < n ==> !is_text_kind(#[trigger] items[k])) ==> payload_fold(
            items,
            blobs,
            n,
        ).text is None,
        forall|k: int|
            0 <= k < n && is_text_kind(#[trigger] items[k]) && (forall|j: int|
                0 <= j < k ==> !is_text_kind(#[trigger] items[j])) ==> payload_fold(
                items,
                blobs,
                n,
            ).text == item_text(items[k]),
    decreases n,
{
    if n > 0 {
        lemma_kind_names_differ();
        lemma_payload_fold_text(items, blobs, n - 1);
        let cur = payload_fold(items, blobs, n);
        assert forall|k: int|
            0 <= k < n && is_text_kind(#[trigger] items[k]) && (forall|j: int|
                0 <= j < k ==> !is_text_kind(#[trigger] items[j])) implies cur.text == item_text(
            items[k],
        ) by {
            if k == n - 1 {
                assert forall|j: int| 0 <= j < n - 1 implies !is_text_kind(#[trigger] items[j]) by {}
            }
        }
    }
}

proof fn lemma_payload_fold_html(items: Seq<StoredItem>, blobs: Seq<ItemBlob>, n: int)
    requires
        0 <= n <= items.len(),
    ensures
        (forall|k: int| 0 <= k < n ==> (#[trigger] items[k]).item_type@ != "html"@) ==> payload_fold(
            items,
            blobs,
            n,
        ).html is None,
        forall|k: int|
            0 <= k < n && (#[trigger] items[k]).item_type@ == "html"@ && (forall|j: int|
                k < j < n ==> (#[trigger] items[j]).item_type@ != "html"@) ==> payload_fold(
                items,
                blobs,
                n,
            ).html == opt_chars_of(items[k].html_content),
    decreases n,
{
    if n > 0 {
        lemma_kind_names_differ();
        lemma_payload_fold_html(items, blobs, n - 1);
        let cur = payload_fold(items, blobs, n);
        assert forall|k: int|
            0 <= k < n && (#[trigger] items[k]).item_type@ == "html"@ && (forall|j: int|
                k < j < n ==> (#[trigger] items[j]).item_type@ != "html"@) implies cur.html
            == opt_chars_of(items[k].html_content) by {
            if k < n - 1 {
                assert(items[n - 1].item_type@ != "html"@);
            }
        }
    }
}

proof fn lemma_payload_fold_url(items: Seq<StoredItem>, blobs: Seq<ItemBlob>, n: int)
    requires
        0 <= n <= items.len(),
    ensures
        (forall|k: int| 0 <= k < n ==> (#[trigger] items[k]).item_type@ != "url"@) ==> payload_fold(
            items,
            blobs,
            n,
        ).url is None,
        forall|k: int|
            0 <= k < n && (#[trigger] items[k]).item_type@ == "url"@ && (forall|j: int|
                k < j < n ==> (#[trigger] items[j]).item_type@ != "url"@) ==> payload_fold(
                items,
                blobs,
                n,
            ).url == opt_chars_of(items[k].url),
    decreases n,
{
    if n > 0 {
        lemma_kind_names_differ();
        lemma_payload_fold_url(items, blobs, n - 1);
        let cur = payload_fold(items, blobs, n);
        assert forall|k: int|
            0 <= k < n && (#[trigger] items[k]).item_type@ == "url"@ && (forall|j: int|
                k < j < n ==> (#[trigger] items[j]).item_type@ != "url"@) implies cur.url
            == opt_chars_of(items[k].url) by {
            if k < n - 1 {
                assert(items[n - 1].item_type@ != "url"@);
            }
        }
    }
}

/// What an entry writes back: the paths of its file items that have a
/// blob, in order; when there is one, nothing else. Otherwise the text of
/// the first text or colour item that has one, the HTML of the last HTML item and the
/// URL of the last URL item, each none when there is no such item; and an
/// entry without items writes nothing.
pub proof fn lemma_payload_structure(items: Seq<StoredItem>, blobs: Seq<ItemBlob>)
    ensures
        payload_of(items, blobs).file_paths == file_paths_upto(items, blobs, items.len() as int),
        file_paths_upto(items, blobs, items.len() as int).len() == 0 ==> {
            let p = payload_of(items, blobs);
            &&& (forall|k: int| 0 <= k < items.len() ==> !is_text_kind(#[trigger] items[k]))
                ==> p.text is None
            &&& forall|k: int|
                0 <= k < items.len() && is_text_kind(#[trigger] items[k]) && (forall|j: int|
                    0 <= j < k ==> !is_text_kind(#[trigger] items[j])) ==> p.text == item_text(
                    items[k],
                )
            &&& (forall|k: int| 0 <= k < items.len() ==> (#[trigger] items[k]).item_type@ != "html"@)
                ==> p.html is None
            &&& forall|k: int|
                0 <= k < items.len() && (#[trigger] items[k]).item_type@ == "html"@ && (forall|
                    j: int,
                | k < j < items.len() ==> (#[trigger] items[j]).item_type@ != "html"@) ==> p.html
                    == opt_chars_of(items[k].html_content)
            &&& (forall|k: int| 0 <= k < items.len() ==> (#[trigger] items[k]).item_type@ != "url"@)
                ==> p.url is None
            &&& forall|k: int|
                0 <= k < items.len() && (#[trigger] items[k]).item_type@ == "url"@ && (forall|
                    j: int,
                | k < j < items.len() ==> (#[trigger] items[j]).item_type@ != "url"@) ==> p.url
                    == opt_chars_of(items[k].url)
        },
        items.len() == 0 ==> payload_of(items, blobs) == empty_payload(),
{
    let n = items.len() as int;
    lemma_payload_fold_files(items, blobs, n);
    lemma_payload_fold_text(items, blobs, n);
    lemma_payload_fold_html(items, blobs, n);
    lemma_payload_fold_url(items, blobs, n);
}

/// Whether a byte is an ASCII hex digit.
pub open spec fn hex_byte(b: u8) -> bool {
    (0x30 <= b <= 0x39) || (0x41 <= b <= 0x46) || (0x61 <= b <= 0x66)
}

/// The value of an ASCII hex digit byte.
pub open spec fn hex_byte_val(b: u8) -> int {
    if b <= 0x39 {
        b - 0x30
    } else if b <= 0x46 {
        b - 0x41 + 10
    } else {
        b - 0x61 + 10
    }
}

/// Bytes with every `%` followed by two hex digits replaced by the byte
/// they spell; any other byte, a lone `%` included, stays.
pub open spec fn pct_decoded(b: Seq<u8>) -> Seq<u8>
    decreases b.len(),
{
    if b.len() == 0 {
        seq![]
    } else if b[0] == 0x25 && b.len() >= 3 && hex_byte(b[1]) && hex_byte(b[2]) {
        seq![(hex_byte_val(b[1]) * 16 + hex_byte_val(b[2])) as u8] + pct_decoded(
            b.subrange(3, b.len() as int),
        )
    } else {
        seq![b[0]] + pct_decoded(b.subrange(1, b.len() as int))
    }
}

/// `percent_encoding::percent_decode_str(s).decode_utf8()`: the
/// percent-decoded bytes of `s` as text, when they are valid UTF-8.
#[verifier::external_body]
fn percent_decode_utf8(s: &str) -> (r: Option<String>)
    ensures
        r is Some <==> valid_utf8(pct_decoded(encode_utf8(s@))),
        r matches Some(t) ==> t@ == decode_utf8(pct_decoded(encode_utf8(s@))),
{
    percent_encoding::percent_decode_str(s).decode_utf8().ok().map(|c| c.into_owned())
}

/// What a copied text names as a file.
pub enum FileTarget {
    /// A `file://` URL: the decoded path, or nothing when it does not decode
    /// to UTF-8.
    Url(Option<String>),
    /// Any other text: a path to look for on disk, trimmed.
    Plain(String),
}

/// The part of a trimmed `file://` URL that holds the path: after the
/// scheme and an optional `localhost`.
pub open spec fn file_url_rest(t: Seq<char>) -> Seq<char> {
    let rest = t.subrange(7, t.len() as int);
    if crate::text::matches_at(rest, 0, "localhost"@) {
        rest.subrange(9, rest.len() as int)
    } else {
        rest
    }
}

/// Read a copied text as a file reference: a `file://` URL (with or without
/// `localhost`) is percent-decoded; other text is a candidate path.
pub fn file_url_target(s: &str) -> (r: FileTarget)
    ensures
        ({
            let t = trim_seq(s@);
            if crate::text::matches_at(t, 0, "file://"@) {
                let b = pct_decoded(encode_utf8(file_url_rest(t)));
                r matches FileTarget::Url(o) && (o is Some <==> valid_utf8(b)) && (o matches Some(
                    p,
                ) ==> p@ == decode_utf8(b))
            } else {
                r matches FileTarget::Plain(p) && p@ == t
            }
        }),
{
    let v = str_chars(s);
    let t = trim_range(&v, 0, v.len());
    assert(v@.subrange(0, v@.len() as int) =~= v@);
    let scheme = str_chars("file://");
    proof {
        reveal_strlit("file://");
        reveal_strlit("localhost");
    }
    if crate::text::matches_at_exec(&t, 0, &scheme) {
        let rest = sub_chars(&t, 7, t.len());
        let host = str_chars("localhost");
        let path = if crate::text::matches_at_exec(&rest, 0, &host) {
            sub_chars(&rest, 9, rest.len())
        } else {
            rest
        };
        let p = string_from_chars(&path);
        assert(p@ == file_url_rest(t@));
        FileTarget::Url(percent_decode_utf8(p.as_str()))
    } else {
        FileTarget::Plain(string_from_chars(&t))
    }
}

} // verus!
