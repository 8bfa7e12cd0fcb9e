//! Reading clipboard RTF: its source text, its visible text, and whether it
//! carries structure (pictures, tables, links, objects) beyond styling.

use vstd::prelude::*;
use vstd::utf8::{decode_utf8, valid_utf8};
use crate::text::{
    chars_eq_str, digit_of, digits_value, digits_value_upto, find_seq, find_seq_from, is_alpha,
    is_ascii_alphabetic, is_ascii_digit, is_ascii_hexdigit, is_digit, is_hex, is_scalar_value,
    lower_chars, lower_seq, char_from_u32, to_digit,
};

verus! {

/// `String::from_utf8`: the text that `bytes` encode, if they are valid UTF-8.
#[verifier::external_body]
pub(crate) fn string_from_utf8(bytes: Vec<u8>) -> (r: Option<String>)
    ensures
        r is Some <==> valid_utf8(bytes@),
        r matches Some(s) ==> s@ == decode_utf8(bytes@),
{
    String::from_utf8(bytes).ok()
}

/// Length of `b[..e]` once trailing NUL bytes are dropped.
pub open spec fn without_trailing_nuls(b: Seq<u8>, e: int) -> int
    decreases e,
{
    if e > 0 && e <= b.len() && b[e - 1] == 0 {
        without_trailing_nuls(b, e - 1)
    } else {
        e
    }
}

/// Each byte read as the Latin-1 character of the same number.
pub open spec fn latin1(b: Seq<u8>) -> Seq<char> {
    b.map_values(|x: u8| x as char)
}

/// The RTF source: the bytes without trailing NULs, as UTF-8 where they are
/// valid UTF-8, else byte by byte as Latin-1.
pub open spec fn rtf_chars(b: Seq<u8>) -> Seq<char> {
    let t = b.subrange(0, without_trailing_nuls(b, b.len() as int));
    if valid_utf8(t) {
        decode_utf8(t)
    } else {
        latin1(t)
    }
}

proof fn lemma_without_nuls(b: Seq<u8>, e: int)
    requires
        0 <= e <= b.len(),
    ensures
        0 <= without_trailing_nuls(b, e) <= e,
    decreases e,
{
    if e > 0 && b[e - 1] == 0 {
        lemma_without_nuls(b, e - 1);
    }
}

proof fn lemma_decode_len(b: Seq<u8>)
    requires
        valid_utf8(b),
    ensures
        decode_utf8(b).len() <= b.len(),
    decreases b.len(),
{
    if b.len() != 0 {
        let l = vstd::utf8::length_of_first_scalar(b);
        assert(1 <= l <= b.len());
        lemma_decode_len(vstd::utf8::pop_first_scalar(b));
    }
}

/// The source of an RTF document (see `rtf_chars`).
pub fn rtf_source(rtf: &[u8]) -> (r: String)
    ensures
        r@ == rtf_chars(rtf@),
        r@.len() <= rtf@.len(),
{
    let mut end: usize = rtf.len();
    while end > 0 && rtf[end - 1] == 0
        invariant
            end <= rtf@.len(),
            without_trailing_nuls(rtf@, rtf@.len() as int) == without_trailing_nuls(
                rtf@,
                end as int,
            ),
        decreases end,
    {
        end = end - 1;
    }
    let mut bytes: Vec<u8> = Vec::new();
    let mut k: usize = 0;
    while k < end
        invariant
            end <= rtf@.len(),
            k <= end,
            bytes@ == rtf@.subrange(0, k as int),
        decreases end - k,
    {
        bytes.push(rtf[k]);
        k = k + 1;
    }
    let ghost t = bytes@;
    let mut chars: Vec<char> = Vec::new();
    let mut j: usize = 0;
    while j < bytes.len()
        invariant
            j <= bytes@.len(),
            chars@ == latin1(bytes@.subrange(0, j as int)),
        decreases bytes@.len() - j,
    {
        chars.push(bytes[j] as char);
        j = j + 1;
        assert(chars@ =~= latin1(bytes@.subrange(0, j as int)));
    }
    assert(bytes@.subrange(0, bytes@.len() as int) =~= bytes@);
    match string_from_utf8(bytes) {
        Some(s) => {
            proof {
                lemma_decode_len(t);
            }
            s
        },
        None => crate::text::string_from_chars(&chars),
    }
}

/// Whether lower-cased `l` contains `p`.
pub open spec fn contains(l: Seq<char>, p: Seq<char>) -> bool {
    find_seq(l, p, 0) is Some
}

/// Whether an RTF document carries pictures, tables, links, objects or
/// shapes rather than only fonts and colours.
pub open spec fn rtf_rich(b: Seq<u8>) -> bool {
    let l = lower_seq(rtf_chars(b));
    ||| contains(l, "\\pict"@)
    ||| contains(l, "\\trowd"@)
    ||| contains(l, "\\cell"@)
    ||| contains(l, "hyperlink"@)
    ||| contains(l, "\\object"@)
    ||| contains(l, "\\shp"@)
}

fn contains_exec(l: &[char], p: &str) -> (r: bool)
    ensures
        r == contains(l@, p@),
{
    let pv = crate::text::str_chars(p);
    find_seq_from(l, &pv, 0).is_some()
}

/// Images, tables, links, embedded objects: not a font/colour wrapper.
pub fn rtf_has_rich_markup(rtf: &[u8]) -> (r: bool)
    ensures
        r == rtf_rich(rtf@),
{
    let src = rtf_source(rtf);
    let chars = crate::text::str_chars(src.as_str());
    let l = lower_chars(&chars);
    contains_exec(&l, "\\pict") || contains_exec(&l, "\\trowd") || contains_exec(&l, "\\cell")
        || contains_exec(&l, "hyperlink") || contains_exec(&l, "\\object") || contains_exec(
        &l,
        "\\shp",
    )
}

/// Destinations whose content is never shown.
pub open spec fn is_skipped_destination(w: Seq<char>) -> bool {
    ||| w == "fonttbl"@
    ||| w == "colortbl"@
    ||| w == "stylesheet"@
    ||| w == "info"@
    ||| w == "pict"@
    ||| w == "object"@
    ||| w == "header"@
    ||| w == "footer"@
    ||| w == "headerf"@
    ||| w == "footerf"@
    ||| w == "footnote"@
    ||| w == "annotation"@
    ||| w == "fldinst"@
    ||| w == "datafield"@
    ||| w == "generator"@
    ||| w == "listtable"@
    ||| w == "listoverridetable"@
    ||| w == "rsidtbl"@
    ||| w == "themedata"@
    ||| w == "colorschememapping"@
    ||| w == "latentstyles"@
    ||| w == "xmlnstbl"@
    ||| w == "filetbl"@
    ||| w == "mmath"@
    ||| w == "shpinst"@
    ||| w == "blipuid"@
    ||| w == "xe"@
    ||| w == "tc"@
}

pub fn rtf_dest_skip(w: &[char]) -> (r: bool)
    ensures
        r == is_skipped_destination(w@),
{
    chars_eq_str(w, "fonttbl") || chars_eq_str(w, "colortbl") || chars_eq_str(w, "stylesheet")
        || chars_eq_str(w, "info") || chars_eq_str(w, "pict") || chars_eq_str(w, "object")
        || chars_eq_str(w, "header") || chars_eq_str(w, "footer") || chars_eq_str(w, "headerf")
        || chars_eq_str(w, "footerf") || chars_eq_str(w, "footnote") || chars_eq_str(
        w,
        "annotation",
    ) || chars_eq_str(w, "fldinst") || chars_eq_str(w, "datafield") || chars_eq_str(
        w,
        "generator",
    ) || chars_eq_str(w, "listtable") || chars_eq_str(w, "listoverridetable") || chars_eq_str(
        w,
        "rsidtbl",
    ) || chars_eq_str(w, "themedata") || chars_eq_str(w, "colorschememapping") || chars_eq_str(
        w,
        "latentstyles",
    ) || chars_eq_str(w, "xmlnstbl") || chars_eq_str(w, "filetbl") || chars_eq_str(w, "mmath")
        || chars_eq_str(w, "shpinst") || chars_eq_str(w, "blipuid") || chars_eq_str(w, "xe")
        || chars_eq_str(w, "tc")
}

/// First index at or after `i` that is not an ASCII letter.
pub open spec fn alpha_end(s: Seq<char>, i: int) -> int
    decreases s.len() - i,
{
    if 0 <= i < s.len() && is_alpha(s[i]) {
        alpha_end(s, i + 1)
    } else {
        i
    }
}

/// First index at or after `i` that is not an ASCII digit.
pub open spec fn digit_end(s: Seq<char>, i: int) -> int
    decreases s.len() - i,
{
    if 0 <= i < s.len() && is_digit(s[i]) {
        digit_end(s, i + 1)
    } else {
        i
    }
}

pub proof fn lemma_alpha_end(s: Seq<char>, i: int)
    requires
        0 <= i <= s.len(),
    ensures
        i <= alpha_end(s, i) <= s.len(),
    decreases s.len() - i,
{
    if i < s.len() && is_alpha(s[i]) {
        lemma_alpha_end(s, i + 1);
    }
}

pub proof fn lemma_digit_end(s: Seq<char>, i: int)
    requires
        0 <= i <= s.len(),
    ensures
        i <= digit_end(s, i) <= s.len(),
        forall|k: int| i <= k < digit_end(s, i) ==> is_digit(s[k]),
    decreases s.len() - i,
{
    if i < s.len() && is_digit(s[i]) {
        lemma_digit_end(s, i + 1);
    }
}

/// Where the fallback text of a `\u` control word ends: `left` characters,
/// a `\'hh` escape counting as one.
pub open spec fn fallback_end(s: Seq<char>, p: int, left: int) -> int
    decreases s.len() - p,
{
    if left <= 0 || p < 0 || p >= s.len() {
        p
    } else if s[p] == '\\' && p + 1 < s.len() && s[p + 1] == '\'' {
        let q = p + 2;
        let h: int = if q < s.len() && is_hex(s[q]) {
            if q + 1 < s.len() && is_hex(s[q + 1]) {
                2
            } else {
                1
            }
        } else {
            0
        };
        fallback_end(s, q + h, left - 1)
    } else {
        fallback_end(s, p + 1, left - 1)
    }
}

pub proof fn lemma_fallback_end(s: Seq<char>, p: int, left: int)
    requires
        0 <= p <= s.len(),
    ensures
        p <= fallback_end(s, p, left) <= s.len(),
    decreases s.len() - p,
{
    if left <= 0 || p >= s.len() {
    } else if s[p] == '\\' && p + 1 < s.len() && s[p + 1] == '\'' {
        let q = p + 2;
        let h: int = if q < s.len() && is_hex(s[q]) {
            if q + 1 < s.len() && is_hex(s[q + 1]) {
                2
            } else {
                1
            }
        } else {
            0
        };
        lemma_fallback_end(s, q + h, left - 1);
    } else {
        lemma_fallback_end(s, p + 1, left - 1);
    }
}

pub open spec fn hex_val(c: char) -> int {
    match digit_of(c, 16) {
        Some(x) => x as int,
        None => 0,
    }
}

/// The character of a `\'hh` escape: the Latin-1 character of byte `hh`.
pub open spec fn hex_byte_char(a: char, b: char) -> char {
    ((hex_val(a) * 16 + hex_val(b)) as u8) as char
}

/// `c` unless the text is in a skipped destination.
pub open spec fn shown(skip: Option<int>, c: char) -> Seq<char> {
    if skip is None {
        seq![c]
    } else {
        seq![]
    }
}

/// The character of a `\uN` control word (negative `N` counts from 65536).
pub open spec fn unicode_char(num: Option<int>) -> Seq<char> {
    match num {
        Some(x) => {
            let cp = if x < 0 {
                x + 65536
            } else {
                x
            };
            if 0 <= cp <= u32::MAX && is_scalar_value(cp as u32) {
                seq![cp as char]
            } else {
                seq![]
            }
        },
        None => seq![],
    }
}

pub open spec fn is_line_word(w: Seq<char>) -> bool {
    w == "par"@ || w == "line"@ || w == "row"@ || w == "page"@
}

/// The numeric parameter of a control word: its digits, negated after `-`,
/// where they fit in an `i32`.
pub open spec fn word_param(d: Seq<char>, neg: bool) -> Option<int> {
    if d.len() == 0 || digits_value(d, 10) > i32::MAX {
        None
    } else if neg {
        Some(-digits_value(d, 10))
    } else {
        Some(digits_value(d, 10))
    }
}

/// The visible text of RTF from index `i` on, in a group nesting `depth`
/// deep, inside a skipped destination that opened at depth `skip` (if any),
/// with `uc` fallback characters after each `\u`.
pub open spec fn rtf_text(s: Seq<char>, i: int, depth: int, skip: Option<int>, uc: int) -> Seq<
    char,
>
    decreases s.len() - i,
{
    if i < 0 || i >= s.len() {
        seq![]
    } else {
        let c = s[i];
        if c == '{' {
            rtf_text(s, i + 1, depth + 1, skip, uc)
        } else if c == '}' {
            rtf_text(
                s,
                i + 1,
                if depth - 1 > 0 {
                    depth - 1
                } else {
                    0
                },
                if skip == Some(depth) {
                    None
                } else {
                    skip
                },
                uc,
            )
        } else if c == '\\' {
            if i + 1 >= s.len() {
                seq![]
            } else {
                let n = s[i + 1];
                if n == '\\' || n == '{' || n == '}' {
                    shown(skip, n) + rtf_text(s, i + 2, depth, skip, uc)
                } else if n == '\'' {
                    if i + 4 <= s.len() && is_hex(s[i + 2]) && is_hex(s[i + 3]) {
                        shown(skip, hex_byte_char(s[i + 2], s[i + 3])) + rtf_text(
                            s,
                            i + 4,
                            depth,
                            skip,
                            uc,
                        )
                    } else {
                        rtf_text(s, i + 2, depth, skip, uc)
                    }
                } else if n == '*' {
                    rtf_text(
                        s,
                        i + 2,
                        depth,
                        Some(
                            if depth > 1 {
                                depth
                            } else {
                                1
                            },
                        ),
                        uc,
                    )
                } else if n == '~' {
                    shown(skip, '\u{a0}') + rtf_text(s, i + 2, depth, skip, uc)
                } else if n == '_' {
                    shown(skip, '-') + rtf_text(s, i + 2, depth, skip, uc)
                } else if !is_alpha(n) {
                    rtf_text(s, i + 2, depth, skip, uc)
                } else {
                    proof {
                        lemma_alpha_end(s, i + 1);
                    }
                    let we = alpha_end(s, i + 1);
                    let word = s.subrange(i + 1, we);
                    let neg = we < s.len() && s[we] == '-';
                    let ds = if neg {
                        we + 1
                    } else {
                        we
                    };
                    proof {
                        lemma_digit_end(s, ds);
                    }
                    let de = digit_end(s, ds);
                    let num = word_param(s.subrange(ds, de), neg);
                    let next = if de < s.len() && s[de] == ' ' {
                        de + 1
                    } else {
                        de
                    };
                    let skip2 = if is_skipped_destination(word) {
                        Some(
                            if depth > 1 {
                                depth
                            } else {
                                1
                            },
                        )
                    } else {
                        skip
                    };
                    proof {
                        lemma_fallback_end(s, next, uc);
                    }
                    if skip2 is Some {
                        rtf_text(s, next, depth, skip2, uc)
                    } else if is_line_word(word) {
                        seq!['\n'] + rtf_text(s, next, depth, skip2, uc)
                    } else if word == "tab"@ {
                        seq!['\t'] + rtf_text(s, next, depth, skip2, uc)
                    } else if word == "emdash"@ {
                        seq!['\u{2014}'] + rtf_text(s, next, depth, skip2, uc)
                    } else if word == "endash"@ {
                        seq!['\u{2013}'] + rtf_text(s, next, depth, skip2, uc)
                    } else if word == "lquote"@ || word == "rquote"@ {
                        seq!['\''] + rtf_text(s, next, depth, skip2, uc)
                    } else if word == "ldblquote"@ || word == "rdblquote"@ {
                        seq!['"'] + rtf_text(s, next, depth, skip2, uc)
                    } else if word == "bullet"@ {
                        seq!['\u{2022}'] + rtf_text(s, next, depth, skip2, uc)
                    } else if word == "uc"@ {
                        rtf_text(
                            s,
                            next,
                            depth,
                            skip2,
                            match num {
                                Some(x) => if x > 0 {
                                    x
                                } else {
                                    0
                                },
                                None => uc,
                            },
                        )
                    } else if word == "u"@ {
                        unicode_char(num) + rtf_text(
                            s,
                            fallback_end(s, next, uc),
                            depth,
                            skip2,
                            uc,
                        )
                    } else {
                        rtf_text(s, next, depth, skip2, uc)
                    }
                }
            }
        } else if c == '\n' || c == '\r' {
            rtf_text(s, i + 1, depth, skip, uc)
        } else {
            shown(skip, c) + rtf_text(s, i + 1, depth, skip, uc)
        }
    }
}

/// The visible text of an RTF document.
pub open spec fn rtf_visible(b: Seq<u8>) -> Seq<char> {
    rtf_text(rtf_chars(b), 0, 0, None, 1)
}

pub open spec fn skip_view(s: Option<i32>) -> Option<int> {
    match s {
        Some(d) => Some(d as int),
        None => None,
    }
}

/// What a control word that starts at `j` (the letter after the backslash)
/// is made of: end of its letters, start and end of its digits, its
/// parameter, and where the text after it starts.
fn control_word(s: &[char], j: usize) -> (r: (usize, usize, usize, Option<i32>, usize))
    requires
        j < s@.len(),
    ensures
        r.0 as int == alpha_end(s@, j as int),
        r.1 as int == if r.0 < s@.len() && s@[r.0 as int] == '-' {
            r.0 + 1
        } else {
            r.0 as int
        },
        r.2 as int == digit_end(s@, r.1 as int),
        match r.3 {
            Some(x) => word_param(
                s@.subrange(r.1 as int, r.2 as int),
                r.0 < s@.len() && s@[r.0 as int] == '-',
            ) == Some(x as int),
            None => word_param(
                s@.subrange(r.1 as int, r.2 as int),
                r.0 < s@.len() && s@[r.0 as int] == '-',
            ) is None,
        },
        r.4 as int == if r.2 < s@.len() && s@[r.2 as int] == ' ' {
            r.2 + 1
        } else {
            r.2 as int
        },
        j <= r.0 <= r.1 <= r.2 <= r.4 <= s@.len(),
{
    let n = s.len();
    let mut we: usize = j;
    while we < n && is_ascii_alphabetic(s[we])
        invariant
            n == s@.len(),
            j <= we <= n,
            alpha_end(s@, j as int) == alpha_end(s@, we as int),
        decreases n - we,
    {
        we = we + 1;
    }
    let neg = we < n && s[we] == '-';
    let ds: usize = if neg {
        we + 1
    } else {
        we
    };
    let mut de: usize = ds;
    while de < n && is_ascii_digit(s[de])
        invariant
            n == s@.len(),
            ds <= de <= n,
            digit_end(s@, ds as int) == digit_end(s@, de as int),
        decreases n - de,
    {
        de = de + 1;
    }
    let num: Option<i32> = if de > ds {
        match digits_value_upto(s, ds, de, 10, 0x7fff_ffffu32) {
            Some(x) => if neg {
                Some(-(x as i32))
            } else {
                Some(x as i32)
            },
            None => {
                proof {
                    lemma_digit_end(s@, ds as int);
                    let d = s@.subrange(ds as int, de as int);
                    assert forall|k: int| 0 <= k < d.len() implies (#[trigger] digit_of(
                        d[k],
                        10,
                    )) is Some by {
                        assert(is_digit(s@[ds + k]));
                    }
                }
                None
            },
        }
    } else {
        None
    };
    let next: usize = if de < n && s[de] == ' ' {
        de + 1
    } else {
        de
    };
    (we, ds, de, num, next)
}

/// Where the fallback text of a `\u` ends (see `fallback_end`).
fn skip_fallback(s: &[char], p: usize, uc: usize) -> (r: usize)
    requires
        p <= s@.len(),
    ensures
        r as int == fallback_end(s@, p as int, uc as int),
        p <= r <= s@.len(),
{
    let n = s.len();
    let mut i: usize = p;
    let mut left: usize = uc;
    while left > 0 && i < n
        invariant
            n == s@.len(),
            p <= i <= n,
            fallback_end(s@, p as int, uc as int) == fallback_end(s@, i as int, left as int),
        decreases n - i,
    {
        if s[i] == '\\' && i + 1 < n && s[i + 1] == '\'' {
            i = i + 2;
            if i < n && is_ascii_hexdigit(s[i]) {
                if i + 1 < n && is_ascii_hexdigit(s[i + 1]) {
                    i = i + 2;
                } else {
                    i = i + 1;
                }
            }
        } else {
            i = i + 1;
        }
        left = left - 1;
    }
    i
}

/// Visible text of an RTF document: group structure followed, skipped
/// destinations and control words dropped, escapes and the character
/// control words (`\par`, `\tab`, `\uN`, ...) turned into characters.
pub fn rtf_visible_text(rtf: &[u8]) -> (r: String)
    requires
        rtf@.len() < 0x7fff_ffff,
    ensures
        r@ == rtf_visible(rtf@),
{
    let src = rtf_source(rtf);
    let s = crate::text::str_chars(src.as_str());
    let n = s.len();
    let mut out: Vec<char> = Vec::new();
    let mut i: usize = 0;
    let mut depth: i32 = 0;
    let mut skip: Option<i32> = None;
    let mut uc: usize = 1;
    while i < n
        invariant
            n == s@.len(),
            s@ == rtf_chars(rtf@),
            n < 0x7fff_ffff,
            i <= n,
            0 <= depth <= i,
            out@ + rtf_text(s@, i as int, depth as int, skip_view(skip), uc as int)
                == rtf_text(s@, 0, 0, None, 1),
        decreases n - i,
    {
        let ghost before = out@;
        let ghost (i0, d0, k0, u0) = (i as int, depth as int, skip_view(skip), uc as int);
        let c = s[i];
        if c == '{' {
            depth = depth + 1;
            i = i + 1;
        } else if c == '}' {
            if skip == Some(depth) {
                skip = None;
            }
            depth = if depth - 1 > 0 {
                depth - 1
            } else {
                0
            };
            i = i + 1;
        } else if c == '\\' {
            if i + 1 >= n {
                i = n;
                assert(out@ + rtf_text(s@, i as int, depth as int, skip_view(skip), uc as int)
                    =~= before + rtf_text(s@, i0, d0, k0, u0));
            } else {
                let m = s[i + 1];
                if m == '\\' || m == '{' || m == '}' {
                    if skip.is_none() {
                        out.push(m);
                    }
                    i = i + 2;
                    assert(out@ + rtf_text(s@, i as int, depth as int, skip_view(skip), uc as int)
                        =~= before + (shown(k0, m) + rtf_text(s@, i as int, d0, k0, u0)));
                } else if m == '\'' {
                    if i + 4 <= n && is_ascii_hexdigit(s[i + 2]) && is_ascii_hexdigit(s[i + 3]) {
                        if skip.is_none() {
                            let hi = to_digit(s[i + 2], 16);
                            let lo = to_digit(s[i + 3], 16);
                            match (hi, lo) {
                                (Some(h), Some(l)) => {
                                    let b: u8 = (h * 16 + l) as u8;
                                    out.push(b as char);
                                },
                                _ => {},
                            }
                        }
                        i = i + 4;
                        assert(out@ + rtf_text(
                            s@,
                            i as int,
                            depth as int,
                            skip_view(skip),
                            uc as int,
                        ) =~= before + (shown(k0, hex_byte_char(s@[i0 + 2], s@[i0 + 3]))
                            + rtf_text(s@, i as int, d0, k0, u0)));
                    } else {
                        i = i + 2;
                    }
                } else if m == '*' {
                    skip = Some(
                        if depth > 1 {
                            depth
                        } else {
                            1
                        },
                    );
                    i = i + 2;
                } else if m == '~' {
                    if skip.is_none() {
                        out.push('\u{a0}');
                    }
                    i = i + 2;
                    assert(out@ + rtf_text(s@, i as int, depth as int, skip_view(skip), uc as int)
                        =~= before + (shown(k0, '\u{a0}') + rtf_text(s@, i as int, d0, k0, u0)));
                } else if m == '_' {
                    if skip.is_none() {
                        out.push('-');
                    }
                    i = i + 2;
                    assert(out@ + rtf_text(s@, i as int, depth as int, skip_view(skip), uc as int)
                        =~= before + (shown(k0, '-') + rtf_text(s@, i as int, d0, k0, u0)));
                } else if !is_ascii_alphabetic(m) {
                    i = i + 2;
                } else {
                    let (we, ds, de, num, next) = control_word(&s, i + 1);
                    let word = crate::text::sub_chars(&s, i + 1, we);
                    if rtf_dest_skip(&word) {
                        skip = Some(
                            if depth > 1 {
                                depth
                            } else {
                                1
                            },
                        );
                    }
                    let ghost num_v: Option<int> = match num {
                        Some(x) => Some(x as int),
                        None => None,
                    };
                    if skip.is_some() {
                        i = next;
                    } else if chars_eq_str(&word, "par") || chars_eq_str(&word, "line")
                        || chars_eq_str(&word, "row") || chars_eq_str(&word, "page") {
                        out.push('\n');
                        i = next;
                        assert(out@ + rtf_text(s@, i as int, d0, k0, u0) =~= before + (seq!['\n']
                            + rtf_text(s@, i as int, d0, k0, u0)));
                    } else if chars_eq_str(&word, "tab") {
                        out.push('\t');
                        i = next;
                        assert(out@ + rtf_text(s@, i as int, d0, k0, u0) =~= before + (seq!['\t']
                            + rtf_text(s@, i as int, d0, k0, u0)));
                    } else if chars_eq_str(&word, "emdash") {
                        out.push('\u{2014}');
                        i = next;
                        assert(out@ + rtf_text(s@, i as int, d0, k0, u0) =~= before + (seq![
                            '\u{2014}',
                        ] + rtf_text(s@, i as int, d0, k0, u0)));
                    } else if chars_eq_str(&word, "endash") {
                        out.push('\u{2013}');
                        i = next;
                        assert(out@ + rtf_text(s@, i as int, d0, k0, u0) =~= before + (seq![
                            '\u{2013}',
                        ] + rtf_text(s@, i as int, d0, k0, u0)));
                    } else if chars_eq_str(&word, "lquote") || chars_eq_str(&word, "rquote") {
                        out.push('\'');
                        i = next;
                        assert(out@ + rtf_text(s@, i as int, d0, k0, u0) =~= before + (seq!['\'']
                            + rtf_text(s@, i as int, d0, k0, u0)));
                    } else if chars_eq_str(&word, "ldblquote") || chars_eq_str(&word, "rdblquote") {
                        out.push('"');
                        i = next;
                        assert(out@ + rtf_text(s@, i as int, d0, k0, u0) =~= before + (seq!['"']
                            + rtf_text(s@, i as int, d0, k0, u0)));
                    } else if chars_eq_str(&word, "bullet") {
                        out.push('\u{2022}');
                        i = next;
                        assert(out@ + rtf_text(s@, i as int, d0, k0, u0) =~= before + (seq![
                            '\u{2022}',
                        ] + rtf_text(s@, i as int, d0, k0, u0)));
                    } else if chars_eq_str(&word, "uc") {
                        if let Some(x) = num {
                            uc = if x > 0 {
                                x as usize
                            } else {
                                0
                            };
                        }
                        i = next;
                    } else if chars_eq_str(&word, "u") {
                        if let Some(x) = num {
                            if x >= 0 || x + 65536 >= 0 {
                                let cp: u32 = if x < 0 {
                                    (x + 65536) as u32
                                } else {
                                    x as u32
                                };
                                match char_from_u32(cp) {
                                    Some(ch) => {
                                        proof {
                                            vstd::utf8::char_u32_cast(ch, cp);
                                        }
                                        out.push(ch);
                                    },
                                    None => {},
                                }
                            }
                        }
                        assert(out@ =~= before + unicode_char(num_v));
                        i = skip_fallback(&s, next, uc);
                        assert(out@ + rtf_text(s@, i as int, d0, k0, u0) =~= before + (
                        unicode_char(num_v) + rtf_text(s@, i as int, d0, k0, u0)));
                    } else {
                        i = next;
                    }
                }
            }
        } else if c == '\n' || c == '\r' {
            i = i + 1;
        } else {
            if skip.is_none() {
                out.push(c);
            }
            i = i + 1;
            assert(out@ + rtf_text(s@, i as int, depth as int, skip_view(skip), uc as int)
                =~= before + (shown(k0, c) + rtf_text(s@, i as int, d0, k0, u0)));
        }
    }
    assert(out@ =~= out@ + rtf_text(s@, i as int, depth as int, skip_view(skip), uc as int));
    crate::text::string_from_chars(&out)
}

} // verus!
