//! The clipboard formats of the desktop platforms: UTF-16 text, the
//! `HTML Format` fragment envelope, the `CF_HDROP` file list, and how the
//! formats one copy offers become the captured items.

use vstd::prelude::*;
use vstd::utf8::{char_u32_cast, decode_utf8, encode_utf8, valid_utf8};
use crate::codec::{append_bytes, copy_bytes, decimal_padded, zero_padded};
use crate::rtf::string_from_utf8;
use crate::clipboard::{
    color_of, opt_bytes_of, opt_chars_of, parse_color, CapturedItem, CapturedPasteboard,
    PayloadModel, WritePayload,
};
use crate::types::PasteType;
use crate::text::{
    char_from_u32, find_seq, find_seq_from, has_sub, matches_at, str_chars, string_from_chars,
    sub_chars,
};

verus! {

/// The UTF-16 code units of one character: itself below U+10000, else a
/// high and a low surrogate.
pub open spec fn units_of(c: char) -> Seq<u16> {
    let n = c as u32;
    if n < 0x10000 {
        seq![n as u16]
    } else {
        seq![(0xD800 + (n - 0x10000) / 0x400) as u16, (0xDC00 + (n - 0x10000) % 0x400) as u16]
    }
}

/// `str::encode_utf16`: the UTF-16 code units of a text.
pub open spec fn utf16_of(s: Seq<char>) -> Seq<u16>
    decreases s.len(),
{
    if s.len() == 0 {
        seq![]
    } else {
        units_of(s[0]) + utf16_of(s.subrange(1, s.len() as int))
    }
}

/// Code units as little-endian bytes, two per unit.
pub open spec fn le_bytes(u: Seq<u16>) -> Seq<u8> {
    Seq::new(
        (2 * u.len()) as nat,
        |k: int|
            if k % 2 == 0 {
                (u[k / 2] % 256) as u8
            } else {
                (u[k / 2] / 256) as u8
            },
    )
}

/// Whether a code unit is a surrogate.
pub open spec fn is_surrogate(u: u16) -> bool {
    0xD800 <= u <= 0xDFFF
}

/// `String::from_utf16_lossy`: the text of UTF-16 code units, where each
/// high surrogate followed by a low one makes one character and any other
/// surrogate becomes U+FFFD.
pub open spec fn utf16_lossy(u: Seq<u16>) -> Seq<char>
    decreases u.len(),
{
    if u.len() == 0 {
        seq![]
    } else if !is_surrogate(u[0]) {
        seq![(u[0] as u32) as char] + utf16_lossy(u.subrange(1, u.len() as int))
    } else if u[0] <= 0xDBFF && u.len() >= 2 && 0xDC00 <= u[1] <= 0xDFFF {
        seq![(0x10000 + (u[0] - 0xD800) * 0x400 + (u[1] - 0xDC00)) as u32 as char] + utf16_lossy(
            u.subrange(2, u.len() as int),
        )
    } else {
        seq!['\u{FFFD}'] + utf16_lossy(u.subrange(1, u.len() as int))
    }
}

/// The little-endian code units of `b` from byte `i` on, up to the first
/// zero unit or the last whole pair.
pub open spec fn le_units(b: Seq<u8>, i: int) -> Seq<u16>
    decreases b.len() - i,
{
    if i < 0 || i + 1 >= b.len() {
        seq![]
    } else {
        let u = b[i] + b[i + 1] * 256;
        if u == 0 {
            seq![]
        } else {
            seq![u as u16] + le_units(b, i + 2)
        }
    }
}

proof fn lemma_utf16_push(s: Seq<char>, c: char)
    ensures
        utf16_of(s.push(c)) == utf16_of(s) + units_of(c),
    decreases s.len(),
{
    if s.len() == 0 {
        assert(s.push(c).subrange(1, 1) =~= Seq::<char>::empty());
        assert(utf16_of(s.push(c)) =~= units_of(c) + utf16_of(Seq::<char>::empty()));
    } else {
        let t = s.subrange(1, s.len() as int);
        lemma_utf16_push(t, c);
        assert(s.push(c).subrange(1, s.len() as int + 1) =~= t.push(c));
        assert(utf16_of(s.push(c)) =~= units_of(s[0]) + utf16_of(t.push(c)));
    }
}

/// The code units of one character, appended.
fn push_units(out: &mut Vec<u16>, c: char)
    ensures
        final(out)@ == old(out)@ + units_of(c),
{
    let n = c as u32;
    if n < 0x10000 {
        out.push(n as u16);
    } else {
        let m = n - 0x10000;
        out.push((0xD800 + m / 0x400) as u16);
        out.push((0xDC00 + m % 0x400) as u16);
    }
    assert(out@ =~= old(out)@ + units_of(c));
}

/// The UTF-16 code units of a text.
pub fn encode_utf16(s: &str) -> (r: Vec<u16>)
    ensures
        r@ == utf16_of(s@),
{
    let v = crate::text::str_chars(s);
    let mut out: Vec<u16> = Vec::new();
    let mut i: usize = 0;
    assert(v@.subrange(0, 0) =~= Seq::<char>::empty());
    while i < v.len()
        invariant
            i <= v@.len(),
            v@ == s@,
            out@ == utf16_of(v@.subrange(0, i as int)),
        decreases v@.len() - i,
    {
        proof {
            lemma_utf16_push(v@.subrange(0, i as int), v@[i as int]);
            assert(v@.subrange(0, i as int).push(v@[i as int]) =~= v@.subrange(0, i as int + 1));
        }
        push_units(&mut out, v[i]);
        i = i + 1;
    }
    assert(v@.subrange(0, v@.len() as int) =~= v@);
    out
}

/// Code units as little-endian bytes.
pub fn units_le_bytes(u: &[u16]) -> (r: Vec<u8>)
    ensures
        r@ == le_bytes(u@),
{
    let mut out: Vec<u8> = Vec::new();
    let mut i: usize = 0;
    while i < u.len()
        invariant
            i <= u@.len(),
            out@.len() == 2 * i,
            forall|k: int| 0 <= k < 2 * i ==> #[trigger] out@[k] == le_bytes(u@)[k],
        decreases u@.len() - i,
    {
        out.push((u[i] % 256) as u8);
        out.push((u[i] / 256) as u8);
        proof {
            assert forall|k: int| 0 <= k < 2 * (i + 1) implies #[trigger] out@[k] == le_bytes(u@)[k] by {
                if k == 2 * i {
                    assert(k % 2 == 0 && k / 2 == i);
                } else if k == 2 * i + 1 {
                    assert(k % 2 == 1 && k / 2 == i);
                }
            }
        }
        i = i + 1;
    }
    assert(out@ =~= le_bytes(u@));
    out
}

/// A text as NUL-terminated little-endian UTF-16, as `CF_UNICODETEXT` holds
/// it.
pub fn utf16_bytes_nul(s: &str) -> (r: Vec<u8>)
    ensures
        r@ == le_bytes(utf16_of(s@).push(0u16)),
{
    let mut wide = encode_utf16(s);
    wide.push(0u16);
    units_le_bytes(&wide)
}

/// The character of a code point the decoder produced.
fn point_char(n: u32) -> (r: char)
    requires
        crate::text::is_scalar_value(n),
    ensures
        r == n as char,
{
    match char_from_u32(n) {
        Some(c) => {
            proof {
                char_u32_cast(c, n);
            }
            c
        },
        None => '\u{FFFD}',
    }
}

/// `String::from_utf16_lossy` of code units.
pub fn decode_utf16_lossy(u: &[u16]) -> (r: Vec<char>)
    ensures
        r@ == utf16_lossy(u@),
{
    let mut out: Vec<char> = Vec::new();
    let mut i: usize = 0;
    assert(u@.subrange(0, u@.len() as int) =~= u@);
    while i < u.len()
        invariant
            i <= u@.len(),
            out@ + utf16_lossy(u@.subrange(i as int, u@.len() as int)) == utf16_lossy(u@),
        decreases u@.len() - i,
    {
        let ghost rest = u@.subrange(i as int, u@.len() as int);
        let a = u[i];
        if a < 0xD800 || a > 0xDFFF {
            let c = point_char(a as u32);
            assert(rest.subrange(1, rest.len() as int) =~= u@.subrange(i + 1, u@.len() as int));
            out.push(c);
            i = i + 1;
            assert(out@ + utf16_lossy(u@.subrange(i as int, u@.len() as int)) =~= utf16_lossy(u@));
        } else if a <= 0xDBFF && i + 1 < u.len() && 0xDC00 <= u[i + 1] && u[i + 1] <= 0xDFFF {
            let b = u[i + 1];
            let n: u32 = 0x10000 + (a as u32 - 0xD800) * 0x400 + (b as u32 - 0xDC00);
            assert(0x10000 <= n <= 0x10FFFF);
            let c = point_char(n);
            assert(rest.subrange(2, rest.len() as int) =~= u@.subrange(i + 2, u@.len() as int));
            out.push(c);
            i = i + 2;
            assert(out@ + utf16_lossy(u@.subrange(i as int, u@.len() as int)) =~= utf16_lossy(u@));
        } else {
            assert(rest.subrange(1, rest.len() as int) =~= u@.subrange(i + 1, u@.len() as int));
            out.push('\u{FFFD}');
            i = i + 1;
            assert(out@ + utf16_lossy(u@.subrange(i as int, u@.len() as int)) =~= utf16_lossy(u@));
        }
    }
    assert(u@.subrange(u@.len() as int, u@.len() as int) =~= Seq::<u16>::empty());
    assert(out@ =~= utf16_lossy(u@));
    out
}

/// The little-endian code units of `b` up to the first zero unit.
pub fn read_le_units(b: &[u8]) -> (r: Vec<u16>)
    ensures
        r@ == le_units(b@, 0),
{
    let mut out: Vec<u16> = Vec::new();
    let mut i: usize = 0;
    while i < b.len() && i + 1 < b.len()
        invariant
            i <= b@.len(),
            out@ + le_units(b@, i as int) == le_units(b@, 0),
        decreases b@.len() - i,
    {
        let u: u16 = b[i] as u16 + b[i + 1] as u16 * 256;
        if u == 0 {
            assert(out@ =~= le_units(b@, 0));
            return out;
        }
        out.push(u);
        i = i + 2;
        assert(out@ + le_units(b@, i as int) =~= le_units(b@, 0));
    }
    assert(out@ =~= le_units(b@, 0));
    out
}

/// `CF_UNICODETEXT` bytes as text: little-endian UTF-16 up to the first
/// NUL, decoded lossily.
pub fn bytes_to_utf16_string(bytes: &[u8]) -> (r: String)
    ensures
        r@ == utf16_lossy(le_units(bytes@, 0)),
{
    let units = read_le_units(bytes);
    let chars = decode_utf16_lossy(&units);
    crate::text::string_from_chars(&chars)
}

proof fn lemma_units_nonzero(s: Seq<char>)
    requires
        forall|k: int| 0 <= k < s.len() ==> s[k] != '\0',
    ensures
        forall|k: int| 0 <= k < utf16_of(s).len() ==> utf16_of(s)[k] != 0,
    decreases s.len(),
{
    if s.len() > 0 {
        let t = s.subrange(1, s.len() as int);
        assert forall|k: int| 0 <= k < t.len() implies t[k] != '\0' by {
            assert(t[k] == s[k + 1]);
        }
        lemma_units_nonzero(t);
        let n = s[0] as u32;
        assert(n != 0) by {
            char_u32_cast(s[0], n);
            if n == 0 {
                char_u32_cast('\0', 0);
            }
        }
        let u = units_of(s[0]);
        vstd::utf8::char_is_scalar(s[0]);
        assert forall|k: int| 0 <= k < u.len() implies u[k] != 0 by {
            if n < 0x10000 {
                assert(u[k] == n as u16);
            } else {
                let m = n - 0x10000;
                assert(m / 0x400 >= 0 && m % 0x400 >= 0) by (nonlinear_arith)
                    requires m >= 0;
                assert(0xD800 + m / 0x400 < 0x10000) by (nonlinear_arith)
                    requires 0 <= m < 0x100000;
                assert(0xDC00 + m % 0x400 < 0x10000) by (nonlinear_arith)
                    requires 0 <= m;
            }
        }
        assert forall|k: int| 0 <= k < utf16_of(s).len() implies utf16_of(s)[k] != 0 by {
            if k < u.len() {
                assert(utf16_of(s)[k] == u[k]);
            } else {
                assert(utf16_of(s)[k] == utf16_of(t)[k - u.len()]);
            }
        }
    }
}

proof fn lemma_read_units(v: Seq<u16>, j: int)
    requires
        forall|k: int| 0 <= k < v.len() ==> v[k] != 0,
        0 <= j <= v.len(),
    ensures
        le_units(le_bytes(v.push(0u16)), 2 * j) == v.subrange(j, v.len() as int),
    decreases v.len() - j,
{
    let w = v.push(0u16);
    let b = le_bytes(w);
    assert((2 * j) % 2 == 0 && (2 * j) / 2 == j);
    assert((2 * j + 1) % 2 == 1 && (2 * j + 1) / 2 == j);
    assert(b[2 * j] == (w[j] % 256) as u8);
    assert(b[2 * j + 1] == (w[j] / 256) as u8);
    assert(w[j] % 256 + (w[j] / 256) * 256 == w[j]);
    if j == v.len() {
        assert(v.subrange(j, v.len() as int) =~= Seq::<u16>::empty());
    } else {
        lemma_read_units(v, j + 1);
        assert(2 * j + 2 == 2 * (j + 1));
        assert(v.subrange(j, v.len() as int) =~= seq![v[j]] + v.subrange(j + 1, v.len() as int));
    }
}

proof fn lemma_lossy_of_utf16(s: Seq<char>)
    ensures
        utf16_lossy(utf16_of(s)) == s,
    decreases s.len(),
{
    if s.len() > 0 {
        let t = s.subrange(1, s.len() as int);
        lemma_lossy_of_utf16(t);
        let rest = utf16_of(t);
        let n = s[0] as u32;
        vstd::utf8::char_is_scalar(s[0]);
        char_u32_cast(s[0], n);
        let u = units_of(s[0]) + rest;
        assert(utf16_of(s) == u);
        if n < 0x10000 {
            assert(u[0] == n as u16);
            assert(u.subrange(1, u.len() as int) =~= rest);
            assert((u[0] as u32) == n);
            assert(utf16_lossy(u) =~= seq![s[0]] + t);
        } else {
            let m = n - 0x10000;
            assert(m == (m / 0x400) * 0x400 + m % 0x400) by (nonlinear_arith)
                requires m >= 0;
            assert(m / 0x400 < 0x400) by (nonlinear_arith)
                requires 0 <= m < 0x100000;
            assert(u[0] == (0xD800 + m / 0x400) as u16);
            assert(u[1] == (0xDC00 + m % 0x400) as u16);
            assert(u.subrange(2, u.len() as int) =~= rest);
            assert((0x10000 + (u[0] - 0xD800) * 0x400 + (u[1] - 0xDC00)) as u32 == n);
            assert(utf16_lossy(u) =~= seq![s[0]] + t);
        }
        assert(seq![s[0]] + t =~= s);
    }
}

/// Text written as `CF_UNICODETEXT` reads back as the same text when it
/// holds no NUL character.
pub proof fn lemma_utf16_text_roundtrip(s: Seq<char>)
    requires
        forall|k: int| 0 <= k < s.len() ==> s[k] != '\0',
    ensures
        utf16_lossy(le_units(le_bytes(utf16_of(s).push(0u16)), 0)) == s,
{
    lemma_units_nonzero(s);
    lemma_read_units(utf16_of(s), 0);
    assert(utf16_of(s).subrange(0, utf16_of(s).len() as int) =~= utf16_of(s));
    lemma_lossy_of_utf16(s);
}

/// The marker before the fragment in `HTML Format`.
pub open spec fn start_marker() -> Seq<char> {
    "<!--StartFragment-->"@
}

/// The marker after the fragment in `HTML Format`.
pub open spec fn end_marker() -> Seq<char> {
    "<!--EndFragment-->"@
}

/// The document `HTML Format` wraps a fragment in.
pub open spec fn cf_body(h: Seq<char>) -> Seq<char> {
    "<html>\r\n<body>\r\n"@ + start_marker() + h + end_marker() + "\r\n</body>\r\n</html>"@
}

/// The `HTML Format` header with its four byte offsets, each written with at
/// least ten digits.
pub open spec fn cf_header(start_html: nat, end_html: nat, start_frag: nat, end_frag: nat) -> Seq<
    char,
> {
    "Version:0.9\r\nStartHTML:"@ + zero_padded(start_html, 10) + "\r\nEndHTML:"@ + zero_padded(
        end_html,
        10,
    ) + "\r\nStartFragment:"@ + zero_padded(start_frag, 10) + "\r\nEndFragment:"@
        + zero_padded(end_frag, 10) + "\r\n"@
}

/// Whether bytes `p` occur in `s` at index `k`.
pub open spec fn bytes_at(s: Seq<u8>, k: int, p: Seq<u8>) -> bool {
    0 <= k && k + p.len() <= s.len() && s.subrange(k, k + p.len()) == p
}

/// The first index at or after `i` where bytes `p` occur in `s`.
pub open spec fn find_bytes(s: Seq<u8>, p: Seq<u8>, i: int) -> Option<int>
    decreases s.len() - i,
{
    if i < 0 || i > s.len() {
        None
    } else if bytes_at(s, i, p) {
        Some(i)
    } else if i == s.len() {
        None
    } else {
        find_bytes(s, p, i + 1)
    }
}

fn bytes_at_exec(v: &[u8], k: usize, p: &[u8]) -> (r: bool)
    ensures
        r == bytes_at(v@, k as int, p@),
{
    if k > v.len() || p.len() > v.len() - k {
        return false;
    }
    let n = v.len();
    let mut j: usize = 0;
    while j < p.len()
        invariant
            n == v@.len(),
            k + p@.len() <= v@.len(),
            j <= p@.len(),
            forall|t: int| 0 <= t < j ==> v@[k + t] == p@[t],
        decreases p@.len() - j,
    {
        assert(k + j < v@.len());
        if v[k + j] != p[j] {
            assert(v@.subrange(k as int, k + p@.len())[j as int] != p@[j as int]);
            return false;
        }
        j = j + 1;
    }
    assert(v@.subrange(k as int, k + p@.len()) =~= p@);
    true
}

/// `str::find` over bytes: the first index where `p` occurs in `v`.
pub fn find_bytes_exec(v: &[u8], p: &[u8]) -> (r: Option<usize>)
    ensures
        match r {
            Some(k) => find_bytes(v@, p@, 0) == Some(k as int),
            None => find_bytes(v@, p@, 0) is None,
        },
{
    let mut k: usize = 0;
    loop
        invariant
            k <= v@.len(),
            find_bytes(v@, p@, 0) == find_bytes(v@, p@, k as int),
        decreases v@.len() - k,
    {
        if bytes_at_exec(v, k, p) {
            return Some(k);
        }
        if k == v.len() {
            return None;
        }
        k = k + 1;
    }
}

/// The bytes `HTML Format` holds for a fragment: the header with the byte
/// offsets of the document, of the fragment's start (after its marker) and
/// of its end marker, then the document, then a NUL.
pub open spec fn cf_html_payload(h: Seq<char>) -> Seq<u8> {
    let body = encode_utf8(cf_body(h));
    let start_html = encode_utf8(cf_header(0, 0, 0, 0)).len();
    let start_frag = start_html + match find_bytes(body, encode_utf8(start_marker()), 0) {
        Some(i) => i,
        None => 0,
    } + encode_utf8(start_marker()).len();
    let end_frag = start_html + match find_bytes(body, encode_utf8(end_marker()), 0) {
        Some(i) => i,
        None => body.len() as int,
    };
    let end_html = start_html + body.len();
    encode_utf8(cf_header(start_html, end_html as nat, start_frag as nat, end_frag as nat)) + body
        + seq![0u8]
}

fn cf_header_text(start_html: u64, end_html: u64, start_frag: u64, end_frag: u64) -> (r: String)
    ensures
        r@ == cf_header(start_html as nat, end_html as nat, start_frag as nat, end_frag as nat),
{
    let mut s = String::from_str("Version:0.9\r\nStartHTML:");
    s.append(decimal_padded(start_html, 10).as_str());
    s.append("\r\nEndHTML:");
    s.append(decimal_padded(end_html, 10).as_str());
    s.append("\r\nStartFragment:");
    s.append(decimal_padded(start_frag, 10).as_str());
    s.append("\r\nEndFragment:");
    s.append(decimal_padded(end_frag, 10).as_str());
    s.append("\r\n");
    s
}

/// An HTML fragment as `HTML Format` clipboard bytes.
pub fn html_clipboard_payload(html: &str) -> (r: Vec<u8>)
    requires
        encode_utf8(html@).len() + 1000 <= u64::MAX,
    ensures
        r@ == cf_html_payload(html@),
{
    let start_frag_s = "<!--StartFragment-->";
    let end_frag_s = "<!--EndFragment-->";
    let mut body = String::from_str("<html>\r\n<body>\r\n");
    body.append(start_frag_s);
    body.append(html);
    body.append(end_frag_s);
    body.append("\r\n</body>\r\n</html>");
    assert(body@ =~= cf_body(html@));
    let body_b = body.as_str().as_bytes();
    let dummy = cf_header_text(0, 0, 0, 0);
    let start_html: u64 = dummy.as_str().as_bytes().len() as u64;
    let sf_b = start_frag_s.as_bytes();
    let ef_b = end_frag_s.as_bytes();
    proof {
        reveal_strlit("<html>\r\n<body>\r\n");
        reveal_strlit("<!--StartFragment-->");
        reveal_strlit("<!--EndFragment-->");
        reveal_strlit("\r\n</body>\r\n</html>");
        let pre = "<html>\r\n<body>\r\n"@ + start_marker();
        let post = end_marker() + "\r\n</body>\r\n</html>"@;
        assert(cf_body(html@) =~= pre + (html@ + post));
        lemma_encode_utf8_concat(pre, html@ + post);
        lemma_encode_utf8_concat(html@, post);
        lemma_encode_len_bound(pre);
        lemma_encode_len_bound(post);
        lemma_encode_len_bound(start_marker());
        lemma_header_chars(0, 0, 0, 0);
        lemma_encode_len_bound(cf_header(0, 0, 0, 0));
        assert(body_b@.len() <= 4 * 36 + encode_utf8(html@).len() + 4 * 36);
        assert(start_html <= 4 * 105);
        assert(sf_b@.len() <= 80);
    }
    let sf_at: u64 = match find_bytes_exec(body_b, sf_b) {
        Some(i) => i as u64,
        None => 0,
    };
    let ef_at: u64 = match find_bytes_exec(body_b, ef_b) {
        Some(i) => i as u64,
        None => body_b.len() as u64,
    };
    proof {
        match find_bytes(body_b@, sf_b@, 0) {
            Some(i) => lemma_find_bytes_bound(body_b@, sf_b@, 0),
            None => {},
        }
        match find_bytes(body_b@, ef_b@, 0) {
            Some(i) => lemma_find_bytes_bound(body_b@, ef_b@, 0),
            None => {},
        }
    }
    let start_fragment = start_html + sf_at + sf_b.len() as u64;
    let end_fragment = start_html + ef_at;
    let end_html = start_html + body_b.len() as u64;
    let header = cf_header_text(start_html, end_html, start_fragment, end_fragment);
    let mut out = copy_bytes(header.as_str().as_bytes());
    append_bytes(&mut out, body_b);
    out.push(0u8);
    assert(out@ =~= cf_html_payload(html@));
    out
}

proof fn lemma_encode_utf8_concat(a: Seq<char>, b: Seq<char>)
    ensures
        encode_utf8(a + b) == encode_utf8(a) + encode_utf8(b),
    decreases a.len(),
{
    if a.len() == 0 {
        assert(a + b =~= b);
        assert(encode_utf8(a) + encode_utf8(b) =~= encode_utf8(b));
    } else {
        lemma_encode_utf8_concat(a.drop_first(), b);
        assert((a + b).drop_first() =~= a.drop_first() + b);
        assert((a + b)[0] == a[0]);
        assert(encode_utf8(a + b) =~= vstd::utf8::encode_scalar(a[0] as u32) + encode_utf8(
            a.drop_first(),
        ) + encode_utf8(b));
    }
}

proof fn lemma_encode_len_bound(s: Seq<char>)
    ensures
        encode_utf8(s).len() <= 4 * s.len(),
    decreases s.len(),
{
    if s.len() > 0 {
        lemma_encode_len_bound(s.drop_first());
        assert(vstd::utf8::encode_scalar(s[0] as u32).len() <= 4);
    }
}

proof fn lemma_find_bytes_bound(s: Seq<u8>, p: Seq<u8>, i: int)
    ensures
        find_bytes(s, p, i) matches Some(k) ==> 0 <= i <= k && k + p.len() <= s.len() && bytes_at(
            s,
            k,
            p,
        ),
    decreases s.len() - i,
{
    if 0 <= i < s.len() && !bytes_at(s, i, p) {
        lemma_find_bytes_bound(s, p, i + 1);
    }
}

/// The characters of a number written with at least `w` digits are digits.
proof fn lemma_padded_digits(n: nat, w: nat)
    ensures
        forall|k: int|
            0 <= k < zero_padded(n, w).len() ==> crate::text::digit_of(
                #[trigger] zero_padded(n, w)[k],
                10,
            ) is Some,
        zero_padded(n, w).len() >= w,
        n < 10 ==> zero_padded(n, w).len() == if w >= 1 {
            w
        } else {
            1
        },
{
    crate::codec::lemma_dec_of_parses(n);
    let d = crate::codec::dec_of(n);
    assert forall|k: int| 0 <= k < zero_padded(n, w).len() implies crate::text::digit_of(
        #[trigger] zero_padded(n, w)[k],
        10,
    ) is Some by {
        if d.len() < w && k < w - d.len() {
            assert(zero_padded(n, w)[k] == '0');
        } else if d.len() < w {
            assert(zero_padded(n, w)[k] == d[k - (w - d.len())]);
        } else {
            assert(zero_padded(n, w)[k] == d[k]);
        }
    }
}

/// The `HTML Format` header holds no `<` and is at least 105 characters.
proof fn lemma_header_chars(a: nat, b: nat, c: nat, d: nat)
    ensures
        forall|k: int| 0 <= k < cf_header(a, b, c, d).len() ==> cf_header(a, b, c, d)[k] != '<',
        a < 10 && b < 10 && c < 10 && d < 10 ==> cf_header(a, b, c, d).len() == 105,
{
    reveal_strlit("Version:0.9\r\nStartHTML:");
    reveal_strlit("\r\nEndHTML:");
    reveal_strlit("\r\nStartFragment:");
    reveal_strlit("\r\nEndFragment:");
    reveal_strlit("\r\n");
    lemma_padded_digits(a, 10);
    lemma_padded_digits(b, 10);
    lemma_padded_digits(c, 10);
    lemma_padded_digits(d, 10);
    let h = cf_header(a, b, c, d);
    assert forall|k: int| 0 <= k < h.len() implies h[k] != '<' by {
        let p0 = "Version:0.9\r\nStartHTML:"@;
        let pa = zero_padded(a, 10);
        let p1 = "\r\nEndHTML:"@;
        let pb = zero_padded(b, 10);
        let p2 = "\r\nStartFragment:"@;
        let pc = zero_padded(c, 10);
        let p3 = "\r\nEndFragment:"@;
        let pd = zero_padded(d, 10);
        let p4 = "\r\n"@;
        assert(h =~= p0 + pa + p1 + pb + p2 + pc + p3 + pd + p4);
        let mut off: int = 0;
        if k < p0.len() {
            assert(h[k] == p0[k]);
        } else if k < p0.len() + pa.len() {
            assert(h[k] == pa[k - p0.len()]);
            assert(crate::text::digit_of(pa[k - p0.len()], 10) is Some);
        } else if k < p0.len() + pa.len() + p1.len() {
            assert(h[k] == p1[k - p0.len() - pa.len()]);
        } else if k < p0.len() + pa.len() + p1.len() + pb.len() {
            assert(h[k] == pb[k - p0.len() - pa.len() - p1.len()]);
            assert(crate::text::digit_of(pb[k - p0.len() - pa.len() - p1.len()], 10) is Some);
        } else if k < p0.len() + pa.len() + p1.len() + pb.len() + p2.len() {
            assert(h[k] == p2[k - p0.len() - pa.len() - p1.len() - pb.len()]);
        } else if k < p0.len() + pa.len() + p1.len() + pb.len() + p2.len() + pc.len() {
            assert(h[k] == pc[k - p0.len() - pa.len() - p1.len() - pb.len() - p2.len()]);
            assert(crate::text::digit_of(
                pc[k - p0.len() - pa.len() - p1.len() - pb.len() - p2.len()],
                10,
            ) is Some);
        } else if k < p0.len() + pa.len() + p1.len() + pb.len() + p2.len() + pc.len() + p3.len() {
            assert(h[k] == p3[k - p0.len() - pa.len() - p1.len() - pb.len() - p2.len() - pc.len()]);
        } else if k < p0.len() + pa.len() + p1.len() + pb.len() + p2.len() + pc.len() + p3.len()
            + pd.len() {
            assert(h[k] == pd[k - p0.len() - pa.len() - p1.len() - pb.len() - p2.len() - pc.len()
                - p3.len()]);
            assert(crate::text::digit_of(
                pd[k - p0.len() - pa.len() - p1.len() - pb.len() - p2.len() - pc.len() - p3.len()],
                10,
            ) is Some);
        } else {
            assert(h[k] == p4[k - p0.len() - pa.len() - p1.len() - pb.len() - p2.len() - pc.len()
                - p3.len() - pd.len()]);
        }
    }
}

/// The index of the first zero byte at or after `i`, or the length.
pub open spec fn first_zero(b: Seq<u8>, i: int) -> int
    decreases b.len() - i,
{
    if i < 0 || i >= b.len() {
        b.len() as int
    } else if b[i] == 0 {
        i
    } else {
        first_zero(b, i + 1)
    }
}

/// The text of `HTML Format` bytes: all of them when they are UTF-8, else
/// the part before the first NUL byte when that is.
pub open spec fn cf_text(b: Seq<u8>) -> Option<Seq<char>> {
    if valid_utf8(b) {
        Some(decode_utf8(b))
    } else {
        let pre = b.subrange(0, first_zero(b, 0));
        if valid_utf8(pre) {
            Some(decode_utf8(pre))
        } else {
            None
        }
    }
}

/// A text with its trailing NUL characters removed.
pub open spec fn trim_nuls(s: Seq<char>) -> Seq<char>
    decreases s.len(),
{
    if s.len() > 0 && s.last() == '\0' {
        trim_nuls(s.drop_last())
    } else {
        s
    }
}

/// The HTML of `HTML Format` text: what lies between the first start marker
/// and the first end marker when the start comes first; else everything
/// from the first `<html` (or `<HTML`) on, without trailing NULs.
pub open spec fn cf_fragment(s: Seq<char>) -> Option<Seq<char>> {
    let marked = match (find_seq(s, start_marker(), 0), find_seq(s, end_marker(), 0)) {
        (Some(a), Some(b)) => if a + start_marker().len() <= b {
            Some(s.subrange(a + start_marker().len(), b))
        } else {
            None
        },
        _ => None,
    };
    if marked is Some {
        marked
    } else {
        let at = match find_seq(s, "<html"@, 0) {
            Some(i) => Some(i),
            None => find_seq(s, "<HTML"@, 0),
        };
        match at {
            Some(i) => Some(trim_nuls(s.subrange(i, s.len() as int))),
            None => None,
        }
    }
}

/// What `HTML Format` bytes hold as HTML.
pub open spec fn parse_cf_html(b: Seq<u8>) -> Option<Seq<char>> {
    match cf_text(b) {
        Some(s) => cf_fragment(s),
        None => None,
    }
}

fn first_zero_exec(b: &[u8]) -> (r: usize)
    ensures
        r as int == first_zero(b@, 0),
        r <= b@.len(),
{
    let mut i: usize = 0;
    while i < b.len()
        invariant
            i <= b@.len(),
            first_zero(b@, 0) == first_zero(b@, i as int),
        decreases b@.len() - i,
    {
        if b[i] == 0 {
            return i;
        }
        i = i + 1;
    }
    i
}

/// The HTML an `HTML Format` clipboard entry holds.
pub fn parse_html_format(bytes: &[u8]) -> (r: Option<String>)
    ensures
        match r {
            Some(t) => parse_cf_html(bytes@) == Some(t@),
            None => parse_cf_html(bytes@) is None,
        },
{
    let text = match string_from_utf8(copy_bytes(bytes)) {
        Some(s) => s,
        None => {
            let c0 = first_zero_exec(bytes);
            let mut pre: Vec<u8> = Vec::new();
            let mut k: usize = 0;
            while k < c0
                invariant
                    c0 <= bytes@.len(),
                    k <= c0,
                    pre@ == bytes@.subrange(0, k as int),
                decreases c0 - k,
            {
                pre.push(bytes[k]);
                k = k + 1;
                assert(pre@ =~= bytes@.subrange(0, k as int));
            }
            match string_from_utf8(pre) {
                Some(s) => s,
                None => return None,
            }
        },
    };
    let v = str_chars(text.as_str());
    let sm = str_chars("<!--StartFragment-->");
    let em = str_chars("<!--EndFragment-->");
    let a = find_seq_from(&v, &sm, 0);
    let b = find_seq_from(&v, &em, 0);
    proof {
        crate::text::lemma_find_seq(v@, sm@, 0);
        crate::text::lemma_find_seq(v@, em@, 0);
    }
    if let (Some(a), Some(b)) = (a, b) {
        let vl = v.len();
        assert(a + sm@.len() <= vl);
        if a + sm.len() <= b {
            return Some(string_from_chars(&sub_chars(&v, a + sm.len(), b)));
        }
    }
    let lower = str_chars("<html");
    let upper = str_chars("<HTML");
    let at = match find_seq_from(&v, &lower, 0) {
        Some(i) => Some(i),
        None => find_seq_from(&v, &upper, 0),
    };
    match at {
        Some(i) => {
            proof {
                crate::text::lemma_find_seq(v@, lower@, 0);
                crate::text::lemma_find_seq(v@, upper@, 0);
            }
            let mut end: usize = v.len();
            assert(v@.subrange(i as int, v@.len() as int) == v@.subrange(i as int, end as int));
            while end > i && v[end - 1] == '\0'
                invariant
                    i <= end <= v@.len(),
                    trim_nuls(v@.subrange(i as int, v@.len() as int)) == trim_nuls(
                        v@.subrange(i as int, end as int),
                    ),
                decreases end,
            {
                assert(v@.subrange(i as int, end as int).drop_last() =~= v@.subrange(
                    i as int,
                    end - 1,
                ));
                end = end - 1;
            }
            let t = sub_chars(&v, i, end);
            assert(t@ == trim_nuls(v@.subrange(i as int, v@.len() as int)));
            Some(string_from_chars(&t))
        },
        None => None,
    }
}

proof fn lemma_match_char(s: Seq<char>, q: int, p: Seq<char>, j: int)
    requires
        matches_at(s, q, p),
        0 <= j < p.len(),
    ensures
        s[q + j] == p[j],
{
    assert(s.subrange(q, q + p.len())[j] == s[q + j]);
}

proof fn lemma_find_first(s: Seq<char>, p: Seq<char>, k: int, i: int)
    requires
        matches_at(s, k, p),
        0 <= i <= k,
        forall|q: int| i <= q < k ==> !matches_at(s, q, p),
    ensures
        find_seq(s, p, i) == Some(k),
    decreases k - i,
{
    if i < k {
        lemma_find_first(s, p, k, i + 1);
    }
}

proof fn lemma_found_if_matches(s: Seq<char>, p: Seq<char>, r: int, i: int)
    requires
        matches_at(s, r, p),
        0 <= i <= r,
    ensures
        find_seq(s, p, i) is Some,
    decreases r - i,
{
    if i < r && !matches_at(s, i, p) {
        lemma_found_if_matches(s, p, r, i + 1);
    }
}

/// Behind a header without `<`, the fragment of a wrapped document is found
/// again, when it holds no end marker itself.
#[verifier::spinoff_prover]
#[verifier::rlimit(60)]
proof fn lemma_fragment(hd: Seq<char>, h: Seq<char>)
    requires
        forall|k: int| 0 <= k < hd.len() ==> hd[k] != '<',
        !has_sub(h, end_marker()),
    ensures
        cf_fragment(hd + cf_body(h) + seq!['\0']) == Some(h),
{
    reveal_strlit("<html>\r\n<body>\r\n");
    reveal_strlit("<!--StartFragment-->");
    reveal_strlit("<!--EndFragment-->");
    reveal_strlit("\r\n</body>\r\n</html>");
    let p1 = "<html>\r\n<body>\r\n"@;
    let sm = start_marker();
    let em = end_marker();
    let q = "\r\n</body>\r\n</html>"@;
    let s = hd + cf_body(h) + seq!['\0'];
    let n = hd.len() as int;
    assert(s =~= hd + p1 + sm + h + em + q + seq!['\0']);
    let a = n + 16;
    let b = n + 36 + h.len();
    assert forall|k: int| 0 <= k < n implies s[k] == hd[k] by {}
    assert forall|k: int| 0 <= k < 16 implies s[n + k] == p1[k] by {}
    assert forall|k: int| 0 <= k < 20 implies s[n + 16 + k] == sm[k] by {}
    assert forall|k: int| 0 <= k < h.len() implies s[n + 36 + k] == h[k] by {}
    assert forall|k: int| 0 <= k < 18 implies s[b + k] == em[k] by {}
    assert(s.subrange(a, a + 20) =~= sm);
    assert forall|qq: int| 0 <= qq < a implies !matches_at(s, qq, sm) by {
        if matches_at(s, qq, sm) {
            lemma_match_char(s, qq, sm, 0);
            lemma_match_char(s, qq, sm, 1);
            if qq < n {
                assert(s[qq] == hd[qq]);
            } else {
                assert(s[qq] == p1[qq - n]);
                assert(s[qq + 1] == p1[qq - n + 1]);
            }
        }
    }
    lemma_find_first(s, sm, a, 0);
    assert(s.subrange(b, b + 18) =~= em);
    assert forall|qq: int| 0 <= qq < b implies !matches_at(s, qq, em) by {
        if matches_at(s, qq, em) {
            lemma_match_char(s, qq, em, 0);
            if qq < n {
                assert(s[qq] == hd[qq]);
            } else if qq < n + 16 {
                lemma_match_char(s, qq, em, 1);
                assert(s[qq] == p1[qq - n]);
                assert(s[qq + 1] == p1[qq - n + 1]);
            } else if qq < n + 36 {
                lemma_match_char(s, qq, em, 4);
                assert(s[qq] == sm[qq - n - 16]);
                assert(s[qq + 4] == sm[qq - n - 16 + 4]);
            } else {
                let r = qq - (n + 36);
                if r + 18 <= h.len() {
                    assert(h.subrange(r, r + 18) =~= s.subrange(qq, qq + 18));
                    assert(matches_at(h, r, em));
                    lemma_found_if_matches(h, em, r, 0);
                } else {
                    let j = h.len() - r;
                    lemma_match_char(s, qq, em, j);
                    assert(qq + j == b);
                    assert(s[b] == '<');
                    assert(em[j] != '<');
                }
            }
        }
    }
    lemma_find_first(s, em, b, 0);
    assert(s.subrange(a + 20, b) =~= h);
}

/// An HTML fragment put on the clipboard as `HTML Format` reads back as the
/// same fragment, unless it contains the end marker itself.
pub proof fn lemma_html_format_roundtrip(h: Seq<char>)
    requires
        !has_sub(h, end_marker()),
    ensures
        parse_cf_html(cf_html_payload(h)) == Some(h),
{
    let body = encode_utf8(cf_body(h));
    let start_html = encode_utf8(cf_header(0, 0, 0, 0)).len();
    let start_frag = start_html + match find_bytes(body, encode_utf8(start_marker()), 0) {
        Some(i) => i,
        None => 0,
    } + encode_utf8(start_marker()).len();
    let end_frag = start_html + match find_bytes(body, encode_utf8(end_marker()), 0) {
        Some(i) => i,
        None => body.len() as int,
    };
    let end_html = start_html + body.len();
    let hd = cf_header(start_html, end_html as nat, start_frag as nat, end_frag as nat);
    lemma_header_chars(start_html, end_html as nat, start_frag as nat, end_frag as nat);
    let all = hd + cf_body(h) + seq!['\0'];
    lemma_encode_utf8_concat(hd, cf_body(h));
    lemma_encode_utf8_concat(hd + cf_body(h), seq!['\0']);
    assert(encode_utf8(seq!['\0']) =~= seq![0u8]) by {
        let z = seq!['\0'];
        assert(z.drop_first() =~= Seq::<char>::empty());
        assert(encode_utf8(z.drop_first()) =~= Seq::<u8>::empty());
        assert((z[0] as u32) == 0u32);
        assert((0u32 & 0x7F) as u8 == 0u8) by (bit_vector);
        assert(vstd::utf8::leading_byte_width_1(0u32) == 0u8);
        assert(vstd::utf8::encode_scalar(0u32) =~= seq![0u8]);
        assert(encode_utf8(z) == vstd::utf8::encode_scalar(z[0] as u32) + encode_utf8(
            z.drop_first(),
        ));
    }
    assert(cf_html_payload(h) =~= encode_utf8(all));
    vstd::utf8::encode_utf8_valid_utf8(all);
    vstd::utf8::encode_utf8_decode_utf8(all);
    lemma_fragment(hd, h);
}

/// The code units of a file list: each path in UTF-16 with a NUL after it.
pub open spec fn path_units(paths: Seq<Seq<char>>) -> Seq<u16>
    decreases paths.len(),
{
    if paths.len() == 0 {
        seq![]
    } else {
        path_units(paths.drop_last()) + utf16_of(paths.last()) + seq![0u16]
    }
}

/// The `CF_HDROP` bytes of a file list.
pub open spec fn hdrop_of(paths: Seq<Seq<char>>) -> Seq<u8> {
    dropfiles_header() + le_bytes(path_units(paths).push(0u16))
}

/// The `DROPFILES` header of a wide file list: its own size (20) and the
/// wide flag set.
pub open spec fn dropfiles_header() -> Seq<u8> {
    seq![20u8, 0, 0, 0, 0, 0, 0, 0, 0, 0, 0, 0, 0, 0, 0, 0, 1, 0, 0, 0]
}

/// Files as `CF_HDROP` bytes: the header, then the NUL-terminated wide
/// paths and one more NUL.
pub fn hdrop_bytes(paths: &[String]) -> (r: Vec<u8>)
    ensures
        r@ == hdrop_of(paths@.map_values(|p: String| p@)),
{
    let ghost names = paths@.map_values(|p: String| p@);
    let mut units: Vec<u16> = Vec::new();
    let mut i: usize = 0;
    assert(names.subrange(0, 0) =~= Seq::<Seq<char>>::empty());
    while i < paths.len()
        invariant
            i <= paths@.len(),
            names == paths@.map_values(|p: String| p@),
            units@ == path_units(names.subrange(0, i as int)),
        decreases paths@.len() - i,
    {
        let w = encode_utf16(paths[i].as_str());
        let mut k: usize = 0;
        let ghost before = units@;
        while k < w.len()
            invariant
                k <= w@.len(),
                units@ == before + w@.subrange(0, k as int),
            decreases w@.len() - k,
        {
            units.push(w[k]);
            k = k + 1;
            assert(units@ =~= before + w@.subrange(0, k as int));
        }
        units.push(0u16);
        assert(names.subrange(0, i as int + 1).drop_last() =~= names.subrange(0, i as int));
        assert(names.subrange(0, i as int + 1).last() == paths@[i as int]@);
        assert(w@.subrange(0, w@.len() as int) =~= w@);
        i = i + 1;
        assert(units@ =~= path_units(names.subrange(0, i as int)));
    }
    assert(names.subrange(0, names.len() as int) =~= names);
    units.push(0u16);
    let mut out: Vec<u8> = vec![20u8, 0, 0, 0, 0, 0, 0, 0, 0, 0, 0, 0, 0, 0, 0, 0, 1, 0, 0, 0];
    let body = units_le_bytes(&units);
    append_bytes(&mut out, &body);
    assert(out@ =~= hdrop_of(names));
    out
}

/// Whether copied text is a web address: once trimmed, it starts with
/// `http://` or `https://`.
pub open spec fn url_like(s: Seq<char>) -> bool {
    let t = crate::text::trim_seq(s);
    matches_at(t, 0, "http://"@) || matches_at(t, 0, "https://"@)
}

pub fn looks_like_url(s: &str) -> (r: bool)
    ensures
        r == url_like(s@),
{
    let v = str_chars(s);
    let t = crate::text::trim_range(&v, 0, v.len());
    assert(v@.subrange(0, v@.len() as int) =~= v@);
    let a = str_chars("http://");
    let b = str_chars("https://");
    crate::text::matches_at_exec(&t, 0, &a) || crate::text::matches_at_exec(&t, 0, &b)
}

/// A captured item as plain values.
#[verifier::ext_equal]
pub struct ItemShape {
    pub ty: PasteType,
    pub text: Option<Seq<char>>,
    pub html: Option<Seq<char>>,
    pub rtf: Option<Seq<u8>>,
    pub url: Option<Seq<char>>,
    pub color: Option<Seq<char>>,
    pub image: Option<Seq<u8>>,
    pub file_path: Option<Seq<char>>,
}

pub open spec fn shape(it: CapturedItem) -> ItemShape {
    ItemShape {
        ty: it.ty,
        text: opt_chars_of(it.text),
        html: opt_chars_of(it.html),
        rtf: opt_bytes_of(it.rtf),
        url: opt_chars_of(it.url),
        color: opt_chars_of(it.color),
        image: opt_bytes_of(it.image),
        file_path: opt_chars_of(it.file_path),
    }
}

pub open spec fn shapes(items: Seq<CapturedItem>) -> Seq<ItemShape> {
    items.map_values(|it: CapturedItem| shape(it))
}

/// An item of kind `ty` that holds nothing yet.
pub open spec fn blank(ty: PasteType) -> ItemShape {
    ItemShape {
        ty,
        text: None,
        html: None,
        rtf: None,
        url: None,
        color: None,
        image: None,
        file_path: None,
    }
}

/// The copied files, once each, in the order they were first named.
pub open spec fn dedup(paths: Seq<Seq<char>>) -> Seq<Seq<char>>
    decreases paths.len(),
{
    if paths.len() == 0 {
        seq![]
    } else {
        let r = dedup(paths.drop_last());
        if r.contains(paths.last()) {
            r
        } else {
            r.push(paths.last())
        }
    }
}

pub open spec fn file_shapes(paths: Seq<Seq<char>>) -> Seq<ItemShape> {
    paths.map_values(|p: Seq<char>| ItemShape { file_path: Some(p), ..blank(PasteType::File) })
}

/// The colour item (when the text is a colour) and the text item of
/// non-empty copied text.
pub open spec fn text_shapes(t: Seq<char>) -> Seq<ItemShape> {
    if t.len() == 0 {
        seq![]
    } else {
        (match color_of(t) {
            Some(c) => seq![ItemShape { color: Some(c), text: Some(c), ..blank(PasteType::Color) }],
            None => seq![],
        }) + seq![ItemShape { text: Some(t), ..blank(PasteType::Text) }]
    }
}

pub open spec fn html_shape(h: Option<Seq<char>>) -> Seq<ItemShape> {
    match h {
        Some(x) => if x.len() > 0 {
            seq![ItemShape { html: Some(x), ..blank(PasteType::Html) }]
        } else {
            seq![]
        },
        None => seq![],
    }
}

pub open spec fn rtf_shape(b: Option<Seq<u8>>) -> Seq<ItemShape> {
    match b {
        Some(x) => if x.len() > 0 {
            seq![ItemShape { rtf: Some(x), ..blank(PasteType::Rtf) }]
        } else {
            seq![]
        },
        None => seq![],
    }
}

pub open spec fn image_shape(b: Option<Seq<u8>>) -> Seq<ItemShape> {
    match b {
        Some(x) => if x.len() > 0 {
            seq![ItemShape { image: Some(x), ..blank(PasteType::Image) }]
        } else {
            seq![]
        },
        None => seq![],
    }
}

/// What the macOS pasteboard offered for one copy: the existing files its
/// file-URL entries name (in the order read), its HTML, RTF, PNG, TIFF, URL
/// and plain string, and whether a file promise of this app is on it (its
/// files are then not taken in again).
pub struct MacFormats {
    pub skip_files: bool,
    pub file_paths: Vec<String>,
    pub html: Option<String>,
    pub rtf: Option<Vec<u8>>,
    pub png: Option<Vec<u8>>,
    pub tiff: Option<Vec<u8>>,
    pub url: Option<String>,
    pub text: Option<String>,
}

/// The items one macOS copy becomes: its files (each once); its HTML and
/// RTF when not empty; its image (PNG, else TIFF) when there is no file;
/// its URL unless empty or a `file:` one; a colour and the plain text for a
/// non-empty string.
pub open spec fn mac_shapes(f: MacFormats) -> Seq<ItemShape> {
    let files = if f.skip_files {
        seq![]
    } else {
        file_shapes(dedup(f.file_paths@.map_values(|p: String| p@)))
    };
    let img = match f.png {
        Some(b) => Some(b@),
        None => opt_bytes_of(f.tiff),
    };
    let url = match f.url {
        Some(u) => if u@.len() > 0 && !matches_at(u@, 0, "file:"@) {
            seq![ItemShape { url: Some(u@), ..blank(PasteType::Url) }]
        } else {
            seq![]
        },
        None => seq![],
    };
    files + html_shape(opt_chars_of(f.html)) + rtf_shape(opt_bytes_of(f.rtf)) + (if files.len()
        == 0 {
        image_shape(img)
    } else {
        seq![]
    }) + url + match f.text {
        Some(t) => text_shapes(t@),
        None => seq![],
    }
}

fn blank_item(ty: PasteType) -> (r: CapturedItem)
    ensures
        shape(r) == blank(ty),
{
    CapturedItem {
        ty,
        text: None,
        html: None,
        rtf: None,
        url: None,
        color: None,
        image: None,
        file_path: None,
    }
}

fn push_item(out: &mut Vec<CapturedItem>, it: CapturedItem)
    ensures
        shapes(final(out)@) == shapes(old(out)@).push(shape(it)),
{
    out.push(it);
    assert(shapes(out@) =~= shapes(old(out)@).push(shape(it)));
}

fn push_text_items(out: &mut Vec<CapturedItem>, t: &String)
    ensures
        shapes(final(out)@) == shapes(old(out)@) + text_shapes(t@),
{
    let n = str_chars(t.as_str()).len();
    if n == 0 {
        assert(shapes(out@) =~= shapes(old(out)@) + text_shapes(t@));
        return;
    }
    if let Some(color) = parse_color(t.as_str()) {
        let c2 = color.clone();
        push_item(out, CapturedItem { color: Some(color), text: Some(c2), ..blank_item(PasteType::Color) });
    }
    push_item(out, CapturedItem { text: Some(t.clone()), ..blank_item(PasteType::Text) });
    assert(shapes(out@) =~= shapes(old(out)@) + text_shapes(t@));
}

fn push_html_item(out: &mut Vec<CapturedItem>, h: &Option<String>)
    ensures
        shapes(final(out)@) == shapes(old(out)@) + html_shape(opt_chars_of(*h)),
{
    if let Some(x) = h {
        if str_chars(x.as_str()).len() > 0 {
            push_item(out, CapturedItem { html: Some(x.clone()), ..blank_item(PasteType::Html) });
        }
    }
    assert(shapes(out@) =~= shapes(old(out)@) + html_shape(opt_chars_of(*h)));
}

fn push_bytes_item(out: &mut Vec<CapturedItem>, b: &Option<Vec<u8>>, image: bool)
    ensures
        shapes(final(out)@) == shapes(old(out)@) + if image {
            image_shape(opt_bytes_of(*b))
        } else {
            rtf_shape(opt_bytes_of(*b))
        },
{
    if let Some(x) = b {
        if x.len() > 0 {
            if image {
                push_item(out, CapturedItem { image: Some(copy_bytes(x.as_slice())), ..blank_item(PasteType::Image) });
            } else {
                push_item(out, CapturedItem { rtf: Some(copy_bytes(x.as_slice())), ..blank_item(PasteType::Rtf) });
            }
        }
    }
    assert(shapes(out@) =~= shapes(old(out)@) + if image {
        image_shape(opt_bytes_of(*b))
    } else {
        rtf_shape(opt_bytes_of(*b))
    });
}

fn seen_path(paths: &Vec<String>, p: &String) -> (r: bool)
    ensures
        r == paths@.map_values(|q: String| q@).contains(p@),
{
    let mut i: usize = 0;
    while i < paths.len()
        invariant
            i <= paths@.len(),
            forall|j: int| 0 <= j < i ==> paths@[j]@ != p@,
        decreases paths@.len() - i,
    {
        if crate::text::str_eq(paths[i].as_str(), p.as_str()) {
            assert(paths@.map_values(|q: String| q@)[i as int] == p@);
            return true;
        }
        i = i + 1;
    }
    proof {
        if paths@.map_values(|q: String| q@).contains(p@) {
            let m = paths@.map_values(|q: String| q@);
            let j = choose|j: int| 0 <= j < m.len() && #[trigger] m[j] == p@;
            assert(paths@[j]@ == p@);
        }
    }
    false
}

/// The captured items of one macOS copy; nothing when it offered none.
pub fn captured_from_mac(f: &MacFormats) -> (r: Option<CapturedPasteboard>)
    ensures
        match r {
            Some(c) => shapes(c.items@) == mac_shapes(*f) && c.items@.len() > 0,
            None => mac_shapes(*f).len() == 0,
        },
{
    let mut out: Vec<CapturedItem> = Vec::new();
    let ghost names = f.file_paths@.map_values(|p: String| p@);
    if !f.skip_files {
        let mut kept: Vec<String> = Vec::new();
        let mut i: usize = 0;
        assert(names.subrange(0, 0) =~= Seq::<Seq<char>>::empty());
        while i < f.file_paths.len()
            invariant
                i <= f.file_paths@.len(),
                names == f.file_paths@.map_values(|p: String| p@),
                kept@.map_values(|p: String| p@) == dedup(names.subrange(0, i as int)),
                shapes(out@) == file_shapes(dedup(names.subrange(0, i as int))),
            decreases f.file_paths@.len() - i,
        {
            let p = &f.file_paths[i];
            assert(names.subrange(0, i as int + 1).drop_last() =~= names.subrange(0, i as int));
            assert(names.subrange(0, i as int + 1).last() == p@);
            if !seen_path(&kept, p) {
                kept.push(p.clone());
                push_item(&mut out, CapturedItem { file_path: Some(p.clone()), ..blank_item(PasteType::File) });
                assert(kept@.map_values(|q: String| q@) =~= dedup(names.subrange(0, i as int + 1)));
                assert(shapes(out@) =~= file_shapes(dedup(names.subrange(0, i as int + 1))));
            }
            i = i + 1;
        }
        assert(names.subrange(0, names.len() as int) =~= names);
    }
    let no_files = out.len() == 0;
    let ghost files_part = shapes(out@);
    push_html_item(&mut out, &f.html);
    push_bytes_item(&mut out, &f.rtf, false);
    if no_files {
        match &f.png {
            Some(_) => push_bytes_item(&mut out, &f.png, true),
            None => push_bytes_item(&mut out, &f.tiff, true),
        }
    }
    if let Some(u) = &f.url {
        let uv = str_chars(u.as_str());
        let prefix = str_chars("file:");
        if uv.len() > 0 && !crate::text::matches_at_exec(&uv, 0, &prefix) {
            push_item(&mut out, CapturedItem { url: Some(u.clone()), ..blank_item(PasteType::Url) });
        }
    }
    if let Some(t) = &f.text {
        push_text_items(&mut out, t);
    }
    assert(shapes(out@) =~= mac_shapes(*f));
    if out.len() == 0 {
        None
    } else {
        Some(CapturedPasteboard { items: out })
    }
}

/// What the Windows clipboard offered for one copy: the existing files of
/// its drop list (in order), its `PNG`, `HTML Format`, `Rich Text Format`
/// and `CF_UNICODETEXT` data, and whether a file promise of this app is on
/// it.
pub struct WindowsFormats {
    pub skip_files: bool,
    pub file_paths: Vec<String>,
    pub png: Option<Vec<u8>>,
    pub html_format: Option<Vec<u8>>,
    pub rtf: Option<Vec<u8>>,
    pub unicode_text: Option<Vec<u8>>,
}

/// The items of non-empty Windows text: a URL item (trimmed) when it is a
/// web address, then the colour and text items.
pub open spec fn win_text_shapes(t: Seq<char>) -> Seq<ItemShape> {
    if t.len() == 0 {
        seq![]
    } else {
        (if url_like(t) {
            seq![ItemShape { url: Some(crate::text::trim_seq(t)), ..blank(PasteType::Url) }]
        } else {
            seq![]
        }) + text_shapes(t)
    }
}

/// The items one Windows copy becomes: its files; its PNG image when there
/// is no file; the HTML of its `HTML Format` and its RTF when not empty;
/// and the items of its text.
pub open spec fn windows_shapes(f: WindowsFormats) -> Seq<ItemShape> {
    let files = if f.skip_files {
        seq![]
    } else {
        file_shapes(f.file_paths@.map_values(|p: String| p@))
    };
    files + (if files.len() == 0 {
        image_shape(opt_bytes_of(f.png))
    } else {
        seq![]
    }) + match f.html_format {
        Some(b) => html_shape(parse_cf_html(b@)),
        None => seq![],
    } + rtf_shape(opt_bytes_of(f.rtf)) + match f.unicode_text {
        Some(b) => win_text_shapes(utf16_lossy(le_units(b@, 0))),
        None => seq![],
    }
}

fn push_win_text(out: &mut Vec<CapturedItem>, b: &[u8])
    ensures
        shapes(final(out)@) == shapes(old(out)@) + win_text_shapes(utf16_lossy(le_units(b@, 0))),
{
    let text = bytes_to_utf16_string(b);
    let tv = str_chars(text.as_str());
    if tv.len() > 0 {
        if looks_like_url(text.as_str()) {
            let t = crate::text::trim_range(&tv, 0, tv.len());
            assert(tv@.subrange(0, tv@.len() as int) =~= tv@);
            push_item(out, CapturedItem { url: Some(string_from_chars(&t)), ..blank_item(PasteType::Url) });
        }
        push_text_items(out, &text);
    }
    assert(shapes(out@) =~= shapes(old(out)@) + win_text_shapes(utf16_lossy(le_units(b@, 0))));
}

/// The captured items of one Windows copy; nothing when it offered none.
pub fn captured_from_windows(f: &WindowsFormats) -> (r: Option<CapturedPasteboard>)
    ensures
        match r {
            Some(c) => shapes(c.items@) == windows_shapes(*f) && c.items@.len() > 0,
            None => windows_shapes(*f).len() == 0,
        },
{
    let mut out: Vec<CapturedItem> = Vec::new();
    let ghost names = f.file_paths@.map_values(|p: String| p@);
    if !f.skip_files {
        let mut i: usize = 0;
        while i < f.file_paths.len()
            invariant
                i <= f.file_paths@.len(),
                names == f.file_paths@.map_values(|p: String| p@),
                shapes(out@) == file_shapes(names.subrange(0, i as int)),
            decreases f.file_paths@.len() - i,
        {
            push_item(&mut out, CapturedItem { file_path: Some(f.file_paths[i].clone()), ..blank_item(PasteType::File) });
            i = i + 1;
            assert(shapes(out@) =~= file_shapes(names.subrange(0, i as int)));
        }
        assert(names.subrange(0, names.len() as int) =~= names);
    }
    if out.len() == 0 {
        push_bytes_item(&mut out, &f.png, true);
    }
    if let Some(b) = &f.html_format {
        let h = parse_html_format(b.as_slice());
        push_html_item(&mut out, &h);
    }
    push_bytes_item(&mut out, &f.rtf, false);
    if let Some(b) = &f.unicode_text {
        push_win_text(&mut out, b.as_slice());
    }
    assert(shapes(out@) =~= windows_shapes(*f));
    if out.len() == 0 {
        None
    } else {
        Some(CapturedPasteboard { items: out })
    }
}

/// The Windows clipboard formats an entry is written in.
#[derive(Clone, Copy, Debug, PartialEq, Eq, Structural)]
pub enum WinFormat {
    /// `CF_HDROP`
    Hdrop,
    /// `PNG`
    Png,
    /// `HTML Format`
    Html,
    /// `Rich Text Format`
    Rtf,
    /// `CF_UNICODETEXT`
    UnicodeText,
}

/// What writing a payload puts on the Windows clipboard, in order: its files
/// as a drop list, its PNG, its HTML in the fragment envelope, its RTF, and
/// its text (else its URL) as UTF-16.
pub open spec fn win_writes(p: PayloadModel) -> Seq<(WinFormat, Seq<u8>)> {
    (if p.file_paths.len() > 0 {
        seq![(WinFormat::Hdrop, hdrop_of(p.file_paths))]
    } else {
        seq![]
    }) + match p.image_png {
        Some(b) => seq![(WinFormat::Png, b)],
        None => seq![],
    } + match p.html {
        Some(h) => seq![(WinFormat::Html, cf_html_payload(h))],
        None => seq![],
    } + match p.rtf {
        Some(b) => seq![(WinFormat::Rtf, b)],
        None => seq![],
    } + match (if p.text is Some {
        p.text
    } else {
        p.url
    }) {
        Some(t) => seq![(WinFormat::UnicodeText, le_bytes(utf16_of(t).push(0u16)))],
        None => seq![],
    }
}

pub open spec fn writes_view(w: Seq<(WinFormat, Vec<u8>)>) -> Seq<(WinFormat, Seq<u8>)> {
    w.map_values(|e: (WinFormat, Vec<u8>)| (e.0, e.1@))
}

fn push_write(out: &mut Vec<(WinFormat, Vec<u8>)>, f: WinFormat, b: Vec<u8>)
    ensures
        writes_view(final(out)@) == writes_view(old(out)@).push((f, b@)),
{
    out.push((f, b));
    assert(writes_view(out@) =~= writes_view(old(out)@).push((f, b@)));
}

/// The formats and bytes that write a payload to the Windows clipboard.
pub fn windows_write_formats(p: &WritePayload) -> (r: Vec<(WinFormat, Vec<u8>)>)
    requires
        p.html matches Some(h) ==> encode_utf8(h@).len() + 1000 <= u64::MAX,
    ensures
        writes_view(r@) == win_writes(p.model()),
{
    let mut out: Vec<(WinFormat, Vec<u8>)> = Vec::new();
    if p.file_paths.len() > 0 {
        let b = hdrop_bytes(p.file_paths.as_slice());
        push_write(&mut out, WinFormat::Hdrop, b);
    }
    let ghost a = writes_view(out@);
    if let Some(png) = &p.image_png {
        push_write(&mut out, WinFormat::Png, copy_bytes(png.as_slice()));
    }
    if let Some(h) = &p.html {
        push_write(&mut out, WinFormat::Html, html_clipboard_payload(h.as_str()));
    }
    if let Some(rtf) = &p.rtf {
        push_write(&mut out, WinFormat::Rtf, copy_bytes(rtf.as_slice()));
    }
    let text = match &p.text {
        Some(t) => Some(t),
        None => p.url.as_ref(),
    };
    if let Some(t) = text {
        push_write(&mut out, WinFormat::UnicodeText, utf16_bytes_nul(t.as_str()));
    }
    assert(writes_view(out@) =~= win_writes(p.model()));
    out
}

/// One thing written to the macOS pasteboard.
#[derive(Debug)]
pub enum MacWrite {
    /// File URLs of these paths.
    Files(Vec<String>),
    /// `NSPasteboardTypePNG` data.
    Png(Vec<u8>),
    /// `NSPasteboardTypeHTML` string.
    Html(String),
    /// `NSPasteboardTypeRTF` data.
    Rtf(Vec<u8>),
    /// `NSPasteboardTypeURL` string.
    Url(String),
    /// `NSPasteboardTypeString` string.
    Text(String),
}

/// A pasteboard write as plain values.
pub enum MacWriteView {
    Files(Seq<Seq<char>>),
    Png(Seq<u8>),
    Html(Seq<char>),
    Rtf(Seq<u8>),
    Url(Seq<char>),
    Text(Seq<char>),
}

pub open spec fn mac_write_view(w: MacWrite) -> MacWriteView {
    match w {
        MacWrite::Files(p) => MacWriteView::Files(p@.map_values(|x: String| x@)),
        MacWrite::Png(b) => MacWriteView::Png(b@),
        MacWrite::Html(h) => MacWriteView::Html(h@),
        MacWrite::Rtf(b) => MacWriteView::Rtf(b@),
        MacWrite::Url(u) => MacWriteView::Url(u@),
        MacWrite::Text(t) => MacWriteView::Text(t@),
    }
}

pub open spec fn mac_writes_view(w: Seq<MacWrite>) -> Seq<MacWriteView> {
    w.map_values(|e: MacWrite| mac_write_view(e))
}

/// What writing a payload puts on the macOS pasteboard, in order: its files,
/// PNG, HTML and RTF; its URL, also as the plain string when it has no
/// text; and its text.
pub open spec fn mac_writes(p: PayloadModel) -> Seq<MacWriteView> {
    (if p.file_paths.len() > 0 {
        seq![MacWriteView::Files(p.file_paths)]
    } else {
        seq![]
    }) + match p.image_png {
        Some(b) => seq![MacWriteView::Png(b)],
        None => seq![],
    } + match p.html {
        Some(h) => seq![MacWriteView::Html(h)],
        None => seq![],
    } + match p.rtf {
        Some(b) => seq![MacWriteView::Rtf(b)],
        None => seq![],
    } + match p.url {
        Some(u) => if p.text is None {
            seq![MacWriteView::Url(u), MacWriteView::Text(u)]
        } else {
            seq![MacWriteView::Url(u)]
        },
        None => seq![],
    } + match p.text {
        Some(t) => seq![MacWriteView::Text(t)],
        None => seq![],
    }
}

fn push_mac(out: &mut Vec<MacWrite>, w: MacWrite)
    ensures
        mac_writes_view(final(out)@) == mac_writes_view(old(out)@).push(mac_write_view(w)),
{
    let ghost v = mac_write_view(w);
    out.push(w);
    assert(mac_writes_view(out@) =~= mac_writes_view(old(out)@).push(v));
}

fn copy_strings(v: &Vec<String>) -> (r: Vec<String>)
    ensures
        r@.map_values(|x: String| x@) == v@.map_values(|x: String| x@),
{
    let mut out: Vec<String> = Vec::new();
    let mut i: usize = 0;
    while i < v.len()
        invariant
            i <= v@.len(),
            out@.map_values(|x: String| x@) == v@.subrange(0, i as int).map_values(|x: String| x@),
        decreases v@.len() - i,
    {
        let ghost before = out@;
        let c = v[i].clone();
        assert(c@ == v@[i as int]@);
        out.push(c);
        proof {
            let f = |x: String| x@;
            assert(before.map_values(f) == v@.subrange(0, i as int).map_values(f));
            assert forall|k: int| 0 <= k < i + 1 implies #[trigger] out@.map_values(f)[k]
                == v@.subrange(0, i + 1).map_values(f)[k] by {
                if k < i {
                    assert(out@[k] == before[k]);
                    assert(before.map_values(f)[k] == v@.subrange(0, i as int).map_values(f)[k]);
                }
            }
            assert(out@.map_values(f) =~= v@.subrange(0, i + 1).map_values(f));
        }
        i = i + 1;
    }
    assert(v@.subrange(0, v@.len() as int) =~= v@);
    out
}

/// What writing a payload puts on the macOS pasteboard.
pub fn mac_write_plan(p: &WritePayload) -> (r: Vec<MacWrite>)
    ensures
        mac_writes_view(r@) == mac_writes(p.model()),
{
    let mut out: Vec<MacWrite> = Vec::new();
    if p.file_paths.len() > 0 {
        push_mac(&mut out, MacWrite::Files(copy_strings(&p.file_paths)));
    }
    if let Some(png) = &p.image_png {
        push_mac(&mut out, MacWrite::Png(copy_bytes(png.as_slice())));
    }
    if let Some(h) = &p.html {
        push_mac(&mut out, MacWrite::Html(h.clone()));
    }
    if let Some(rtf) = &p.rtf {
        push_mac(&mut out, MacWrite::Rtf(copy_bytes(rtf.as_slice())));
    }
    if let Some(u) = &p.url {
        push_mac(&mut out, MacWrite::Url(u.clone()));
        if p.text.is_none() {
            push_mac(&mut out, MacWrite::Text(u.clone()));
        }
    }
    if let Some(t) = &p.text {
        push_mac(&mut out, MacWrite::Text(t.clone()));
    }
    assert(mac_writes_view(out@) =~= mac_writes(p.model()));
    out
}

} // verus!
