//! Reading clipboard HTML: the visible text, character references, tag names
//! and whether the markup carries structure (links, images, tables, ...) or is
//! only a styled wrapper around plain text.

use vstd::prelude::*;
use crate::text::{
    char_from_u32, chars_eq, chars_eq_str, find_char, find_char_from, find_seq, find_seq_from, is_scalar_value,
    is_whitespace, is_ws, lemma_find_char, lemma_find_seq, lower_chars, lower_seq, matches_at,
    matches_at_exec, parse_u32_radix, parse_u32_range, push_all, push_range, str_chars,
    string_from_chars, sub_chars, trim_range, trim_seq, utf8_len, utf8_len_exceeds,
};

verus! {

/// The character a named or numeric character reference stands for
/// (`nbsp`, `lt`, `gt`, `amp`, `quot`, `apos`, `#39`, `#NNN`, `#xHH`).
pub open spec fn entity_char(ent: Seq<char>) -> Option<char> {
    if ent == "nbsp"@ {
        Some('\u{a0}')
    } else if ent == "lt"@ {
        Some('<')
    } else if ent == "gt"@ {
        Some('>')
    } else if ent == "amp"@ {
        Some('&')
    } else if ent == "quot"@ {
        Some('"')
    } else if ent == "apos"@ || ent == "#39"@ {
        Some('\'')
    } else if ent.len() > 0 && ent[0] == '#' {
        let num = if ent.len() >= 2 && (ent[1] == 'x' || ent[1] == 'X') {
            parse_u32_radix(ent.skip(2), 16)
        } else {
            parse_u32_radix(ent.skip(1), 10)
        };
        match num {
            Some(n) => if is_scalar_value(n) {
                Some(n as char)
            } else {
                None
            },
            None => None,
        }
    } else {
        None
    }
}

/// `entity_char` of `v[from..to]`.
pub fn entity_char_exec(v: &[char], from: usize, to: usize) -> (r: Option<char>)
    requires
        from <= to <= v@.len(),
    ensures
        r == entity_char(v@.subrange(from as int, to as int)),
{
    let ent = sub_chars(v, from, to);
    if chars_eq_str(&ent, "nbsp") {
        Some('\u{a0}')
    } else if chars_eq_str(&ent, "lt") {
        Some('<')
    } else if chars_eq_str(&ent, "gt") {
        Some('>')
    } else if chars_eq_str(&ent, "amp") {
        Some('&')
    } else if chars_eq_str(&ent, "quot") {
        Some('"')
    } else if chars_eq_str(&ent, "apos") || chars_eq_str(&ent, "#39") {
        Some('\'')
    } else if ent.len() > 0 && ent[0] == '#' {
        let num = if ent.len() >= 2 && (ent[1] == 'x' || ent[1] == 'X') {
            assert(ent@.skip(2) =~= ent@.subrange(2, ent@.len() as int));
            parse_u32_range(&ent, 2, ent.len(), 16)
        } else {
            assert(ent@.skip(1) =~= ent@.subrange(1, ent@.len() as int));
            parse_u32_range(&ent, 1, ent.len(), 10)
        };
        match num {
            Some(n) => {
                let r = char_from_u32(n);
                proof {
                    if let Some(c) = r {
                        vstd::utf8::char_u32_cast(c, n);
                    }
                }
                r
            },
            None => None,
        }
    } else {
        None
    }
}

/// Text with its character references replaced, from index `i` on (as
/// `decode_entities_push` does it: a reference is at most 32 bytes long from
/// `&` to `;`, and an unknown one stays as written).
pub open spec fn decode_entities(s: Seq<char>, i: int) -> Seq<char>
    decreases s.len() - i,
{
    if i < 0 || i >= s.len() {
        seq![]
    } else {
        match find_char(s, '&', i) {
            None => s.subrange(i, s.len() as int),
            Some(a) => {
                proof {
                    lemma_find_char(s, '&', i);
                    lemma_find_char(s, ';', a);
                }
                match find_char(s, ';', a) {
                    None => s.subrange(i, s.len() as int),
                    Some(b) => if utf8_len(s.subrange(a, b)) > 32 {
                        s.subrange(i, a).push('&') + decode_entities(s, a + 1)
                    } else {
                        match entity_char(s.subrange(a + 1, b)) {
                            Some(ch) => s.subrange(i, a).push(ch) + decode_entities(s, b + 1),
                            None => s.subrange(i, b + 1) + decode_entities(s, b + 1),
                        }
                    },
                }
            },
        }
    }
}

/// Text that holds no markup and no character reference: no `<` and no `&`.
pub open spec fn plain_text(s: Seq<char>) -> bool {
    forall|j: int| 0 <= j < s.len() ==> s[j] != '<' && s[j] != '&'
}

proof fn lemma_reference_decodes(a: Seq<char>, b: Seq<char>, name: Seq<char>, c: char)
    requires
        plain_text(a),
        plain_text(b),
        0 < name.len() <= 7,
        forall|j: int| 0 <= j < name.len() ==> name[j] != '<' && name[j] != '&' && name[j] != ';',
        entity_char(name) == Some(c),
    ensures
        html_text(a + seq!['&'] + name + seq![';'] + b, 0) == a.push(c) + b,
{
    let s = a + seq!['&'] + name + seq![';'] + b;
    let ka = a.len() as int;
    let kb = ka + 1 + name.len();
    assert forall|j: int| 0 <= j < s.len() implies s[j] != '<' by {
        if j < ka {
            assert(s[j] == a[j]);
        } else if j == ka {
        } else if j < kb {
            assert(s[j] == name[j - ka - 1]);
        } else if j == kb {
        } else {
            assert(s[j] == b[j - kb - 1]);
        }
    }
    crate::text::lemma_find_char_none(s, '<', 0);
    assert(s.subrange(0, s.len() as int) =~= s);
    assert forall|j: int| 0 <= j < ka implies s[j] != '&' by {
        assert(s[j] == a[j]);
    }
    crate::text::lemma_find_char_at(s, '&', 0, ka);
    assert forall|j: int| ka <= j < kb implies s[j] != ';' by {
        if j > ka {
            assert(s[j] == name[j - ka - 1]);
        }
    }
    crate::text::lemma_find_char_at(s, ';', ka, kb);
    crate::text::lemma_utf8_len_bound(s.subrange(ka, kb));
    assert(s.subrange(ka + 1, kb) =~= name);
    assert(s.subrange(0, ka) =~= a);
    assert forall|j: int| kb + 1 <= j < s.len() implies s[j] != '&' by {
        assert(s[j] == b[j - kb - 1]);
    }
    if kb + 1 < s.len() {
        crate::text::lemma_find_char_none(s, '&', kb + 1);
        assert(s.subrange(kb + 1, s.len() as int) =~= b);
    } else {
        assert(b.len() == 0);
    }
    assert(decode_entities(s, 0) == s.subrange(0, ka).push(c) + decode_entities(s, kb + 1));
}

/// The named character references decode to their characters wherever they
/// stand in text: `&nbsp;` to U+00A0, `&lt;` to `<`, `&gt;` to `>`, `&amp;`
/// to `&`, `&quot;` to `"` and `&apos;` to `'`.
pub proof fn lemma_named_references_decode(a: Seq<char>, b: Seq<char>)
    requires
        plain_text(a),
        plain_text(b),
    ensures
        html_text(a + "&nbsp;"@ + b, 0) == a.push('\u{a0}') + b,
        html_text(a + "&lt;"@ + b, 0) == a.push('<') + b,
        html_text(a + "&gt;"@ + b, 0) == a.push('>') + b,
        html_text(a + "&amp;"@ + b, 0) == a.push('&') + b,
        html_text(a + "&quot;"@ + b, 0) == a.push('"') + b,
        html_text(a + "&apos;"@ + b, 0) == a.push('\'') + b,
{
    reveal_strlit("nbsp");
    reveal_strlit("lt");
    reveal_strlit("gt");
    reveal_strlit("amp");
    reveal_strlit("quot");
    reveal_strlit("apos");
    reveal_strlit("#39");
    reveal_strlit("&nbsp;");
    reveal_strlit("&lt;");
    reveal_strlit("&gt;");
    reveal_strlit("&amp;");
    reveal_strlit("&quot;");
    reveal_strlit("&apos;");
    let nbsp = seq!['n', 'b', 's', 'p'];
    let lt = seq!['l', 't'];
    let gt = seq!['g', 't'];
    let amp = seq!['a', 'm', 'p'];
    let quot = seq!['q', 'u', 'o', 't'];
    let apos = seq!['a', 'p', 'o', 's'];
    assert("nbsp"@ =~= nbsp);
    assert("lt"@ =~= lt);
    assert("gt"@ =~= gt);
    assert("amp"@ =~= amp);
    assert("quot"@ =~= quot);
    assert("apos"@ =~= apos);
    assert(lt != nbsp);
    assert(gt != nbsp && gt != lt) by {
        assert(gt[0] != lt[0]);
    }
    assert(amp != nbsp && amp != lt && amp != gt);
    assert(quot != nbsp) by {
        assert(quot[0] != nbsp[0]);
    }
    assert(quot != lt && quot != gt && quot != amp);
    assert(apos != nbsp && apos != quot) by {
        assert(apos[0] != nbsp[0]);
        assert(apos[0] != quot[0]);
    }
    assert(apos != lt && apos != gt && apos != amp);
    assert(entity_char(nbsp) == Some('\u{a0}'));
    assert(entity_char(lt) == Some('<'));
    assert(entity_char(gt) == Some('>'));
    assert(entity_char(amp) == Some('&'));
    assert(entity_char(quot) == Some('"'));
    assert(entity_char(apos) == Some('\''));
    assert("&nbsp;"@ =~= seq!['&'] + nbsp + seq![';']);
    assert("&lt;"@ =~= seq!['&'] + lt + seq![';']);
    assert("&gt;"@ =~= seq!['&'] + gt + seq![';']);
    assert("&amp;"@ =~= seq!['&'] + amp + seq![';']);
    assert("&quot;"@ =~= seq!['&'] + quot + seq![';']);
    assert("&apos;"@ =~= seq!['&'] + apos + seq![';']);
    assert(a + "&nbsp;"@ + b =~= a + seq!['&'] + nbsp + seq![';'] + b);
    assert(a + "&lt;"@ + b =~= a + seq!['&'] + lt + seq![';'] + b);
    assert(a + "&gt;"@ + b =~= a + seq!['&'] + gt + seq![';'] + b);
    assert(a + "&amp;"@ + b =~= a + seq!['&'] + amp + seq![';'] + b);
    assert(a + "&quot;"@ + b =~= a + seq!['&'] + quot + seq![';'] + b);
    assert(a + "&apos;"@ + b =~= a + seq!['&'] + apos + seq![';'] + b);
    lemma_reference_decodes(a, b, nbsp, '\u{a0}');
    lemma_reference_decodes(a, b, lt, '<');
    lemma_reference_decodes(a, b, gt, '>');
    lemma_reference_decodes(a, b, amp, '&');
    lemma_reference_decodes(a, b, quot, '"');
    lemma_reference_decodes(a, b, apos, '\'');
}

/// `decode_entities` of a whole segment.
pub fn decode_entities_exec(seg: &[char]) -> (r: Vec<char>)
    ensures
        r@ == decode_entities(seg@, 0),
{
    let n = seg.len();
    let mut out: Vec<char> = Vec::new();
    let mut p: usize = 0;
    while p < n
        invariant
            n == seg@.len(),
            p <= n,
            out@ + decode_entities(seg@, p as int) == decode_entities(seg@, 0),
        decreases n - p,
    {
        let ghost before = out@;
        let ghost start_p = p as int;
        proof {
            lemma_find_char(seg@, '&', p as int);
        }
        match find_char_from(seg, '&', p) {
            None => {
                push_range(&mut out, seg, p, n);
                assert(decode_entities(seg@, n as int) =~= seq![]);
                p = n;
                assert(out@ + decode_entities(seg@, p as int) =~= before + decode_entities(
                    seg@,
                    start_p,
                ));
            },
            Some(a) => {
                proof {
                    lemma_find_char(seg@, ';', a as int);
                }
                match find_char_from(seg, ';', a) {
                    None => {
                        push_range(&mut out, seg, p, n);
                        p = n;
                        assert(decode_entities(seg@, n as int) =~= seq![]);
                        assert(out@ + decode_entities(seg@, p as int) =~= out@);
                    },
                    Some(b) => {
                        let ghost old_p = p;
                        if utf8_len_exceeds(seg, a, b, 32) {
                            push_range(&mut out, seg, p, a);
                            out.push('&');
                            p = a + 1;
                            assert(out@ + decode_entities(seg@, p as int) =~= before + (seg@.subrange(
                                old_p as int,
                                a as int,
                            ).push('&') + decode_entities(seg@, p as int)));
                        } else {
                            match entity_char_exec(seg, a + 1, b) {
                                Some(ch) => {
                                    push_range(&mut out, seg, p, a);
                                    out.push(ch);
                                    p = b + 1;
                                    assert(out@ + decode_entities(seg@, p as int) =~= before + (
                                    seg@.subrange(old_p as int, a as int).push(ch)
                                        + decode_entities(seg@, p as int)));
                                },
                                None => {
                                    push_range(&mut out, seg, p, b + 1);
                                    p = b + 1;
                                    assert(out@ + decode_entities(seg@, p as int) =~= before + (
                                    seg@.subrange(old_p as int, b + 1) + decode_entities(
                                        seg@,
                                        p as int,
                                    )));
                                },
                            }
                        }
                    },
                }
            },
        }
    }
    assert(decode_entities(seg@, p as int) =~= seq![]);
    assert(out@ =~= out@ + decode_entities(seg@, p as int));
    out
}

/// First index at or after `i` that is not `/`.
pub open spec fn skip_slashes(s: Seq<char>, i: int) -> int
    decreases s.len() - i,
{
    if 0 <= i < s.len() && s[i] == '/' {
        skip_slashes(s, i + 1)
    } else {
        i
    }
}

/// First index at or after `i` holding whitespace or `/`, or the length.
pub open spec fn name_end(s: Seq<char>, i: int) -> int
    decreases s.len() - i,
{
    if i < 0 || i >= s.len() {
        s.len() as int
    } else if is_ws(s[i]) || s[i] == '/' {
        i
    } else {
        name_end(s, i + 1)
    }
}

/// The lower-cased name of a tag, given what stands between `<` and `>`.
pub open spec fn tag_name(t: Seq<char>) -> Seq<char> {
    let tr = trim_seq(t);
    let a = skip_slashes(tr, 0);
    lower_seq(tr.subrange(a, name_end(tr, a)))
}

proof fn lemma_skip_slashes(s: Seq<char>, i: int)
    requires
        0 <= i <= s.len(),
    ensures
        i <= skip_slashes(s, i) <= s.len(),
    decreases s.len() - i,
{
    if i < s.len() && s[i] == '/' {
        lemma_skip_slashes(s, i + 1);
    }
}

proof fn lemma_name_end(s: Seq<char>, i: int)
    requires
        0 <= i <= s.len(),
    ensures
        i <= name_end(s, i) <= s.len(),
    decreases s.len() - i,
{
    if i < s.len() && !(is_ws(s[i]) || s[i] == '/') {
        lemma_name_end(s, i + 1);
    }
}

/// `tag_name` of `v[from..to]`.
pub fn tag_name_of(v: &[char], from: usize, to: usize) -> (r: Vec<char>)
    requires
        from <= to <= v@.len(),
    ensures
        r@ == tag_name(v@.subrange(from as int, to as int)),
{
    let tr = trim_range(v, from, to);
    let mut a: usize = 0;
    while a < tr.len() && tr[a] == '/'
        invariant
            a <= tr@.len(),
            skip_slashes(tr@, 0) == skip_slashes(tr@, a as int),
        decreases tr@.len() - a,
    {
        a = a + 1;
    }
    let mut e: usize = a;
    while e < tr.len() && !(is_whitespace(tr[e]) || tr[e] == '/')
        invariant
            a <= e <= tr@.len(),
            name_end(tr@, a as int) == name_end(tr@, e as int),
        decreases tr@.len() - e,
    {
        e = e + 1;
    }
    let name = sub_chars(&tr, a, e);
    lower_chars(&name)
}

/// Tags whose content is never shown: `script`, `style`, `head`, `noscript`.
pub open spec fn is_hidden_tag(name: Seq<char>) -> bool {
    name == "script"@ || name == "style"@ || name == "head"@ || name == "noscript"@
}

fn is_hidden_tag_exec(name: &[char]) -> (r: bool)
    ensures
        r == is_hidden_tag(name@),
{
    chars_eq_str(name, "script") || chars_eq_str(name, "style") || chars_eq_str(name, "head")
        || chars_eq_str(name, "noscript")
}

/// Tags that start a new line of visible text.
pub open spec fn is_break_tag(name: Seq<char>) -> bool {
    ||| name == "br"@
    ||| name == "p"@
    ||| name == "div"@
    ||| name == "tr"@
    ||| name == "li"@
    ||| name == "h1"@
    ||| name == "h2"@
    ||| name == "h3"@
    ||| name == "h4"@
    ||| name == "h5"@
    ||| name == "h6"@
    ||| name == "blockquote"@
    ||| name == "pre"@
    ||| name == "hr"@
    ||| name == "dt"@
    ||| name == "dd"@
    ||| name == "section"@
    ||| name == "article"@
    ||| name == "header"@
    ||| name == "footer"@
    ||| name == "nav"@
    ||| name == "figure"@
    ||| name == "figcaption"@
}

pub fn is_block_or_break(name: &[char]) -> (r: bool)
    ensures
        r == is_break_tag(name@),
{
    chars_eq_str(name, "br") || chars_eq_str(name, "p") || chars_eq_str(name, "div")
        || chars_eq_str(name, "tr") || chars_eq_str(name, "li") || chars_eq_str(name, "h1")
        || chars_eq_str(name, "h2") || chars_eq_str(name, "h3") || chars_eq_str(name, "h4")
        || chars_eq_str(name, "h5") || chars_eq_str(name, "h6") || chars_eq_str(name, "blockquote")
        || chars_eq_str(name, "pre") || chars_eq_str(name, "hr") || chars_eq_str(name, "dt")
        || chars_eq_str(name, "dd") || chars_eq_str(name, "section") || chars_eq_str(
        name,
        "article",
    ) || chars_eq_str(name, "header") || chars_eq_str(name, "footer") || chars_eq_str(name, "nav")
        || chars_eq_str(name, "figure") || chars_eq_str(name, "figcaption")
}

pub open spec fn comment_open() -> Seq<char> {
    seq!['<', '!', '-', '-']
}

pub open spec fn comment_close() -> Seq<char> {
    seq!['-', '-', '>']
}

/// `</name>`.
pub open spec fn closing_tag(name: Seq<char>) -> Seq<char> {
    seq!['<', '/'] + name + seq!['>']
}

/// The visible text of HTML from index `i` on: text between tags with its
/// character references decoded, comments and the content of hidden tags
/// dropped, a line break for each block or break tag. An unterminated tag
/// ends the text.
pub open spec fn html_text(s: Seq<char>, i: int) -> Seq<char>
    decreases s.len() - i,
{
    if i < 0 || i >= s.len() {
        seq![]
    } else {
        match find_char(s, '<', i) {
            None => decode_entities(s.subrange(i, s.len() as int), 0),
            Some(a) => {
                proof {
                    lemma_find_char(s, '<', i);
                    lemma_find_seq(s, comment_close(), a + 4);
                    lemma_find_char(s, '>', a);
                }
                let pre = decode_entities(s.subrange(i, a), 0);
                if matches_at(s, a, comment_open()) {
                    match find_seq(s, comment_close(), a + 4) {
                        Some(b) => pre + html_text(s, b + 3),
                        None => pre,
                    }
                } else {
                    match find_char(s, '>', a) {
                        None => pre,
                        Some(e) => {
                            let name = tag_name(s.subrange(a + 1, e));
                            proof {
                                lemma_find_seq(lower_seq(s), closing_tag(name), e + 1);
                            }
                            if is_hidden_tag(name) {
                                match find_seq(lower_seq(s), closing_tag(name), e + 1) {
                                    Some(k) => pre + html_text(s, k + closing_tag(name).len()),
                                    None => pre,
                                }
                            } else if is_break_tag(name) {
                                pre.push('\n') + html_text(s, e + 1)
                            } else {
                                pre + html_text(s, e + 1)
                            }
                        },
                    }
                }
            },
        }
    }
}

/// Visible text from clipboard HTML, skipping head/script/style and comments.
pub fn html_visible_text(html: &str) -> (r: String)
    ensures
        r@ == html_text(html@, 0),
{
    let s = str_chars(html);
    let low = lower_chars(&s);
    let n = s.len();
    let copen: Vec<char> = vec!['<', '!', '-', '-'];
    let cclose: Vec<char> = vec!['-', '-', '>'];
    assert(copen@ =~= comment_open());
    assert(cclose@ =~= comment_close());
    let mut out: Vec<char> = Vec::new();
    let mut pos: usize = 0;
    while pos < n
        invariant
            n == s@.len(),
            s@ == html@,
            low@ == lower_seq(s@),
            copen@ == comment_open(),
            cclose@ == comment_close(),
            pos <= n,
            out@ + html_text(s@, pos as int) == html_text(s@, 0),
        decreases n - pos,
    {
        let ghost before = out@;
        let ghost old_pos = pos as int;
        proof {
            lemma_find_char(s@, '<', pos as int);
        }
        match find_char_from(&s, '<', pos) {
            None => {
                let seg = sub_chars(&s, pos, n);
                let d = decode_entities_exec(&seg);
                push_all(&mut out, &d);
                pos = n;
                assert(out@ + html_text(s@, pos as int) =~= before + html_text(s@, old_pos));
            },
            Some(a) => {
                let seg = sub_chars(&s, pos, a);
                let pre = decode_entities_exec(&seg);
                push_all(&mut out, &pre);
                proof {
                    lemma_find_seq(s@, comment_close(), a + 4);
                    lemma_find_char(s@, '>', a as int);
                }
                if matches_at_exec(&s, a, &copen) {
                    match find_seq_from(&s, &cclose, a + 4) {
                        Some(b) => {
                            pos = b + 3;
                            assert(out@ + html_text(s@, pos as int) =~= before + (pre@
                                + html_text(s@, pos as int)));
                        },
                        None => {
                            pos = n;
                            assert(out@ + html_text(s@, pos as int) =~= before + pre@);
                        },
                    }
                } else {
                    match find_char_from(&s, '>', a) {
                        None => {
                            pos = n;
                            assert(out@ + html_text(s@, pos as int) =~= before + pre@);
                        },
                        Some(e) => {
                            let name = tag_name_of(&s, a + 1, e);
                            if is_hidden_tag_exec(&name) {
                                let mut closer: Vec<char> = vec!['<', '/'];
                                push_all(&mut closer, &name);
                                closer.push('>');
                                assert(closer@ =~= closing_tag(name@));
                                proof {
                                    lemma_find_seq(lower_seq(s@), closing_tag(name@), e + 1);
                                }
                                match find_seq_from(&low, &closer, e + 1) {
                                    Some(k) => {
                                        pos = k + closer.len();
                                        assert(out@ + html_text(s@, pos as int) =~= before + (pre@
                                            + html_text(s@, pos as int)));
                                    },
                                    None => {
                                        pos = n;
                                        assert(out@ + html_text(s@, pos as int) =~= before
                                            + pre@);
                                    },
                                }
                            } else if is_block_or_break(&name) {
                                out.push('\n');
                                pos = e + 1;
                                assert(out@ + html_text(s@, pos as int) =~= before + (pre@.push(
                                    '\n',
                                ) + html_text(s@, pos as int)));
                            } else {
                                pos = e + 1;
                                assert(out@ + html_text(s@, pos as int) =~= before + (pre@
                                    + html_text(s@, pos as int)));
                            }
                        },
                    }
                }
            },
        }
    }
    assert(html_text(s@, pos as int) =~= seq![]);
    assert(out@ =~= out@ + html_text(s@, pos as int));
    string_from_chars(&out)
}


/// Whether the character after a tag name at `after` ends the name: end of
/// text, whitespace, `>` or `/`.
pub open spec fn ends_tag_name(l: Seq<char>, after: int) -> bool {
    after >= l.len() || is_ws(l[after]) || l[after] == '>' || l[after] == '/'
}

fn ends_tag_name_exec(l: &[char], after: usize) -> (r: bool)
    ensures
        r == ends_tag_name(l@, after as int),
{
    after >= l.len() || is_whitespace(l[after]) || l[after] == '>' || l[after] == '/'
}

/// Whether `needle` (`<` and a tag name) opens a tag somewhere at or after `from`.
pub open spec fn open_tag_from(l: Seq<char>, needle: Seq<char>, from: int) -> bool
    decreases l.len() + 1 - from,
{
    if from < 0 || from > l.len() || needle.len() == 0 {
        false
    } else {
        proof {
            lemma_find_seq(l, needle, from);
        }
        match find_seq(l, needle, from) {
            None => false,
            Some(i) => if ends_tag_name(l, i + needle.len()) {
                true
            } else {
                open_tag_from(l, needle, i + needle.len())
            },
        }
    }
}

/// Whether lower-cased HTML `l` opens a tag called `name`.
pub open spec fn has_open_tag(l: Seq<char>, name: Seq<char>) -> bool {
    open_tag_from(l, seq!['<'] + name, 0)
}

fn tag_needle(name: &str) -> (r: Vec<char>)
    ensures
        r@ == seq!['<'] + name@,
{
    let mut r: Vec<char> = vec!['<'];
    let n = str_chars(name);
    push_all(&mut r, &n);
    assert(r@ =~= seq!['<'] + name@);
    r
}

pub fn has_open_tag_exec(l: &[char], name: &str) -> (r: bool)
    ensures
        r == has_open_tag(l@, name@),
{
    let needle = tag_needle(name);
    let ln = l.len();
    let mut from: usize = 0;
    loop
        invariant
            ln == l@.len(),
            from <= l@.len(),
            needle@ == seq!['<'] + name@,
            has_open_tag(l@, name@) == open_tag_from(l@, needle@, from as int),
        decreases l@.len() + 1 - from,
    {
        proof {
            lemma_find_seq(l@, needle@, from as int);
        }
        match find_seq_from(l, &needle, from) {
            None => {
                return false;
            },
            Some(i) => {
                let after = i + needle.len();
                if ends_tag_name_exec(l, after) {
                    return true;
                }
                from = after;
            },
        }
    }
}

/// Whether attribute `attr` stands as a whole word in `a` at or after `from`.
pub open spec fn attr_from(a: Seq<char>, attr: Seq<char>, from: int) -> bool
    decreases a.len() + 1 - from,
{
    if from < 0 || from > a.len() || attr.len() == 0 {
        false
    } else {
        proof {
            lemma_find_seq(a, attr, from);
        }
        match find_seq(a, attr, from) {
            None => false,
            Some(k) => {
                let before_ok = k == 0 || is_ws(a[k - 1]) || a[k - 1] == '/';
                let e = k + attr.len();
                let after_ok = e >= a.len() || is_ws(a[e]) || a[e] == '=' || a[e] == '>' || a[e]
                    == '/';
                if before_ok && after_ok {
                    true
                } else {
                    attr_from(a, attr, e)
                }
            },
        }
    }
}

fn attr_from_exec(a: &[char], attr: &[char]) -> (r: bool)
    ensures
        r == attr_from(a@, attr@, 0),
{
    if attr.len() == 0 {
        return false;
    }
    let mut from: usize = 0;
    loop
        invariant
            from <= a@.len(),
            attr@.len() > 0,
            attr_from(a@, attr@, 0) == attr_from(a@, attr@, from as int),
        decreases a@.len() + 1 - from,
    {
        proof {
            lemma_find_seq(a@, attr@, from as int);
        }
        match find_seq_from(a, attr, from) {
            None => {
                return false;
            },
            Some(k) => {
                let before_ok = k == 0 || is_whitespace(a[k - 1]) || a[k - 1] == '/';
                let e = k + attr.len();
                let after_ok = e >= a.len() || is_whitespace(a[e]) || a[e] == '=' || a[e] == '>'
                    || a[e] == '/';
                if before_ok && after_ok {
                    return true;
                }
                from = e;
            },
        }
    }
}

/// The search for an opening tag `needle` carrying attribute `attr`, from byte
/// position `from`: `Some` of the answer, or `None` where the search would
/// slice past the end of the text (an unterminated tag that lacks the
/// attribute, followed by nothing).
pub open spec fn attr_scan(l: Seq<char>, needle: Seq<char>, attr: Seq<char>, from: int) -> Option<
    bool,
>
    decreases l.len() + 1 - from,
{
    if from < 0 || from > l.len() {
        None
    } else if needle.len() == 0 {
        Some(false)
    } else {
        proof {
            lemma_find_seq(l, needle, from);
            lemma_find_char(l, '>', from);
        }
        match find_seq(l, needle, from) {
            None => Some(false),
            Some(i) => {
                let after = i + needle.len();
                if !ends_tag_name(l, after) {
                    attr_scan(l, needle, attr, after)
                } else {
                    let end = match find_char(l, '>', after) {
                        Some(e) => e,
                        None => l.len() as int,
                    };
                    proof {
                        lemma_find_char(l, '>', after);
                    }
                    if attr_from(l.subrange(after, end), attr, 0) {
                        Some(true)
                    } else {
                        attr_scan(l, needle, attr, end + 1)
                    }
                }
            },
        }
    }
}

fn attr_scan_exec(l: &[char], name: &str, attr: &str) -> (r: Option<bool>)
    ensures
        r == attr_scan(l@, seq!['<'] + name@, attr@, 0),
{
    let needle = tag_needle(name);
    let at = str_chars(attr);
    let ln = l.len();
    let mut from: usize = 0;
    loop
        invariant
            ln == l@.len(),
            from <= l@.len() + 1,
            needle@ == seq!['<'] + name@,
            at@ == attr@,
            attr_scan(l@, needle@, at@, 0) == attr_scan(l@, needle@, at@, from as int),
        decreases l@.len() + 1 - from,
    {
        if from > l.len() {
            return None;
        }
        proof {
            lemma_find_seq(l@, needle@, from as int);
        }
        match find_seq_from(l, &needle, from) {
            None => {
                return Some(false);
            },
            Some(i) => {
                let after = i + needle.len();
                if !ends_tag_name_exec(l, after) {
                    from = after;
                } else {
                    proof {
                        lemma_find_char(l@, '>', after as int);
                    }
                    let end = match find_char_from(l, '>', after) {
                        Some(e) => e,
                        None => l.len(),
                    };
                    let attrs = sub_chars(l, after, end);
                    if attr_from_exec(&attrs, &at) {
                        return Some(true);
                    }
                    if end == l.len() {
                        assert(attr_scan(l@, needle@, at@, end + 1) is None);
                        return None;
                    }
                    from = end + 1;
                }
            },
        }
    }
}

/// Whether HTML carries structure rather than styling: a link with `href`,
/// or an `img`, `table`, list, heading, media, frame, object or `svg` tag.
/// `None` where the link search would slice past the end of the text.
pub open spec fn html_rich_scan(html: Seq<char>) -> Option<bool> {
    let l = lower_seq(html);
    match attr_scan(l, seq!['<'] + "a"@, "href"@, 0) {
        None => None,
        Some(true) => Some(true),
        Some(false) => Some(
            has_open_tag(l, "img"@) || has_open_tag(l, "table"@) || has_open_tag(l, "ul"@)
                || has_open_tag(l, "ol"@) || has_open_tag(l, "h1"@) || has_open_tag(l, "h2"@)
                || has_open_tag(l, "h3"@) || has_open_tag(l, "h4"@) || has_open_tag(l, "h5"@)
                || has_open_tag(l, "h6"@) || has_open_tag(l, "video"@) || has_open_tag(l, "audio"@)
                || has_open_tag(l, "iframe"@) || has_open_tag(l, "object"@) || has_open_tag(
                l,
                "svg"@,
            ),
        ),
    }
}

/// `html_rich_scan` of `html`: `None` exactly where `html_has_rich_markup`
/// cannot be asked.
pub fn html_markup_scan(html: &str) -> (r: Option<bool>)
    ensures
        r == html_rich_scan(html@),
{
    let s = str_chars(html);
    let l = lower_chars(&s);
    match attr_scan_exec(&l, "a", "href") {
        None => None,
        Some(true) => Some(true),
        Some(false) => Some(
            has_open_tag_exec(&l, "img") || has_open_tag_exec(&l, "table") || has_open_tag_exec(
                &l,
                "ul",
            ) || has_open_tag_exec(&l, "ol") || has_open_tag_exec(&l, "h1") || has_open_tag_exec(
                &l,
                "h2",
            ) || has_open_tag_exec(&l, "h3") || has_open_tag_exec(&l, "h4") || has_open_tag_exec(
                &l,
                "h5",
            ) || has_open_tag_exec(&l, "h6") || has_open_tag_exec(&l, "video") || has_open_tag_exec(
                &l,
                "audio",
            ) || has_open_tag_exec(&l, "iframe") || has_open_tag_exec(&l, "object")
                || has_open_tag_exec(&l, "svg"),
        ),
    }
}

/// Links, images, tables, lists, headings: not a styled-span wrapper.
pub fn html_has_rich_markup(html: &str) -> (r: bool)
    requires
        html_rich_scan(html@) is Some,
    ensures
        html_rich_scan(html@) == Some(r),
{
    match html_markup_scan(html) {
        Some(b) => b,
        None => false,
    }
}

/// Text with zero-width spaces and byte-order marks removed and every run of
/// whitespace reduced to one space between words, from index `i` on.
/// `gap` says whether whitespace was seen since the last word, `started`
/// whether a word was written.
pub open spec fn words_from(s: Seq<char>, i: int, gap: bool, started: bool) -> Seq<char>
    decreases s.len() - i,
{
    if i < 0 || i >= s.len() {
        seq![]
    } else {
        let c = s[i];
        if c == '\u{200b}' || c == '\u{feff}' {
            words_from(s, i + 1, gap, started)
        } else if is_ws(c) {
            words_from(s, i + 1, true, started)
        } else if gap && started {
            seq![' ', c] + words_from(s, i + 1, false, true)
        } else {
            seq![c] + words_from(s, i + 1, false, true)
        }
    }
}

/// `split_whitespace().join(" ")` after dropping zero-width characters.
pub open spec fn normalized(s: Seq<char>) -> Seq<char> {
    words_from(s, 0, false, false)
}

pub fn normalize_visible_chars(s: &[char]) -> (r: Vec<char>)
    ensures
        r@ == normalized(s@),
{
    let n = s.len();
    let mut out: Vec<char> = Vec::new();
    let mut gap = false;
    let mut i: usize = 0;
    while i < n
        invariant
            n == s@.len(),
            i <= n,
            out@ + words_from(s@, i as int, gap, out@.len() > 0) == normalized(s@),
        decreases n - i,
    {
        let c = s[i];
        let ghost before = out@;
        let ghost g = gap;
        if c == '\u{200b}' || c == '\u{feff}' {
        } else if is_whitespace(c) {
            gap = true;
        } else {
            if gap && out.len() > 0 {
                out.push(' ');
                out.push(c);
                assert(out@ =~= before + seq![' ', c]);
            } else {
                out.push(c);
                assert(out@ =~= before + seq![c]);
            }
            gap = false;
        }
        i = i + 1;
        assert(out@ + words_from(s@, i as int, gap, out@.len() > 0) =~= before + words_from(
            s@,
            i - 1,
            g,
            before.len() > 0,
        ));
    }
    assert(out@ + words_from(s@, i as int, gap, out@.len() > 0) =~= out@);
    out
}

/// Visible text with whitespace runs collapsed to single spaces.
pub fn normalize_visible(s: &str) -> (r: String)
    ensures
        r@ == normalized(s@),
{
    let v = str_chars(s);
    let r = normalize_visible_chars(&v);
    string_from_chars(&r)
}

/// Whether HTML only wraps the plain text in styling: no structural markup,
/// some visible text, and the same words as `plain`.
pub open spec fn plain_wrapper(html: Seq<char>, plain: Seq<char>) -> bool {
    let visible = html_text(html, 0);
    &&& html_rich_scan(html) == Some(false)
    &&& trim_seq(visible).len() != 0
    &&& normalized(visible) == normalized(plain)
}

pub fn html_is_plain_wrapper(html: &str, plain: &str) -> (r: bool)
    requires
        html_rich_scan(html@) is Some,
    ensures
        r == plain_wrapper(html@, plain@),
{
    if html_has_rich_markup(html) {
        return false;
    }
    let visible = html_visible_text(html);
    let vis = str_chars(visible.as_str());
    let t = trim_range(&vis, 0, vis.len());
    assert(vis@.subrange(0, vis@.len() as int) =~= vis@);
    if t.len() == 0 {
        return false;
    }
    let a = normalize_visible_chars(&vis);
    let p = str_chars(plain);
    let b = normalize_visible_chars(&p);
    chars_eq(&a, &b)
}

} // verus!
