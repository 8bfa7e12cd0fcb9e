//! Byte encodings the protocol and the store share: SHA-256 digests, hex,
//! base64, decimal numbers, and the content hash of a clipboard entry.

use vstd::prelude::*;
use vstd::utf8::encode_utf8;
use base64::Engine;
use sha2::Digest;
use crate::text::{push_char, string_from_chars};

verus! {

/// The SHA-256 digest of `bytes`.
pub uninterp spec fn spec_sha256(bytes: Seq<u8>) -> Seq<u8>;

/// `sha2::Sha256::digest`: the 32-byte SHA-256 digest of `bytes`.
#[verifier::external_body]
pub(crate) fn sha256(bytes: &[u8]) -> (r: Vec<u8>)
    ensures
        r@ == spec_sha256(bytes@),
        r@.len() == 32,
{
    sha2::Sha256::digest(bytes).to_vec()
}

/// The lower-case hex digit of `n` (0 to 15).
pub open spec fn hex_digit(n: int) -> char {
    seq!['0', '1', '2', '3', '4', '5', '6', '7', '8', '9', 'a', 'b', 'c', 'd', 'e', 'f'][n]
}

/// Two lower-case hex digits per byte, high nibble first.
pub open spec fn hex_of(b: Seq<u8>) -> Seq<char> {
    Seq::new(
        (2 * b.len()) as nat,
        |k: int|
            if k % 2 == 0 {
                hex_digit((b[k / 2] / 16) as int)
            } else {
                hex_digit((b[k / 2] % 16) as int)
            },
    )
}

/// `hex::encode`: each byte as two lower-case hex digits.
#[verifier::external_body]
pub(crate) fn hex_encode(bytes: &[u8]) -> (r: String)
    ensures
        r@ == hex_of(bytes@),
{
    hex::encode(bytes)
}

/// Each hex digit reads back as the value it was written for.
proof fn lemma_hex_digit_val(n: int)
    requires
        0 <= n < 16,
    ensures
        crate::text::is_hex(hex_digit(n)),
        hex_val(hex_digit(n)) == n,
{
    let d = seq!['0', '1', '2', '3', '4', '5', '6', '7', '8', '9', 'a', 'b', 'c', 'd', 'e', 'f'];
    assert(hex_digit(n) == d[n]);
    if n == 0 { assert(d[0] == '0'); }
    else if n == 1 { assert(d[1] == '1'); }
    else if n == 2 { assert(d[2] == '2'); }
    else if n == 3 { assert(d[3] == '3'); }
    else if n == 4 { assert(d[4] == '4'); }
    else if n == 5 { assert(d[5] == '5'); }
    else if n == 6 { assert(d[6] == '6'); }
    else if n == 7 { assert(d[7] == '7'); }
    else if n == 8 { assert(d[8] == '8'); }
    else if n == 9 { assert(d[9] == '9'); }
    else if n == 10 { assert(d[10] == 'a'); }
    else if n == 11 { assert(d[11] == 'b'); }
    else if n == 12 { assert(d[12] == 'c'); }
    else if n == 13 { assert(d[13] == 'd'); }
    else if n == 14 { assert(d[14] == 'e'); }
    else { assert(d[15] == 'f'); }
}

/// A lower-case ASCII hex digit.
pub open spec fn is_lower_hex(c: char) -> bool {
    let n = c as u32;
    (0x30 <= n <= 0x39) || (0x61 <= n <= 0x66)
}

/// Text made of lower-case ASCII hex digits only.
pub open spec fn is_lower_hex_text(s: Seq<char>) -> bool {
    forall|k: int| 0 <= k < s.len() ==> is_lower_hex(#[trigger] s[k])
}

proof fn lemma_hex_digit_lower(n: int)
    requires
        0 <= n < 16,
    ensures
        is_lower_hex(hex_digit(n)),
{
    let d = seq!['0', '1', '2', '3', '4', '5', '6', '7', '8', '9', 'a', 'b', 'c', 'd', 'e', 'f'];
    assert(hex_digit(n) == d[n]);
    if n == 0 { assert(d[0] == '0'); }
    else if n == 1 { assert(d[1] == '1'); }
    else if n == 2 { assert(d[2] == '2'); }
    else if n == 3 { assert(d[3] == '3'); }
    else if n == 4 { assert(d[4] == '4'); }
    else if n == 5 { assert(d[5] == '5'); }
    else if n == 6 { assert(d[6] == '6'); }
    else if n == 7 { assert(d[7] == '7'); }
    else if n == 8 { assert(d[8] == '8'); }
    else if n == 9 { assert(d[9] == '9'); }
    else if n == 10 { assert(d[10] == 'a'); }
    else if n == 11 { assert(d[11] == 'b'); }
    else if n == 12 { assert(d[12] == 'c'); }
    else if n == 13 { assert(d[13] == 'd'); }
    else if n == 14 { assert(d[14] == 'e'); }
    else { assert(d[15] == 'f'); }
}

/// The hex text of some bytes is two lower-case hex digits per byte.
pub proof fn lemma_hex_of_lower(b: Seq<u8>)
    ensures
        hex_of(b).len() == 2 * b.len(),
        is_lower_hex_text(hex_of(b)),
{
    let s = hex_of(b);
    assert forall|k: int| 0 <= k < s.len() implies is_lower_hex(#[trigger] s[k]) by {
        if k % 2 == 0 {
            lemma_hex_digit_lower((b[k / 2] / 16) as int);
        } else {
            lemma_hex_digit_lower((b[k / 2] % 16) as int);
        }
    }
}

/// Decoding the hex text of some bytes gives those bytes back.
pub proof fn lemma_hex_roundtrip(b: Seq<u8>)
    ensures
        hex_decode(hex_of(b)) == Some(b),
{
    let s = hex_of(b);
    assert forall|k: int| 0 <= k < s.len() implies crate::text::is_hex(#[trigger] s[k]) by {
        if k % 2 == 0 {
            lemma_hex_digit_val((b[k / 2] / 16) as int);
        } else {
            lemma_hex_digit_val((b[k / 2] % 16) as int);
        }
    }
    let d = hex_decode(s).unwrap();
    assert forall|i: int| 0 <= i < b.len() implies #[trigger] d[i] == b[i] by {
        assert((2 * i) % 2 == 0);
        assert((2 * i + 1) % 2 == 1);
        assert((2 * i) / 2 == i);
        assert((2 * i + 1) / 2 == i);
        lemma_hex_digit_val((b[i] / 16) as int);
        lemma_hex_digit_val((b[i] % 16) as int);
        assert(b[i] / 16 * 16 + b[i] % 16 == b[i]);
    }
    assert(d =~= b);
}

/// The value of an ASCII hex digit of either case.
pub open spec fn hex_val(c: char) -> int {
    let n = c as u32;
    if 0x30 <= n <= 0x39 {
        n - 0x30
    } else if 0x41 <= n <= 0x46 {
        n - 0x41 + 10
    } else {
        n - 0x61 + 10
    }
}

/// What `hex::decode` gives for text `s`: the bytes when `s` is an even number
/// of ASCII hex digits (either case), nothing otherwise.
pub open spec fn hex_decode(s: Seq<char>) -> Option<Seq<u8>> {
    if s.len() % 2 == 0 && forall|k: int| 0 <= k < s.len() ==> crate::text::is_hex(#[trigger] s[k]) {
        Some(
            Seq::new(
                s.len() / 2,
                |i: int| (hex_val(s[2 * i]) * 16 + hex_val(s[2 * i + 1])) as u8,
            ),
        )
    } else {
        None
    }
}

/// `hex::decode` of a string: the bytes it spells, or the crate's error
/// message for an odd length or a character that is not an ASCII hex digit.
/// The message's wording is not stated.
#[verifier::external_body]
pub(crate) fn hex_decode_str(s: &str) -> (r: Result<Vec<u8>, String>)
    ensures
        match r {
            Ok(b) => hex_decode(s@) == Some(b@),
            Err(_) => hex_decode(s@) is None,
        },
{
    hex::decode(s).map_err(|e| e.to_string())
}

/// The standard base64 text (with padding) of `bytes`.
pub uninterp spec fn spec_b64_encode(bytes: Seq<u8>) -> Seq<char>;

/// The bytes that standard base64 text `text` stands for, if it is valid.
pub uninterp spec fn spec_b64_decode(text: Seq<char>) -> Option<Seq<u8>>;

/// A character of the standard base64 alphabet, or its padding `=`.
pub open spec fn is_b64_char(c: char) -> bool {
    ('A' <= c <= 'Z') || ('a' <= c <= 'z') || ('0' <= c <= '9') || c == '+' || c == '/' || c
        == '='
}

/// `base64::engine::general_purpose::STANDARD.encode`: standard padded
/// base64, four alphabet characters for every three bytes or part of them;
/// decoding the text gives the bytes back.
#[verifier::external_body]
pub(crate) fn b64_encode(bytes: &[u8]) -> (r: String)
    ensures
        r@ == spec_b64_encode(bytes@),
        spec_b64_decode(r@) == Some(bytes@),
        r@.len() == 4 * ((bytes@.len() + 2) / 3),
        forall|k: int| 0 <= k < r@.len() ==> is_b64_char(#[trigger] r@[k]),
{
    base64::engine::general_purpose::STANDARD.encode(bytes)
}

/// `base64::engine::general_purpose::STANDARD.decode`: the bytes, or the
/// crate's error message where the text is not valid standard padded base64
/// (its wording is not stated).
#[verifier::external_body]
pub(crate) fn b64_decode(text: &str) -> (r: Result<Vec<u8>, String>)
    ensures
        match r {
            Ok(b) => spec_b64_decode(text@) == Some(b@),
            Err(_) => spec_b64_decode(text@) is None,
        },
{
    base64::engine::general_purpose::STANDARD.decode(text).map_err(|e| e.to_string())
}

/// The decimal digit of `d` (0 to 9).
pub open spec fn dec_digit(d: int) -> char {
    seq!['0', '1', '2', '3', '4', '5', '6', '7', '8', '9'][d]
}

/// The decimal notation of `n`, without leading zeros.
pub open spec fn dec_of(n: nat) -> Seq<char>
    decreases n,
{
    if n < 10 {
        seq![dec_digit(n as int)]
    } else {
        dec_of(n / 10).push(dec_digit((n % 10) as int))
    }
}

/// Appends the decimal notation of `n`.
pub fn push_decimal(out: &mut String, n: u64)
    ensures
        final(out)@ == old(out)@ + dec_of(n as nat),
    decreases n,
{
    let digits = ['0', '1', '2', '3', '4', '5', '6', '7', '8', '9'];
    assert(digits@ == seq!['0', '1', '2', '3', '4', '5', '6', '7', '8', '9']);
    if n >= 10 {
        push_decimal(out, n / 10);
    }
    let d = (n % 10) as usize;
    push_char(out, digits[d]);
    proof {
        if n >= 10 {
            assert(dec_of(n as nat) == dec_of((n / 10) as nat).push(dec_digit((n % 10) as int)));
        }
    }
}

/// `n` in decimal, as `u64::to_string` writes it.
pub fn decimal(n: u64) -> (r: String)
    ensures
        r@ == dec_of(n as nat),
{
    let mut s = String::new();
    push_decimal(&mut s, n);
    assert(s@ =~= dec_of(n as nat));
    s
}

/// `n` in decimal with at least `width` digits, zeros in front.
pub open spec fn zero_padded(n: nat, width: nat) -> Seq<char> {
    let d = dec_of(n);
    if d.len() >= width {
        d
    } else {
        Seq::new((width - d.len()) as nat, |k: int| '0') + d
    }
}

pub fn decimal_padded(n: u64, width: usize) -> (r: String)
    ensures
        r@ == zero_padded(n as nat, width as nat),
{
    let d = decimal(n);
    let dv = crate::text::str_chars(d.as_str());
    if dv.len() >= width {
        return d;
    }
    let mut out: Vec<char> = Vec::new();
    let pad = width - dv.len();
    let mut k: usize = 0;
    while k < pad
        invariant
            k <= pad,
            out@ == Seq::new(k as nat, |j: int| '0'),
        decreases pad - k,
    {
        out.push('0');
        k = k + 1;
        assert(out@ =~= Seq::new(k as nat, |j: int| '0'));
    }
    crate::text::push_all(&mut out, &dv);
    string_from_chars(&out)
}

/// The bytes one entry's parts are hashed over: for each part its kind in
/// UTF-8, a zero byte, its content, and a 0xff byte.
pub open spec fn hash_frame(parts: Seq<(Seq<char>, Seq<u8>)>) -> Seq<u8>
    decreases parts.len(),
{
    if parts.len() == 0 {
        seq![]
    } else {
        let p = parts.last();
        hash_frame(parts.drop_last()) + encode_utf8(p.0) + seq![0u8] + p.1 + seq![0xffu8]
    }
}

/// The frame of one part: its kind in UTF-8, a zero byte, its content and a
/// 0xff byte.
pub proof fn lemma_hash_frame_one(p: (Seq<char>, Seq<u8>))
    ensures
        hash_frame(seq![p]) == encode_utf8(p.0) + seq![0u8] + p.1 + seq![0xffu8],
{
    assert(seq![p].drop_last() =~= Seq::<(Seq<char>, Seq<u8>)>::empty());
    assert(hash_frame(Seq::<(Seq<char>, Seq<u8>)>::empty()) =~= Seq::<u8>::empty());
    assert(Seq::<u8>::empty() + encode_utf8(p.0) =~= encode_utf8(p.0));
}

/// Every part counts, in order: the frame of two runs of parts is the frame
/// of the first followed by the frame of the second.
pub proof fn lemma_hash_frame_concat(a: Seq<(Seq<char>, Seq<u8>)>, b: Seq<(Seq<char>, Seq<u8>)>)
    ensures
        hash_frame(a + b) == hash_frame(a) + hash_frame(b),
    decreases b.len(),
{
    if b.len() == 0 {
        assert(a + b =~= a);
        assert(hash_frame(a) + hash_frame(b) =~= hash_frame(a));
    } else {
        lemma_hash_frame_concat(a, b.drop_last());
        assert((a + b).drop_last() =~= a + b.drop_last());
        assert((a + b).last() == b.last());
        let p = b.last();
        assert(hash_frame(a + b) == hash_frame(a + b.drop_last()) + encode_utf8(p.0) + seq![0u8]
            + p.1 + seq![0xffu8]);
        assert(hash_frame(a) + hash_frame(b) =~= hash_frame(a) + hash_frame(b.drop_last())
            + encode_utf8(p.0) + seq![0u8] + p.1 + seq![0xffu8]);
    }
}

/// The parts as plain values.
pub open spec fn parts_view(parts: Seq<(String, Vec<u8>)>) -> Seq<(Seq<char>, Seq<u8>)> {
    parts.map_values(|p: (String, Vec<u8>)| (p.0@, p.1@))
}

/// The content hash of an entry made of these parts: hex of the SHA-256 of
/// their frame.
pub open spec fn content_hash_of(parts: Seq<(Seq<char>, Seq<u8>)>) -> Seq<char> {
    hex_of(spec_sha256(hash_frame(parts)))
}

/// The content hash used to find duplicates, over `(kind, bytes)` parts in order.
pub fn content_hash_for(parts: &[(String, Vec<u8>)]) -> (r: String)
    ensures
        r@ == content_hash_of(parts_view(parts@)),
        r@.len() == 64,
        is_lower_hex_text(r@),
{
    let mut frame: Vec<u8> = Vec::new();
    let n = parts.len();
    let mut i: usize = 0;
    while i < n
        invariant
            n == parts@.len(),
            i <= n,
            frame@ == hash_frame(parts_view(parts@.subrange(0, i as int))),
        decreases n - i,
    {
        let ty_bytes = parts[i].0.as_str().as_bytes();
        append_bytes(&mut frame, ty_bytes);
        frame.push(0u8);
        append_bytes(&mut frame, parts[i].1.as_slice());
        frame.push(0xffu8);
        proof {
            let pre = parts_view(parts@.subrange(0, i + 1));
            assert(pre.drop_last() =~= parts_view(parts@.subrange(0, i as int)));
            assert(pre.last() == (parts@[i as int].0@, parts@[i as int].1@));
        }
        i = i + 1;
    }
    assert(parts@.subrange(0, n as int) =~= parts@);
    let digest = sha256(frame.as_slice());
    proof {
        lemma_hex_of_lower(digest@);
    }
    hex_encode(digest.as_slice())
}

/// Appends `src` to `out`.
pub fn append_bytes(out: &mut Vec<u8>, src: &[u8])
    ensures
        final(out)@ == old(out)@ + src@,
{
    let n = src.len();
    let mut i: usize = 0;
    while i < n
        invariant
            n == src@.len(),
            i <= n,
            out@ == old(out)@ + src@.subrange(0, i as int),
        decreases n - i,
    {
        out.push(src[i]);
        i = i + 1;
        assert(out@ =~= old(out)@ + src@.subrange(0, i as int));
    }
    assert(src@.subrange(0, n as int) =~= src@);
}

/// A copy of `src`.
pub fn copy_bytes(src: &[u8]) -> (r: Vec<u8>)
    ensures
        r@ == src@,
{
    let mut out: Vec<u8> = Vec::new();
    append_bytes(&mut out, src);
    assert(out@ =~= src@);
    out
}


pub proof fn lemma_dec_digit(d: int)
    requires
        0 <= d < 10,
    ensures
        crate::text::digit_of(dec_digit(d), 10) == Some(d as u32),
        dec_digit(d) != '+',
{
    assert(seq!['0', '1', '2', '3', '4', '5', '6', '7', '8', '9'][d] == dec_digit(d));
    if d == 0 {
        assert(dec_digit(d) == '0');
    } else if d == 1 {
        assert(dec_digit(d) == '1');
    } else if d == 2 {
        assert(dec_digit(d) == '2');
    } else if d == 3 {
        assert(dec_digit(d) == '3');
    } else if d == 4 {
        assert(dec_digit(d) == '4');
    } else if d == 5 {
        assert(dec_digit(d) == '5');
    } else if d == 6 {
        assert(dec_digit(d) == '6');
    } else if d == 7 {
        assert(dec_digit(d) == '7');
    } else if d == 8 {
        assert(dec_digit(d) == '8');
    } else {
        assert(dec_digit(d) == '9');
    }
}

/// Decimal notation is read back as the number it writes.
pub proof fn lemma_dec_of_parses(n: nat)
    ensures
        dec_of(n).len() > 0,
        crate::text::all_digits(dec_of(n), 10),
        crate::text::digits_value(dec_of(n), 10) == n,
        dec_of(n)[0] != '+',
    decreases n,
{
    if n < 10 {
        lemma_dec_digit(n as int);
        assert(dec_of(n).drop_last() =~= seq![]);
        assert(crate::text::digits_value(dec_of(n).drop_last(), 10) == 0);
    } else {
        lemma_dec_of_parses(n / 10);
        lemma_dec_digit((n % 10) as int);
        let s = dec_of(n);
        assert(s.drop_last() =~= dec_of(n / 10));
        assert(crate::text::all_digits(s, 10)) by {
            assert forall|k: int| 0 <= k < s.len() implies (#[trigger] crate::text::digit_of(
                s[k],
                10,
            )) is Some by {
                if k < s.len() - 1 {
                    assert(s[k] == dec_of(n / 10)[k]);
                }
            }
        }
        assert(s[0] == dec_of(n / 10)[0]);
        let q = n / 10;
        let r = n % 10;
        assert(q * 10 + r == n) by (nonlinear_arith)
            requires
                q == n / 10,
                r == n % 10,
        ;
        assert(crate::text::digits_value(s, 10) == crate::text::digits_value(dec_of(q), 10) * 10
            + r);
    }
}

/// `u64::from_str` reads back what `u64::to_string` writes.
pub proof fn lemma_decimal_roundtrip(n: u64)
    ensures
        crate::text::parse_u64_dec(dec_of(n as nat)) == Some(n),
{
    lemma_dec_of_parses(n as nat);
}
} // verus!
