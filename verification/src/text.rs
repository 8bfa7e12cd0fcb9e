//! Character-level helpers shared by the parsers: whitespace and ASCII
//! classes as Rust defines them, searching, trimming and number parsing over
//! character sequences.

use vstd::prelude::*;

verus! {

/// Appends one character to a string (`String::push`).
#[verifier::external_body]
pub(crate) fn push_char(s: &mut String, c: char)
    ensures
        final(s)@ == old(s)@.push(c),
{
    s.push(c);
}

/// Whether `n` is a Unicode scalar value, the values `char::from_u32` accepts.
pub open spec fn is_scalar_value(n: u32) -> bool {
    n <= 0x10FFFF && !(0xD800 <= n <= 0xDFFF)
}

/// `char::from_u32`: the character with code point `n`, if `n` is a scalar value.
#[verifier::external_body]
pub(crate) fn char_from_u32(n: u32) -> (r: Option<char>)
    ensures
        r is Some <==> is_scalar_value(n),
        r matches Some(c) ==> c as u32 == n,
{
    char::from_u32(n)
}

/// `char::is_whitespace`: the Unicode `White_Space` characters.
pub open spec fn is_ws(c: char) -> bool {
    let n = c as u32;
    ||| 0x9 <= n <= 0xD
    ||| n == 0x20
    ||| n == 0x85
    ||| n == 0xA0
    ||| n == 0x1680
    ||| 0x2000 <= n <= 0x200A
    ||| n == 0x2028
    ||| n == 0x2029
    ||| n == 0x202F
    ||| n == 0x205F
    ||| n == 0x3000
}

pub fn is_whitespace(c: char) -> (r: bool)
    ensures
        r == is_ws(c),
{
    let n = c as u32;
    (0x9 <= n && n <= 0xD) || n == 0x20 || n == 0x85 || n == 0xA0 || n == 0x1680 || (0x2000 <= n
        && n <= 0x200A) || n == 0x2028 || n == 0x2029 || n == 0x202F || n == 0x205F || n == 0x3000
}

/// `char::is_control`: the characters of general category `Cc`.
pub open spec fn is_ctrl(c: char) -> bool {
    let n = c as u32;
    n <= 0x1F || (0x7F <= n <= 0x9F)
}

pub fn is_control(c: char) -> (r: bool)
    ensures
        r == is_ctrl(c),
{
    let n = c as u32;
    n <= 0x1F || (0x7F <= n && n <= 0x9F)
}

pub open spec fn is_alpha(c: char) -> bool {
    let n = c as u32;
    (0x41 <= n <= 0x5A) || (0x61 <= n <= 0x7A)
}

pub fn is_ascii_alphabetic(c: char) -> (r: bool)
    ensures
        r == is_alpha(c),
{
    let n = c as u32;
    (0x41 <= n && n <= 0x5A) || (0x61 <= n && n <= 0x7A)
}

pub open spec fn is_digit(c: char) -> bool {
    0x30 <= (c as u32) <= 0x39
}

pub fn is_ascii_digit(c: char) -> (r: bool)
    ensures
        r == is_digit(c),
{
    let n = c as u32;
    0x30 <= n && n <= 0x39
}

pub open spec fn is_hex(c: char) -> bool {
    let n = c as u32;
    (0x30 <= n <= 0x39) || (0x41 <= n <= 0x46) || (0x61 <= n <= 0x66)
}

pub fn is_ascii_hexdigit(c: char) -> (r: bool)
    ensures
        r == is_hex(c),
{
    let n = c as u32;
    (0x30 <= n && n <= 0x39) || (0x41 <= n && n <= 0x46) || (0x61 <= n && n <= 0x66)
}

/// The value of `c` as a digit in base `radix` (2 to 36), as `char::to_digit`.
pub open spec fn digit_of(c: char, radix: u32) -> Option<u32> {
    let n = c as u32;
    let v: int = if 0x30 <= n <= 0x39 {
        n - 0x30
    } else if 0x41 <= n <= 0x5A {
        n - 0x41 + 10
    } else if 0x61 <= n <= 0x7A {
        n - 0x61 + 10
    } else {
        99
    };
    if v < radix {
        Some(v as u32)
    } else {
        None
    }
}

pub fn to_digit(c: char, radix: u32) -> (r: Option<u32>)
    requires
        2 <= radix <= 36,
    ensures
        r == digit_of(c, radix),
{
    let n = c as u32;
    let v: u32 = if 0x30 <= n && n <= 0x39 {
        n - 0x30
    } else if 0x41 <= n && n <= 0x5A {
        n - 0x41 + 10
    } else if 0x61 <= n && n <= 0x7A {
        n - 0x61 + 10
    } else {
        99
    };
    if v < radix {
        Some(v)
    } else {
        None
    }
}

/// `char::to_ascii_lowercase`.
pub open spec fn lower_char(c: char) -> char {
    if 0x41 <= (c as u32) <= 0x5A {
        ((c as u32) + 32) as char
    } else {
        c
    }
}

pub fn to_ascii_lowercase(c: char) -> (r: char)
    ensures
        r == lower_char(c),
{
    let n = c as u32;
    if 0x41 <= n && n <= 0x5A {
        let b: u8 = (n + 32) as u8;
        let r = b as char;
        assert(r as u32 == n + 32);
        r
    } else {
        c
    }
}

/// `str::to_ascii_lowercase` on a character sequence.
pub open spec fn lower_seq(s: Seq<char>) -> Seq<char> {
    s.map_values(|c: char| lower_char(c))
}

pub fn lower_chars(v: &[char]) -> (r: Vec<char>)
    ensures
        r@ == lower_seq(v@),
{
    let mut r: Vec<char> = Vec::new();
    let mut i: usize = 0;
    while i < v.len()
        invariant
            i <= v@.len(),
            r@ == lower_seq(v@.subrange(0, i as int)),
        decreases v@.len() - i,
    {
        r.push(to_ascii_lowercase(v[i]));
        i = i + 1;
        assert(r@ =~= lower_seq(v@.subrange(0, i as int)));
    }
    assert(v@.subrange(0, v@.len() as int) =~= v@);
    r
}

/// Number of bytes of the UTF-8 encoding of `c`.
pub open spec fn utf8_width(c: char) -> int {
    let n = c as u32;
    if n < 0x80 {
        1
    } else if n < 0x800 {
        2
    } else if n < 0x10000 {
        3
    } else {
        4
    }
}

/// Number of bytes of the UTF-8 encoding of `s`.
pub open spec fn utf8_len(s: Seq<char>) -> int
    decreases s.len(),
{
    if s.len() == 0 {
        0
    } else {
        utf8_len(s.drop_last()) + utf8_width(s.last())
    }
}

/// Whether the UTF-8 encoding of `v[from..to]` is longer than `limit` bytes.
pub fn utf8_len_exceeds(v: &[char], from: usize, to: usize, limit: usize) -> (r: bool)
    requires
        from <= to <= v@.len(),
        limit < 0x1000,
    ensures
        r == (utf8_len(v@.subrange(from as int, to as int)) > limit),
{
    let mut acc: usize = 0;
    let mut k: usize = from;
    while k < to
        invariant
            from <= k <= to <= v@.len(),
            limit < 0x1000,
            acc as int == if utf8_len(v@.subrange(from as int, k as int)) > limit {
                limit + 1
            } else {
                utf8_len(v@.subrange(from as int, k as int))
            },
        decreases to - k,
    {
        let n = v[k] as u32;
        let w: usize = if n < 0x80 {
            1
        } else if n < 0x800 {
            2
        } else if n < 0x10000 {
            3
        } else {
            4
        };
        assert(v@.subrange(from as int, k + 1).drop_last() =~= v@.subrange(from as int, k as int));
        proof {
            lemma_utf8_len_nonneg(v@.subrange(from as int, k as int));
        }
        acc = if acc + w > limit {
            limit + 1
        } else {
            acc + w
        };
        k = k + 1;
    }
    acc > limit
}

pub proof fn lemma_utf8_len_nonneg(s: Seq<char>)
    ensures
        utf8_len(s) >= s.len(),
    decreases s.len(),
{
    if s.len() > 0 {
        lemma_utf8_len_nonneg(s.drop_last());
    }
}

/// The characters of `s`, in order.
pub fn str_chars(s: &str) -> (v: Vec<char>)
    ensures
        v@ == s@,
{
    let mut v: Vec<char> = Vec::new();
    let n: usize = s.unicode_len();
    let mut i: usize = 0;
    while i < n
        invariant
            n == s@.len(),
            i <= n,
            v@ == s@.subrange(0, i as int),
        decreases n - i,
    {
        let c = s.get_char(i);
        v.push(c);
        i = i + 1;
    }
    v
}

/// A string holding exactly the characters of `v`.
pub fn string_from_chars(v: &[char]) -> (s: String)
    ensures
        s@ == v@,
{
    let mut s = String::new();
    let mut i: usize = 0;
    while i < v.len()
        invariant
            i <= v@.len(),
            s@ == v@.subrange(0, i as int),
        decreases v@.len() - i,
    {
        push_char(&mut s, v[i]);
        i = i + 1;
    }
    s
}

/// Copies `v[from..to]`.
pub fn sub_chars(v: &[char], from: usize, to: usize) -> (r: Vec<char>)
    requires
        from <= to <= v@.len(),
    ensures
        r@ == v@.subrange(from as int, to as int),
{
    let mut r: Vec<char> = Vec::new();
    let mut k: usize = from;
    while k < to
        invariant
            from <= k <= to <= v@.len(),
            r@ == v@.subrange(from as int, k as int),
        decreases to - k,
    {
        r.push(v[k]);
        k = k + 1;
    }
    r
}

/// Appends `v[from..to]` to `out`.
pub fn push_range(out: &mut Vec<char>, v: &[char], from: usize, to: usize)
    requires
        from <= to <= v@.len(),
    ensures
        final(out)@ == old(out)@ + v@.subrange(from as int, to as int),
{
    let ghost start = out@;
    let mut k: usize = from;
    while k < to
        invariant
            from <= k <= to <= v@.len(),
            out@ == start + v@.subrange(from as int, k as int),
        decreases to - k,
    {
        out.push(v[k]);
        k = k + 1;
        assert(out@ =~= start + v@.subrange(from as int, k as int));
    }
}

/// Appends all of `v` to `out`.
pub fn push_all(out: &mut Vec<char>, v: &[char])
    ensures
        final(out)@ == old(out)@ + v@,
{
    push_range(out, v, 0, v.len());
    assert(v@.subrange(0, v@.len() as int) =~= v@);
}

/// Whether two strings hold the same characters.
pub fn str_eq(a: &str, b: &str) -> (r: bool)
    ensures
        r == (a@ == b@),
{
    let x = str_chars(a);
    let y = str_chars(b);
    chars_eq(&x, &y)
}

/// Whether the characters `v` spell the string `lit`.
pub fn chars_eq_str(v: &[char], lit: &str) -> (r: bool)
    ensures
        r == (v@ == lit@),
{
    let y = str_chars(lit);
    chars_eq(v, &y)
}

/// Whether two character slices are equal.
pub fn chars_eq(a: &[char], b: &[char]) -> (r: bool)
    ensures
        r == (a@ == b@),
{
    if a.len() != b.len() {
        return false;
    }
    let mut i: usize = 0;
    while i < a.len()
        invariant
            a@.len() == b@.len(),
            i <= a@.len(),
            forall|j: int| 0 <= j < i ==> a@[j] == b@[j],
        decreases a@.len() - i,
    {
        if a[i] != b[i] {
            return false;
        }
        i = i + 1;
    }
    assert(a@ =~= b@);
    true
}

/// The first index at or after `i` that holds `c`.
pub open spec fn find_char(s: Seq<char>, c: char, i: int) -> Option<int>
    decreases s.len() - i,
{
    if i < 0 || i >= s.len() {
        None
    } else if s[i] == c {
        Some(i)
    } else {
        find_char(s, c, i + 1)
    }
}

pub proof fn lemma_find_char(s: Seq<char>, c: char, i: int)
    ensures
        find_char(s, c, i) matches Some(k) ==> i <= k < s.len() && s[k] == c && 0 <= i,
    decreases s.len() - i,
{
    if 0 <= i < s.len() && s[i] != c {
        lemma_find_char(s, c, i + 1);
    }
}

/// The first `c` from `i` on is at `k` when `s[k]` is `c` and none is
/// before it.
pub proof fn lemma_find_char_at(s: Seq<char>, c: char, i: int, k: int)
    requires
        0 <= i <= k < s.len(),
        s[k] == c,
        forall|j: int| i <= j < k ==> s[j] != c,
    ensures
        find_char(s, c, i) == Some(k),
    decreases k - i,
{
    if i < k {
        lemma_find_char_at(s, c, i + 1, k);
    }
}

/// There is no `c` from `i` on when none of those characters is `c`.
pub proof fn lemma_find_char_none(s: Seq<char>, c: char, i: int)
    requires
        0 <= i,
        forall|j: int| i <= j < s.len() ==> s[j] != c,
    ensures
        find_char(s, c, i) is None,
    decreases s.len() - i,
{
    if i < s.len() {
        lemma_find_char_none(s, c, i + 1);
    }
}

/// Each character takes at most four bytes in UTF-8.
pub proof fn lemma_utf8_len_bound(s: Seq<char>)
    ensures
        0 <= utf8_len(s) <= 4 * s.len(),
    decreases s.len(),
{
    if s.len() > 0 {
        lemma_utf8_len_bound(s.drop_last());
    }
}

pub fn find_char_from(v: &[char], c: char, from: usize) -> (r: Option<usize>)
    ensures
        match r {
            Some(k) => find_char(v@, c, from as int) == Some(k as int),
            None => find_char(v@, c, from as int) is None,
        },
{
    let mut k: usize = from;
    while k < v.len()
        invariant
            from <= k,
            find_char(v@, c, from as int) == find_char(v@, c, k as int),
        decreases v@.len() - k,
    {
        if v[k] == c {
            return Some(k);
        }
        k = k + 1;
    }
    None
}

/// Whether `p` occurs in `s` at index `k`.
pub open spec fn matches_at(s: Seq<char>, k: int, p: Seq<char>) -> bool {
    0 <= k && k + p.len() <= s.len() && s.subrange(k, k + p.len()) == p
}

pub fn matches_at_exec(v: &[char], k: usize, p: &[char]) -> (r: bool)
    ensures
        r == matches_at(v@, k as int, p@),
{
    if k > v.len() || p.len() > v.len() - k {
        return false;
    }
    let n = v.len();
    let mut j: usize = 0;
    while j < p.len()
        invariant
            n == v@.len(),
            k + p@.len() <= v@.len(),
            j <= p@.len(),
            forall|t: int| 0 <= t < j ==> v@[k + t] == p@[t],
        decreases p@.len() - j,
    {
        assert(k + j < v@.len());
        if v[k + j] != p[j] {
            assert(v@.subrange(k as int, k + p@.len())[j as int] != p@[j as int]);
            return false;
        }
        j = j + 1;
    }
    assert(v@.subrange(k as int, k + p@.len()) =~= p@);
    true
}

/// The first index at or after `i` where `p` occurs in `s`.
pub open spec fn find_seq(s: Seq<char>, p: Seq<char>, i: int) -> Option<int>
    decreases s.len() - i,
{
    if i < 0 || i > s.len() {
        None
    } else if matches_at(s, i, p) {
        Some(i)
    } else if i == s.len() {
        None
    } else {
        find_seq(s, p, i + 1)
    }
}

pub proof fn lemma_find_seq(s: Seq<char>, p: Seq<char>, i: int)
    ensures
        find_seq(s, p, i) matches Some(k) ==> 0 <= i <= k && matches_at(s, k, p),
    decreases s.len() - i,
{
    if 0 <= i < s.len() && !matches_at(s, i, p) {
        lemma_find_seq(s, p, i + 1);
    }
}

pub fn find_seq_from(v: &[char], p: &[char], from: usize) -> (r: Option<usize>)
    ensures
        match r {
            Some(k) => find_seq(v@, p@, from as int) == Some(k as int),
            None => find_seq(v@, p@, from as int) is None,
        },
{
    if from > v.len() {
        return None;
    }
    let mut k: usize = from;
    loop
        invariant
            from <= k <= v@.len(),
            find_seq(v@, p@, from as int) == find_seq(v@, p@, k as int),
        decreases v@.len() - k,
    {
        if matches_at_exec(v, k, p) {
            return Some(k);
        }
        if k == v.len() {
            return None;
        }
        k = k + 1;
    }
}

/// First index in `[i, j)` that is not whitespace, or `j`.
pub open spec fn skip_ws(s: Seq<char>, i: int, j: int) -> int
    decreases j - i,
{
    if i >= j {
        j
    } else if is_ws(s[i]) {
        skip_ws(s, i + 1, j)
    } else {
        i
    }
}

/// End of `s[i..j]` once its trailing whitespace is dropped.
pub open spec fn trim_end_at(s: Seq<char>, i: int, j: int) -> int
    decreases j - i,
{
    if j <= i {
        i
    } else if is_ws(s[j - 1]) {
        trim_end_at(s, i, j - 1)
    } else {
        j
    }
}

pub proof fn lemma_skip_ws(s: Seq<char>, i: int, j: int)
    requires
        i <= j,
    ensures
        i <= skip_ws(s, i, j) <= j,
    decreases j - i,
{
    if i < j && is_ws(s[i]) {
        lemma_skip_ws(s, i + 1, j);
    }
}

pub proof fn lemma_trim_end_at(s: Seq<char>, i: int, j: int)
    requires
        i <= j,
    ensures
        i <= trim_end_at(s, i, j) <= j,
    decreases j - i,
{
    if i < j && is_ws(s[j - 1]) {
        lemma_trim_end_at(s, i, j - 1);
    }
}

/// `str::trim`: `s` without leading and trailing whitespace.
pub open spec fn trim_seq(s: Seq<char>) -> Seq<char> {
    let a = skip_ws(s, 0, s.len() as int);
    s.subrange(a, trim_end_at(s, a, s.len() as int))
}

/// Trimmed text starts and ends with a character that is not whitespace.
pub proof fn lemma_trim_seq_ends(s: Seq<char>)
    ensures
        trim_seq(s).len() > 0 ==> !is_ws(trim_seq(s)[0]) && !is_ws(trim_seq(s).last()),
{
    lemma_skip_ws_stops(s, 0, s.len() as int);
    let a = skip_ws(s, 0, s.len() as int);
    lemma_skip_ws(s, 0, s.len() as int);
    lemma_trim_end_stops(s, a, s.len() as int);
    lemma_trim_end_at(s, a, s.len() as int);
}

proof fn lemma_skip_ws_stops(s: Seq<char>, i: int, j: int)
    requires
        0 <= i <= j <= s.len(),
    ensures
        skip_ws(s, i, j) < j ==> !is_ws(s[skip_ws(s, i, j)]),
    decreases j - i,
{
    if i < j && is_ws(s[i]) {
        lemma_skip_ws_stops(s, i + 1, j);
    }
}

proof fn lemma_trim_end_stops(s: Seq<char>, i: int, j: int)
    requires
        0 <= i <= j <= s.len(),
    ensures
        trim_end_at(s, i, j) > i ==> !is_ws(s[trim_end_at(s, i, j) - 1]),
    decreases j - i,
{
    if i < j && is_ws(s[j - 1]) {
        lemma_trim_end_stops(s, i, j - 1);
    }
}

/// Text that neither starts nor ends with whitespace is its own trim.
pub proof fn lemma_trim_seq_trimmed(s: Seq<char>)
    requires
        s.len() > 0 ==> !is_ws(s[0]) && !is_ws(s.last()),
    ensures
        trim_seq(s) == s,
{
    if s.len() > 0 {
        assert(skip_ws(s, 0, s.len() as int) == 0);
        assert(trim_end_at(s, 0, s.len() as int) == s.len());
    }
    assert(trim_seq(s) =~= s);
}

/// The bounds of `v[from..to]` once trimmed.
pub fn trim_bounds(v: &[char], from: usize, to: usize) -> (r: (usize, usize))
    requires
        from <= to <= v@.len(),
    ensures
        r.0 as int == skip_ws(v@, from as int, to as int),
        r.1 as int == trim_end_at(v@, r.0 as int, to as int),
        from <= r.0 <= r.1 <= to,
{
    let mut a: usize = from;
    while a < to && is_whitespace(v[a])
        invariant
            from <= a <= to <= v@.len(),
            skip_ws(v@, from as int, to as int) == skip_ws(v@, a as int, to as int),
        decreases to - a,
    {
        a = a + 1;
    }
    let mut b: usize = to;
    while b > a && is_whitespace(v[b - 1])
        invariant
            a <= b <= to,
            to <= v@.len(),
            trim_end_at(v@, a as int, to as int) == trim_end_at(v@, a as int, b as int),
        decreases b,
    {
        b = b - 1;
    }
    (a, b)
}

pub proof fn lemma_trim_shift(s: Seq<char>, from: int, to: int)
    requires
        0 <= from <= to <= s.len(),
    ensures
        ({
            let t = s.subrange(from, to);
            let a = skip_ws(s, from, to);
            &&& skip_ws(t, 0, t.len() as int) == a - from
            &&& trim_end_at(t, a - from, t.len() as int) == trim_end_at(s, a, to) - from
        }),
{
    let t = s.subrange(from, to);
    lemma_skip_shift(s, t, from, from, to);
    lemma_skip_ws(s, from, to);
    let a = skip_ws(s, from, to);
    lemma_trim_end_shift(s, t, from, a, to);
}

proof fn lemma_skip_shift(s: Seq<char>, t: Seq<char>, from: int, i: int, to: int)
    requires
        0 <= from <= i <= to <= s.len(),
        t == s.subrange(from, to),
    ensures
        skip_ws(t, i - from, t.len() as int) == skip_ws(s, i, to) - from,
    decreases to - i,
{
    if i < to && is_ws(s[i]) {
        lemma_skip_shift(s, t, from, i + 1, to);
    }
}

proof fn lemma_trim_end_shift(s: Seq<char>, t: Seq<char>, from: int, a: int, j: int)
    requires
        0 <= from <= a <= j <= s.len(),
        t == s.subrange(from, j) || (t.len() >= j - from && forall|k: int|
            from <= k < j ==> t[k - from] == s[k]),
    ensures
        trim_end_at(t, a - from, j - from) == trim_end_at(s, a, j) - from,
    decreases j - a,
{
    if a < j && is_ws(s[j - 1]) {
        lemma_trim_end_shift(s, t, from, a, j - 1);
    }
}

/// Trims `v[from..to]` and copies the result.
pub fn trim_range(v: &[char], from: usize, to: usize) -> (r: Vec<char>)
    requires
        from <= to <= v@.len(),
    ensures
        r@ == trim_seq(v@.subrange(from as int, to as int)),
{
    let (a, b) = trim_bounds(v, from, to);
    proof {
        lemma_trim_shift(v@, from as int, to as int);
    }
    let r = sub_chars(v, a, b);
    assert(r@ =~= trim_seq(v@.subrange(from as int, to as int)));
    r
}

/// The numeric value of a run of digits in base `radix`.
pub open spec fn digits_value(d: Seq<char>, radix: u32) -> int
    decreases d.len(),
{
    if d.len() == 0 {
        0
    } else {
        digits_value(d.drop_last(), radix) * radix + match digit_of(d.last(), radix) {
            Some(x) => x as int,
            None => 0,
        }
    }
}

pub open spec fn all_digits(d: Seq<char>, radix: u32) -> bool {
    forall|k: int| 0 <= k < d.len() ==> (#[trigger] digit_of(d[k], radix)) is Some
}

/// `u32::from_str_radix`: an optional `+` sign and at least one digit, with a
/// value that fits in 32 bits.
pub open spec fn parse_u32_radix(s: Seq<char>, radix: u32) -> Option<u32> {
    let d = if s.len() > 0 && s[0] == '+' {
        s.skip(1)
    } else {
        s
    };
    if d.len() == 0 || !all_digits(d, radix) || digits_value(d, radix) > u32::MAX {
        None
    } else {
        Some(digits_value(d, radix) as u32)
    }
}

pub proof fn lemma_digits_value_nonneg(d: Seq<char>, radix: u32)
    ensures
        digits_value(d, radix) >= 0,
    decreases d.len(),
{
    if d.len() > 0 {
        lemma_digits_value_nonneg(d.drop_last(), radix);
        let x = digits_value(d.drop_last(), radix);
        assert(x * radix >= 0) by (nonlinear_arith)
            requires
                x >= 0,
        ;
    }
}

/// The value of the digits `v[from..to]` in base `radix`, if all are digits and
/// the value stays at most `max`.
pub fn digits_value_upto(v: &[char], from: usize, to: usize, radix: u32, max: u32) -> (r: Option<
    u32,
>)
    requires
        from <= to <= v@.len(),
        2 <= radix <= 36,
    ensures
        ({
            let d = v@.subrange(from as int, to as int);
            match r {
                Some(x) => all_digits(d, radix) && digits_value(d, radix) == x && x <= max,
                None => !all_digits(d, radix) || digits_value(d, radix) > max,
            }
        }),
{
    let mut acc: u64 = 0;
    let mut over = false;
    let mut k: usize = from;
    while k < to
        invariant
            from <= k <= to <= v@.len(),
            2 <= radix <= 36,
            all_digits(v@.subrange(from as int, k as int), radix),
            over ==> digits_value(v@.subrange(from as int, k as int), radix) > max,
            !over ==> acc == digits_value(v@.subrange(from as int, k as int), radix) && acc <= max,
        decreases to - k,
    {
        let ghost pre = v@.subrange(from as int, k as int);
        let ghost next = v@.subrange(from as int, k + 1);
        assert(next.drop_last() =~= pre);
        match to_digit(v[k], radix) {
            None => {
                assert(digit_of(next[k - from], radix) is None);
                return None;
            },
            Some(dg) => {
                proof {
                    lemma_digits_value_nonneg(pre, radix);
                }
                if over {
                    let ghost x = digits_value(pre, radix);
                    assert(x * radix + dg > max) by (nonlinear_arith)
                        requires
                            x > max,
                            radix >= 2,
                            dg >= 0,
                    ;
                } else {
                    assert(acc * (radix as u64) <= 0xFFFF_FFFFu64 * 36) by (nonlinear_arith)
                        requires
                            acc <= 0xFFFF_FFFFu64,
                            radix <= 36,
                    ;
                    let t: u64 = acc * (radix as u64) + (dg as u64);
                    if t > max as u64 {
                        over = true;
                    } else {
                        acc = t;
                    }
                }
                assert(all_digits(next, radix)) by {
                    assert forall|j: int| 0 <= j < next.len() implies #[trigger] digit_of(
                        next[j],
                        radix,
                    ) is Some by {
                        if j < pre.len() {
                            assert(next[j] == pre[j]);
                        }
                    }
                }
            },
        }
        k = k + 1;
    }
    if over {
        None
    } else {
        Some(acc as u32)
    }
}

/// `u32::from_str_radix` on `v[from..to]`.
pub fn parse_u32_range(v: &[char], from: usize, to: usize, radix: u32) -> (r: Option<u32>)
    requires
        from <= to <= v@.len(),
        2 <= radix <= 36,
    ensures
        r == parse_u32_radix(v@.subrange(from as int, to as int), radix),
{
    let ghost s = v@.subrange(from as int, to as int);
    let mut a = from;
    if from < to && v[from] == '+' {
        a = from + 1;
        assert(s.skip(1) =~= v@.subrange(a as int, to as int));
    } else {
        assert(s =~= v@.subrange(a as int, to as int));
    }
    if a == to {
        return None;
    }
    digits_value_upto(v, a, to, radix, u32::MAX)
}


/// A copy of an optional string.
pub fn clone_opt(o: &Option<String>) -> (r: Option<String>)
    ensures
        r == *o,
{
    match o {
        Some(s) => Some(s.clone()),
        None => None,
    }
}

/// Whether `p` occurs somewhere in `s` (always, for an empty `p`).
pub open spec fn has_sub(s: Seq<char>, p: Seq<char>) -> bool {
    find_seq(s, p, 0) is Some
}

/// `str::contains` with a string pattern.
pub fn str_contains(hay: &str, needle: &str) -> (r: bool)
    ensures
        r == has_sub(hay@, needle@),
{
    let h = str_chars(hay);
    let p = str_chars(needle);
    find_seq_from(&h, &p, 0).is_some()
}

/// `str::starts_with` with a string pattern.
pub fn str_starts_with(s: &str, prefix: &str) -> (r: bool)
    ensures
        r == matches_at(s@, 0, prefix@),
{
    let h = str_chars(s);
    let p = str_chars(prefix);
    matches_at_exec(&h, 0, &p)
}

/// `u64::from_str` (decimal): an optional `+` sign and at least one ASCII
/// digit, with a value that fits in 64 bits.
pub open spec fn parse_u64_dec(s: Seq<char>) -> Option<u64> {
    let d = if s.len() > 0 && s[0] == '+' {
        s.skip(1)
    } else {
        s
    };
    if d.len() == 0 || !all_digits(d, 10) || digits_value(d, 10) > u64::MAX {
        None
    } else {
        Some(digits_value(d, 10) as u64)
    }
}

/// A run of decimal digits as a `u64`, if it is one and fits.
pub open spec fn digits_u64(d: Seq<char>) -> Option<u64> {
    if d.len() == 0 || !all_digits(d, 10) || digits_value(d, 10) > u64::MAX {
        None
    } else {
        Some(digits_value(d, 10) as u64)
    }
}

/// `u64::from_str` on `v[from..to]`.
pub fn parse_u64_range(v: &[char], from: usize, to: usize) -> (r: Option<u64>)
    requires
        from <= to <= v@.len(),
    ensures
        r == parse_u64_dec(v@.subrange(from as int, to as int)),
{
    let ghost s = v@.subrange(from as int, to as int);
    let mut a = from;
    if from < to && v[from] == '+' {
        a = from + 1;
        assert(s.skip(1) =~= v@.subrange(a as int, to as int));
    } else {
        assert(s =~= v@.subrange(a as int, to as int));
    }
    let ghost d = v@.subrange(a as int, to as int);
    assert(parse_u64_dec(s) == digits_u64(d));
    if a == to {
        return None;
    }
    let mut k: usize = a;
    while k < to
        invariant
            a <= k <= to <= v@.len(),
            d == v@.subrange(a as int, to as int),
            parse_u64_dec(v@.subrange(from as int, to as int)) == digits_u64(d),
            d.len() > 0,
            forall|j: int| 0 <= j < k - a ==> (#[trigger] digit_of(d[j], 10)) is Some,
        decreases to - k,
    {
        if to_digit(v[k], 10).is_none() {
            assert(digit_of(d[k - a], 10) is None);
            return None;
        }
        k = k + 1;
    }
    assert(all_digits(d, 10));
    let mut acc: u64 = 0;
    let mut k: usize = a;
    while k < to
        invariant
            a <= k <= to <= v@.len(),
            d == v@.subrange(a as int, to as int),
            parse_u64_dec(v@.subrange(from as int, to as int)) == digits_u64(d),
            d.len() > 0,
            all_digits(d, 10),
            acc == digits_value(d.subrange(0, k - a), 10),
        decreases to - k,
    {
        let ghost pre = d.subrange(0, k - a);
        let ghost next = d.subrange(0, k + 1 - a);
        assert(next.drop_last() =~= pre);
        assert(digit_of(d[k - a], 10) is Some);
        let dg = match to_digit(v[k], 10) {
            Some(x) => x,
            None => 0,
        };
        proof {
            lemma_digits_value_nonneg(pre, 10);
        }
        if acc > (u64::MAX - dg as u64) / 10 {
            proof {
                lemma_digits_value_prefix_grows(d, k + 1 - a);
                assert(acc * 10 + dg > u64::MAX) by (nonlinear_arith)
                    requires
                        acc > (u64::MAX - dg) / 10,
                        dg <= 9,
                ;
            }
            return None;
        }
        assert(acc * 10 + dg <= u64::MAX) by (nonlinear_arith)
            requires
                acc <= (u64::MAX - dg) / 10,
                dg <= 9,
        ;
        acc = acc * 10 + dg as u64;
        k = k + 1;
    }
    assert(d.subrange(0, to - a) =~= d);
    Some(acc)
}

/// Among all-digit runs, a longer prefix never has a smaller value.
pub proof fn lemma_digits_value_prefix_grows(d: Seq<char>, i: int)
    requires
        0 <= i <= d.len(),
        all_digits(d, 10),
    ensures
        digits_value(d.subrange(0, i), 10) <= digits_value(d, 10),
    decreases d.len() - i,
{
    if i < d.len() {
        lemma_digits_value_prefix_grows(d, i + 1);
        let p = d.subrange(0, i + 1);
        assert(p.drop_last() =~= d.subrange(0, i));
        lemma_digits_value_nonneg(d.subrange(0, i), 10);
        assert(digit_of(d[i], 10) is Some);
        let x = digits_value(d.subrange(0, i), 10);
        assert(x <= x * 10) by (nonlinear_arith)
            requires
                x >= 0,
        ;
    } else {
        assert(d.subrange(0, i) =~= d);
    }
}
} // verus!
