//! Character-level text helpers shared by the parsers and summaries.
//!
//! Text is handled as a sequence of `char`s. Trimming follows the Unicode
//! `White_Space` property, which is what `str::trim` strips.

use vstd::prelude::*;
use vstd::std_specs::iter::IteratorSpec;

verus! {

broadcast use vstd::string::group_string_axioms;

/// Unicode `White_Space` characters.
pub open spec fn is_ws(c: char) -> bool {
    let u = c as u32;
    ||| 0x09 <= u <= 0x0D
    ||| u == 0x20
    ||| u == 0x85
    ||| u == 0xA0
    ||| u == 0x1680
    ||| 0x2000 <= u <= 0x200A
    ||| u == 0x2028
    ||| u == 0x2029
    ||| u == 0x202F
    ||| u == 0x205F
    ||| u == 0x3000
}

/// `s` without its longest prefix of characters satisfying `p`.
pub open spec fn drop_front(s: Seq<char>, p: spec_fn(char) -> bool) -> Seq<char>
    decreases s.len(),
{
    if s.len() > 0 && p(s[0]) {
        drop_front(s.drop_first(), p)
    } else {
        s
    }
}

/// `s` without its longest suffix of characters satisfying `p`.
pub open spec fn drop_back(s: Seq<char>, p: spec_fn(char) -> bool) -> Seq<char>
    decreases s.len(),
{
    if s.len() > 0 && p(s.last()) {
        drop_back(s.drop_last(), p)
    } else {
        s
    }
}

pub open spec fn ws_pred() -> spec_fn(char) -> bool {
    |c: char| is_ws(c)
}

pub open spec fn char_pred(x: char) -> spec_fn(char) -> bool {
    |c: char| c == x
}

/// `s` with leading and trailing whitespace removed.
pub open spec fn trim(s: Seq<char>) -> Seq<char> {
    drop_back(drop_front(s, ws_pred()), ws_pred())
}

/// `s` with every leading and trailing `x` removed.
pub open spec fn trim_matches(s: Seq<char>, x: char) -> Seq<char> {
    drop_back(drop_front(s, char_pred(x)), char_pred(x))
}

pub proof fn lemma_drop_front_at(s: Seq<char>, p: spec_fn(char) -> bool, i: int)
    requires
        0 <= i <= s.len(),
        forall|k: int| 0 <= k < i ==> p(#[trigger] s[k]),
        i == s.len() || !p(s[i]),
    ensures
        drop_front(s, p) == s.subrange(i, s.len() as int),
    decreases i,
{
    if i == 0 {
        assert(s.subrange(0, s.len() as int) =~= s);
    } else {
        let t = s.drop_first();
        assert forall|k: int| 0 <= k < i - 1 implies p(#[trigger] t[k]) by {
            assert(t[k] == s[k + 1]);
        }
        assert(p(s[0]));
        lemma_drop_front_at(t, p, i - 1);
        assert(t.subrange(i - 1, t.len() as int) =~= s.subrange(i, s.len() as int));
    }
}

pub proof fn lemma_drop_back_at(s: Seq<char>, p: spec_fn(char) -> bool, j: int)
    requires
        0 <= j <= s.len(),
        forall|k: int| j <= k < s.len() ==> p(#[trigger] s[k]),
        j == 0 || !p(s[j - 1]),
    ensures
        drop_back(s, p) == s.subrange(0, j),
    decreases s.len() - j,
{
    if j == s.len() {
        assert(s.subrange(0, j) =~= s);
    } else {
        let t = s.drop_last();
        assert(p(s[s.len() - 1]));
        assert forall|k: int| j <= k < t.len() implies p(#[trigger] t[k]) by {
            assert(t[k] == s[k]);
        }
        lemma_drop_back_at(t, p, j);
        assert(t.subrange(0, j) =~= s.subrange(0, j));
    }
}

/// Whether `c` is a Unicode `White_Space` character.
pub fn is_whitespace_char(c: char) -> (b: bool)
    ensures
        b == is_ws(c),
{
    let u = c as u32;
    (0x09 <= u && u <= 0x0D) || u == 0x20 || u == 0x85 || u == 0xA0 || u == 0x1680 || (0x2000
        <= u && u <= 0x200A) || u == 0x2028 || u == 0x2029 || u == 0x202F || u == 0x205F || u
        == 0x3000
}

/// The characters of `s`, in order.
pub fn chars_of(s: &str) -> (out: Vec<char>)
    ensures
        out@ == s@,
{
    let mut out: Vec<char> = Vec::new();
    for c in iter: s.chars()
        invariant
            iter.seq() == s@,
            out@ == s@.take(iter.index()),
    {
        proof { assert(s@.take(iter.index()).push(c) =~= s@.take(iter.index() + 1)); }
        out.push(c);
    }
    out
}

/// Collects characters into a `String` (std's `FromIterator<char>`).
#[verifier::external_body]
pub(crate) fn string_from_chars(cs: &[char]) -> (s: String)
    ensures
        s@ == cs@,
{
    cs.iter().collect()
}

/// A copy of `s[from..to]`.
pub fn slice_vec(s: &[char], from: usize, to: usize) -> (out: Vec<char>)
    requires
        from <= to <= s@.len(),
    ensures
        out@ == s@.subrange(from as int, to as int),
{
    let mut out: Vec<char> = Vec::new();
    let mut i = from;
    while i < to
        invariant
            from <= i <= to <= s@.len(),
            out@ == s@.subrange(from as int, i as int),
        decreases to - i,
    {
        proof { assert(s@.subrange(from as int, i as int).push(s@[i as int]) =~= s@.subrange(from as int, i + 1)); }
        out.push(s[i]);
        i += 1;
    }
    out
}

/// `s` with leading and trailing whitespace removed.
pub fn trim_vec(s: &[char]) -> (out: Vec<char>)
    ensures
        out@ == trim(s@),
{
    let n = s.len();
    let mut i: usize = 0;
    while i < n && is_whitespace_char(s[i])
        invariant
            0 <= i <= n == s@.len(),
            forall|k: int| 0 <= k < i ==> is_ws(#[trigger] s@[k]),
        decreases n - i,
    {
        i += 1;
    }
    let mut j: usize = n;
    while j > i && is_whitespace_char(s[j - 1])
        invariant
            i <= j <= n == s@.len(),
            forall|k: int| j <= k < n ==> is_ws(#[trigger] s@[k]),
        decreases j,
    {
        j -= 1;
    }
    proof {
        let p = ws_pred();
        lemma_drop_front_at(s@, p, i as int);
        let t = s@.subrange(i as int, n as int);
        assert forall|k: int| j - i <= k < t.len() implies p(#[trigger] t[k]) by {
            assert(t[k] == s@[k + i]);
        }
        if j > i {
            assert(t[j - i - 1] == s@[j - 1]);
        }
        lemma_drop_back_at(t, p, j - i);
        assert(t.subrange(0, j - i) =~= s@.subrange(i as int, j as int));
    }
    slice_vec(s, i, j)
}

/// `s` with every leading and trailing `x` removed.
pub fn trim_matches_vec(s: &[char], x: char) -> (out: Vec<char>)
    ensures
        out@ == trim_matches(s@, x),
{
    let n = s.len();
    let mut i: usize = 0;
    while i < n && s[i] == x
        invariant
            0 <= i <= n == s@.len(),
            forall|k: int| 0 <= k < i ==> #[trigger] s@[k] == x,
        decreases n - i,
    {
        i += 1;
    }
    let mut j: usize = n;
    while j > i && s[j - 1] == x
        invariant
            i <= j <= n == s@.len(),
            forall|k: int| j <= k < n ==> #[trigger] s@[k] == x,
        decreases j,
    {
        j -= 1;
    }
    proof {
        let p = char_pred(x);
        assert forall|k: int| 0 <= k < i implies p(#[trigger] s@[k]) by {}
        lemma_drop_front_at(s@, p, i as int);
        let t = s@.subrange(i as int, n as int);
        assert forall|k: int| j - i <= k < t.len() implies p(#[trigger] t[k]) by {
            assert(t[k] == s@[k + i]);
        }
        if j > i {
            assert(t[j - i - 1] == s@[j - 1]);
        }
        lemma_drop_back_at(t, p, j - i);
        assert(t.subrange(0, j - i) =~= s@.subrange(i as int, j as int));
    }
    slice_vec(s, i, j)
}


/// Number of bytes in the UTF-8 encoding of `c`.
pub open spec fn utf8_width(c: char) -> nat {
    let u = c as u32;
    if u < 0x80 {
        1
    } else if u < 0x800 {
        2
    } else if u < 0x10000 {
        3
    } else {
        4
    }
}

/// Number of bytes in the UTF-8 encoding of `s` (what `str::len` reports).
pub open spec fn utf8_len(s: Seq<char>) -> nat
    decreases s.len(),
{
    if s.len() == 0 {
        0
    } else {
        utf8_width(s[0]) + utf8_len(s.drop_first())
    }
}

/// The longest prefix of `s` whose UTF-8 encoding fits in `max` bytes.
pub open spec fn take_bytes(s: Seq<char>, max: nat) -> Seq<char>
    decreases s.len(),
{
    if s.len() == 0 || utf8_width(s[0]) > max {
        Seq::empty()
    } else {
        seq![s[0]] + take_bytes(s.drop_first(), (max - utf8_width(s[0])) as nat)
    }
}

/// `s` cut to at most `max` bytes at the last character boundary that fits:
/// unchanged when it already fits.
pub open spec fn bound_bytes(s: Seq<char>, max: nat) -> Seq<char> {
    if utf8_len(s) <= max {
        s
    } else {
        take_bytes(s, max)
    }
}

pub proof fn lemma_utf8_len_single(c: char)
    ensures
        utf8_len(seq![c]) == utf8_width(c),
{
    assert(seq![c].drop_first() =~= Seq::<char>::empty());
    reveal_with_fuel(utf8_len, 2);
}

pub proof fn lemma_utf8_len_append(a: Seq<char>, b: Seq<char>)
    ensures
        utf8_len(a + b) == utf8_len(a) + utf8_len(b),
    decreases a.len(),
{
    if a.len() == 0 {
        assert(a + b =~= b);
    } else {
        assert((a + b).drop_first() =~= a.drop_first() + b);
        lemma_utf8_len_append(a.drop_first(), b);
    }
}

pub proof fn lemma_take_bytes_split(s: Seq<char>, k: int, max: nat)
    requires
        0 <= k <= s.len(),
        utf8_len(s.take(k)) <= max,
    ensures
        take_bytes(s, max) == s.take(k) + take_bytes(s.skip(k), (max - utf8_len(s.take(k))) as nat),
    decreases k,
{
    if k == 0 {
        assert(s.take(0) =~= Seq::<char>::empty());
        assert(s.skip(0) =~= s);
        assert(Seq::<char>::empty() + take_bytes(s, max) =~= take_bytes(s, max));
    } else {
        let t = s.drop_first();
        assert(s.take(k) =~= seq![s[0]] + t.take(k - 1));
        lemma_utf8_len_append(seq![s[0]], t.take(k - 1));
        lemma_utf8_len_single(s[0]);
        lemma_take_bytes_split(t, k - 1, (max - utf8_width(s[0])) as nat);
        assert(t.skip(k - 1) =~= s.skip(k));
        assert(s.take(k) + take_bytes(s.skip(k), (max - utf8_len(s.take(k))) as nat) =~= seq![s[0]]
            + (t.take(k - 1) + take_bytes(t.skip(k - 1), ((max - utf8_width(s[0])) as nat - utf8_len(t.take(k - 1))) as nat)));
    }
}

pub proof fn lemma_take_bytes_len(s: Seq<char>, max: nat)
    ensures
        utf8_len(take_bytes(s, max)) <= max,
        take_bytes(s, max).len() <= s.len(),
        take_bytes(s, max) == s.take(take_bytes(s, max).len() as int),
    decreases s.len(),
{
    if s.len() == 0 || utf8_width(s[0]) > max {
        assert(s.take(0) =~= Seq::<char>::empty());
    } else {
        let t = s.drop_first();
        let m = (max - utf8_width(s[0])) as nat;
        lemma_take_bytes_len(t, m);
        lemma_utf8_len_append(seq![s[0]], take_bytes(t, m));
        lemma_utf8_len_single(s[0]);
        assert(take_bytes(s, max) =~= s.take(take_bytes(s, max).len() as int));
    }
}

/// Exec width of one character in UTF-8.
pub fn char_utf8_width(c: char) -> (w: usize)
    ensures
        w == utf8_width(c),
{
    let u = c as u32;
    if u < 0x80 {
        1
    } else if u < 0x800 {
        2
    } else if u < 0x10000 {
        3
    } else {
        4
    }
}

/// `s` cut to at most `max` UTF-8 bytes at a character boundary.
pub fn bound_bytes_vec(s: &[char], max: usize) -> (out: Vec<char>)
    ensures
        out@ == bound_bytes(s@, max as nat),
        out@.len() <= s@.len(),
{
    let n = s.len();
    let mut k: usize = 0;
    let mut bytes: usize = 0;
    while k < n && char_utf8_width(s[k]) <= max - bytes
        invariant
            k <= n == s@.len(),
            bytes <= max,
            bytes == utf8_len(s@.take(k as int)),
        decreases n - k,
    {
        proof {
            assert(s@.take(k + 1) =~= s@.take(k as int) + seq![s@[k as int]]);
            lemma_utf8_len_append(s@.take(k as int), seq![s@[k as int]]);
            lemma_utf8_len_single(s@[k as int]);
        }
        bytes = bytes + char_utf8_width(s[k]);
        k += 1;
    }
    proof {
        lemma_take_bytes_split(s@, k as int, max as nat);
        if k == n {
            assert(s@.take(n as int) =~= s@);
        } else {
            let r = s@.skip(k as int);
            assert(r[0] == s@[k as int]);
            assert(take_bytes(r, (max - bytes) as nat) =~= Seq::<char>::empty());
            assert(s@.take(k as int) + Seq::<char>::empty() =~= s@.take(k as int));
            lemma_utf8_len_append(s@.take(k as int), s@.skip(k as int));
            assert(s@.take(k as int) + s@.skip(k as int) =~= s@);
            assert(utf8_len(r) > 0) by {
                assert(utf8_len(r) == utf8_width(r[0]) + utf8_len(r.drop_first()));
            }
            if utf8_len(s@) <= max {
                // every character fits, so the loop could not have stopped early
                assert(utf8_len(r) == utf8_width(r[0]) + utf8_len(r.drop_first()));
            }
        }
    }
    slice_vec(s, 0, k)
}


/// The bounded summary of free text: trimmed, a fallback when nothing is left,
/// otherwise cut to `max` UTF-8 bytes.
pub open spec fn bounded_summary(value: Seq<char>, max: nat, fallback: Seq<char>) -> Seq<char> {
    let t = trim(value);
    if t.len() == 0 {
        fallback
    } else {
        bound_bytes(t, max)
    }
}

pub proof fn lemma_bound_bytes_fits(s: Seq<char>, max: nat)
    ensures
        utf8_len(bound_bytes(s, max)) <= max || bound_bytes(s, max) == s && utf8_len(s) <= max,
        utf8_len(bound_bytes(s, max)) <= max,
{
    lemma_take_bytes_len(s, max);
}

/// A bounded summary of a non-blank text is a non-empty prefix of the
/// trimmed text, the whole of it when it fits.
pub proof fn lemma_bounded_summary_prefix(value: Seq<char>, max: nat, fallback: Seq<char>)
    requires
        max >= 4,
        trim(value).len() > 0,
    ensures
        bounded_summary(value, max, fallback).len() > 0,
        bounded_summary(value, max, fallback) == trim(value).take(bounded_summary(value, max, fallback).len() as int),
        utf8_len(trim(value)) <= max ==> bounded_summary(value, max, fallback) == trim(value),
        utf8_len(bounded_summary(value, max, fallback)) <= max,
{
    let t = trim(value);
    lemma_take_bytes_len(t, max);
    lemma_bound_bytes_fits(t, max);
    assert(utf8_width(t[0]) <= 4);
    if utf8_len(t) <= max {
        assert(t.take(t.len() as int) =~= t);
    }
}

/// Trims `value`, substitutes `fallback` when nothing is left, and cuts the
/// rest to `max` UTF-8 bytes.
pub fn trimmed_summary(value: &str, max: usize, fallback: &str) -> (out: String)
    ensures
        out@ == bounded_summary(value@, max as nat, fallback@),
{
    let cs = chars_of(value);
    let t = trim_vec(cs.as_slice());
    if t.len() == 0 {
        return fallback.to_string();
    }
    let cut = bound_bytes_vec(t.as_slice(), max);
    string_from_chars(cut.as_slice())
}


/// The ASCII digit for `d < 10`.
pub open spec fn digit_char(d: nat) -> char {
    ((d + 48) as u32) as char
}

/// Decimal text of `n`, without sign or leading zeros (`"0"` for zero).
pub open spec fn decimal_text(n: nat) -> Seq<char>
    decreases n,
{
    if n < 10 {
        seq![digit_char(n)]
    } else {
        decimal_text(n / 10).push(digit_char(n % 10))
    }
}

/// Lowercase hex digit for `d < 16`.
pub open spec fn hex_char(d: nat) -> char {
    if d < 10 {
        ((d + 48) as u32) as char
    } else {
        ((d + 87) as u32) as char
    }
}

/// Two lowercase hex digits per byte (`format!("{b:02x}")` for each byte).
pub open spec fn hex_lower(b: Seq<u8>) -> Seq<char>
    decreases b.len(),
{
    if b.len() == 0 {
        Seq::empty()
    } else {
        hex_lower(b.drop_last()) + seq![hex_char(b.last() as nat / 16), hex_char(b.last() as nat % 16)]
    }
}

pub fn digit_to_char(d: u64) -> (c: char)
    requires
        d < 10,
    ensures
        c == digit_char(d as nat),
{
    let v: u8 = (d as u8) + 48;
    v as char
}

pub fn hex_digit_to_char(d: u8) -> (c: char)
    requires
        d < 16,
    ensures
        c == hex_char(d as nat),
{
    if d < 10 {
        (d + 48) as char
    } else {
        (d + 87) as char
    }
}

/// Decimal text of `n` as characters.
pub fn decimal_chars(n: u64) -> (out: Vec<char>)
    ensures
        out@ == decimal_text(n as nat),
    decreases n,
{
    if n < 10 {
        let mut v: Vec<char> = Vec::new();
        v.push(digit_to_char(n));
        v
    } else {
        let mut v = decimal_chars(n / 10);
        v.push(digit_to_char(n % 10));
        v
    }
}

/// Decimal text of `n` (what `n.to_string()` produces).
pub fn decimal_string(n: u64) -> (out: String)
    ensures
        out@ == decimal_text(n as nat),
{
    let v = decimal_chars(n);
    string_from_chars(v.as_slice())
}

/// Lowercase hex encoding of `bytes`, two digits per byte.
pub fn hex_encode(bytes: &[u8]) -> (out: String)
    ensures
        out@ == hex_lower(bytes@),
{
    let mut v: Vec<char> = Vec::new();
    let mut i: usize = 0;
    while i < bytes.len()
        invariant
            i <= bytes@.len(),
            v@ == hex_lower(bytes@.take(i as int)),
        decreases bytes.len() - i,
    {
        let b = bytes[i];
        proof {
            let t = bytes@.take(i + 1);
            assert(t.drop_last() =~= bytes@.take(i as int));
            assert(t.last() == b);
        }
        v.push(hex_digit_to_char(b / 16));
        v.push(hex_digit_to_char(b % 16));
        proof {
            assert(v@ =~= hex_lower(bytes@.take(i + 1)));
        }
        i += 1;
    }
    proof { assert(bytes@.take(bytes@.len() as int) =~= bytes@); }
    string_from_chars(v.as_slice())
}

/// `a` followed by `b`.
pub fn concat_str(a: &str, b: &str) -> (out: String)
    ensures
        out@ == a@ + b@,
{
    let mut ca = chars_of(a);
    let cb = chars_of(b);
    let mut i: usize = 0;
    while i < cb.len()
        invariant
            i <= cb@.len(),
            cb@ == b@,
            ca@ == a@ + b@.take(i as int),
        decreases cb.len() - i,
    {
        proof { assert(a@ + b@.take(i + 1) =~= (a@ + b@.take(i as int)).push(cb@[i as int])); }
        ca.push(cb[i]);
        i += 1;
    }
    proof { assert(b@.take(b@.len() as int) =~= b@); }
    string_from_chars(ca.as_slice())
}


/// ASCII lowercase of one character (non-ASCII characters are unchanged).
pub open spec fn ascii_lower_char(c: char) -> char {
    if 'A' <= c <= 'Z' {
        ((c as u32) + 32) as char
    } else {
        c
    }
}

/// ASCII lowercase of a string (`str::to_ascii_lowercase`).
pub open spec fn ascii_lower(s: Seq<char>) -> Seq<char> {
    s.map_values(|c: char| ascii_lower_char(c))
}

/// Case-insensitive comparison on ASCII letters (`str::eq_ignore_ascii_case`).
pub open spec fn eq_ignore_ascii_case(a: Seq<char>, b: Seq<char>) -> bool {
    ascii_lower(a) == ascii_lower(b)
}

pub fn to_ascii_lower_char(c: char) -> (out: char)
    ensures
        out == ascii_lower_char(c),
{
    if 'A' <= c && c <= 'Z' {
        let u = (c as u32) + 32;
        let b = u as u8;
        b as char
    } else {
        c
    }
}

pub fn ascii_lower_vec(s: &[char]) -> (out: Vec<char>)
    ensures
        out@ == ascii_lower(s@),
{
    let mut out: Vec<char> = Vec::new();
    let mut i: usize = 0;
    while i < s.len()
        invariant
            i <= s@.len(),
            out@ == ascii_lower(s@.take(i as int)),
        decreases s.len() - i,
    {
        proof { assert(ascii_lower(s@.take(i + 1)) =~= ascii_lower(s@.take(i as int)).push(ascii_lower_char(s@[i as int]))); }
        out.push(to_ascii_lower_char(s[i]));
        i += 1;
    }
    proof { assert(s@.take(s@.len() as int) =~= s@); }
    out
}

/// Whether two character slices are equal.
pub fn chars_eq(a: &[char], b: &[char]) -> (r: bool)
    ensures
        r == (a@ == b@),
{
    if a.len() != b.len() {
        return false;
    }
    let mut i: usize = 0;
    while i < a.len()
        invariant
            i <= a@.len() == b@.len(),
            forall|k: int| 0 <= k < i ==> a@[k] == b@[k],
        decreases a.len() - i,
    {
        if a[i] != b[i] {
            return false;
        }
        i += 1;
    }
    assert(a@ =~= b@);
    true
}

/// Whether the string `a` has the characters `b`.
pub fn chars_eq_str(a: &[char], b: &str) -> (r: bool)
    ensures
        r == (a@ == b@),
{
    let cb = chars_of(b);
    chars_eq(a, cb.as_slice())
}

/// Whether `a` equals `b` ignoring ASCII case.
pub fn eq_ignore_ascii_case_vec(a: &[char], b: &[char]) -> (r: bool)
    ensures
        r == eq_ignore_ascii_case(a@, b@),
{
    let la = ascii_lower_vec(a);
    let lb = ascii_lower_vec(b);
    chars_eq(la.as_slice(), lb.as_slice())
}

pub open spec fn is_digit(c: char) -> bool {
    '0' <= c <= '9'
}

/// The value of a run of decimal digits.
pub open spec fn digits_value(s: Seq<char>) -> nat
    decreases s.len(),
{
    if s.len() == 0 {
        0
    } else {
        digits_value(s.drop_last()) * 10 + ((s.last() as u32) - 48) as nat
    }
}

/// The digits of an unsigned decimal literal as `str::parse` reads it: one
/// optional `+`, then at least one ASCII digit.
pub open spec fn unsigned_digits(s: Seq<char>) -> Seq<char> {
    if s.len() > 0 && s[0] == '+' {
        s.drop_first()
    } else {
        s
    }
}

pub open spec fn is_unsigned_literal(s: Seq<char>) -> bool {
    let d = unsigned_digits(s);
    &&& d.len() > 0
    &&& forall|i: int| 0 <= i < d.len() ==> is_digit(#[trigger] d[i])
}

/// What `s.parse::<uN>()` yields for an unsigned type whose maximum is `max`.
pub open spec fn parse_unsigned(s: Seq<char>, max: nat) -> Option<nat> {
    if is_unsigned_literal(s) && digits_value(unsigned_digits(s)) <= max {
        Some(digits_value(unsigned_digits(s)))
    } else {
        None
    }
}

pub proof fn lemma_digits_value_prefix_le(s: Seq<char>, i: int)
    requires
        0 <= i <= s.len(),
        forall|k: int| 0 <= k < s.len() ==> is_digit(#[trigger] s[k]),
    ensures
        digits_value(s.take(i)) <= digits_value(s),
    decreases s.len() - i,
{
    if i == s.len() {
        assert(s.take(i) =~= s);
    } else {
        let t = s.drop_last();
        assert(t.take(i) =~= s.take(i));
        assert forall|k: int| 0 <= k < t.len() implies is_digit(#[trigger] t[k]) by {
            assert(t[k] == s[k]);
        }
        lemma_digits_value_prefix_le(t, i);
        assert(digits_value(s) == digits_value(t) * 10 + ((s.last() as u32) - 48) as nat);
        assert(digits_value(t) * 10 >= digits_value(t)) by (nonlinear_arith);
    }
}

/// `s.parse::<u64>()`.
pub fn parse_u64(s: &[char]) -> (r: Option<u64>)
    ensures
        r matches Some(v) ==> parse_unsigned(s@, u64::MAX as nat) == Some(v as nat),
        r is None ==> parse_unsigned(s@, u64::MAX as nat) is None,
{
    let start: usize = if s.len() > 0 && s[0] == '+' { 1 } else { 0 };
    let ghost d = unsigned_digits(s@);
    proof { assert(d =~= s@.subrange(start as int, s@.len() as int)); }
    if start >= s.len() {
        return None;
    }
    let mut i = start;
    while i < s.len()
        invariant
            start <= i <= s@.len(),
            d == s@.subrange(start as int, s@.len() as int),
            d == unsigned_digits(s@),
            forall|k: int| start <= k < i ==> is_digit(#[trigger] s@[k]),
        decreases s.len() - i,
    {
        if !(s[i] >= '0' && s[i] <= '9') {
            proof {
                assert(d[i - start] == s@[i as int]);
                assert(!is_digit(d[i - start]));
                assert(!is_unsigned_literal(s@));
            }
            return None;
        }
        i += 1;
    }
    proof {
        assert forall|k: int| 0 <= k < d.len() implies is_digit(#[trigger] d[k]) by {
            assert(d[k] == s@[k + start]);
        }
    }
    let mut v: u64 = 0;
    let mut j = start;
    while j < s.len()
        invariant
            start <= j <= s@.len(),
            d == s@.subrange(start as int, s@.len() as int),
            d == unsigned_digits(s@),
            forall|k: int| 0 <= k < d.len() ==> is_digit(#[trigger] d[k]),
            v as nat == digits_value(d.take(j - start)),
        decreases s.len() - j,
    {
        proof { assert(d[j - start] == s@[j as int]); assert(is_digit(d[j - start])); }
        let digit = (s[j] as u32 - 48) as u64;
        proof {
            assert(d.take(j - start + 1).drop_last() =~= d.take(j - start));
            assert(d.take(j - start + 1).last() == s@[j as int]);
            assert(is_digit(d[j - start]));
        }
        if v > (u64::MAX - digit) / 10 {
            proof {
                assert(digits_value(d.take(j - start + 1)) == v * 10 + digit);
                assert(v * 10 + digit > u64::MAX) by (nonlinear_arith)
                    requires v > (u64::MAX - digit) / 10, digit <= 9;
                lemma_digits_value_prefix_le(d, j - start + 1);
                assert(digits_value(d) > u64::MAX);
                assert(unsigned_digits(s@) == d);
            }
            return None;
        }
        proof {
            assert(v * 10 + digit <= u64::MAX) by (nonlinear_arith)
                requires v <= (u64::MAX - digit) / 10, digit <= 9;
        }
        v = v * 10 + digit;
        j += 1;
    }
    proof { assert(d.take(d.len() as int) =~= d); }
    Some(v)
}


/// Whether every character is ASCII.
pub open spec fn all_ascii(s: Seq<char>) -> bool {
    forall|i: int| 0 <= i < s.len() ==> (#[trigger] s[i] as u32) < 0x80
}

/// `drop_front` removes everything exactly when every character satisfies
/// `p`; what it leaves starts with a character that does not.
pub proof fn lemma_drop_front_empty(s: Seq<char>, p: spec_fn(char) -> bool)
    ensures
        drop_front(s, p).len() == 0 <==> forall|i: int| 0 <= i < s.len() ==> p(#[trigger] s[i]),
        drop_front(s, p).len() > 0 ==> !p(drop_front(s, p)[0]),
    decreases s.len(),
{
    if s.len() > 0 && p(s[0]) {
        lemma_drop_front_empty(s.drop_first(), p);
        if forall|i: int| 0 <= i < s.drop_first().len() ==> p(#[trigger] s.drop_first()[i]) {
            assert forall|i: int| 0 <= i < s.len() implies p(#[trigger] s[i]) by {
                if i > 0 {
                    assert(s[i] == s.drop_first()[i - 1]);
                }
            }
        } else {
            let j = choose|j: int| 0 <= j < s.drop_first().len() && !p(#[trigger] s.drop_first()[j]);
            assert(s[j + 1] == s.drop_first()[j]);
        }
    } else if s.len() > 0 {
        assert(!p(s[0]));
    }
}

/// `drop_back` removes everything only when every character satisfies `p`.
pub proof fn lemma_drop_back_empty(s: Seq<char>, p: spec_fn(char) -> bool)
    ensures
        drop_back(s, p).len() == 0 ==> forall|i: int| 0 <= i < s.len() ==> p(#[trigger] s[i]),
    decreases s.len(),
{
    if s.len() > 0 && p(s.last()) {
        lemma_drop_back_empty(s.drop_last(), p);
        if drop_back(s, p).len() == 0 {
            assert forall|i: int| 0 <= i < s.len() implies p(#[trigger] s[i]) by {
                if i < s.len() - 1 {
                    assert(s[i] == s.drop_last()[i]);
                }
            }
        }
    }
}

/// Text trims to nothing exactly when it is all whitespace.
pub proof fn lemma_trim_empty(s: Seq<char>)
    ensures
        trim(s).len() == 0 <==> forall|i: int| 0 <= i < s.len() ==> is_ws(#[trigger] s[i]),
{
    let a = drop_front(s, ws_pred());
    lemma_drop_front_empty(s, ws_pred());
    lemma_drop_back_empty(a, ws_pred());
    if a.len() > 0 {
        assert(!is_ws(a[0]));
        if trim(s).len() == 0 {
            assert(ws_pred()(a[0]));
        }
    }
    if forall|i: int| 0 <= i < s.len() ==> is_ws(#[trigger] s[i]) {
        assert forall|i: int| 0 <= i < s.len() implies ws_pred()(#[trigger] s[i]) by {
            assert(is_ws(s[i]));
        }
        assert(a.len() == 0);
    } else {
        let j = choose|j: int| 0 <= j < s.len() && !is_ws(#[trigger] s[j]);
        assert(!ws_pred()(s[j]));
    }
}

pub proof fn lemma_trim_preserves_ascii(s: Seq<char>)
    requires
        all_ascii(s),
    ensures
        all_ascii(trim(s)),
{
    lemma_drop_front_sub(s, ws_pred());
    let a = drop_front(s, ws_pred());
    assert(all_ascii(a)) by {
        let off = s.len() - a.len();
        assert forall|i: int| 0 <= i < a.len() implies (#[trigger] a[i] as u32) < 0x80 by {
            assert(a[i] == s[i + off]);
        }
    }
    lemma_drop_back_sub(a, ws_pred());
    let b = drop_back(a, ws_pred());
    assert forall|i: int| 0 <= i < b.len() implies (#[trigger] b[i] as u32) < 0x80 by {
        assert(b[i] == a[i]);
    }
}

/// `drop_front` leaves a suffix.
pub proof fn lemma_drop_front_sub(s: Seq<char>, p: spec_fn(char) -> bool)
    ensures
        drop_front(s, p).len() <= s.len(),
        drop_front(s, p) == s.subrange(s.len() - drop_front(s, p).len(), s.len() as int),
    decreases s.len(),
{
    if s.len() > 0 && p(s[0]) {
        lemma_drop_front_sub(s.drop_first(), p);
        let d = drop_front(s.drop_first(), p);
        assert(s.drop_first().subrange(s.drop_first().len() - d.len(), s.drop_first().len() as int)
            =~= s.subrange(s.len() - d.len(), s.len() as int));
    } else {
        assert(s.subrange(0, s.len() as int) =~= s);
    }
}

/// `drop_back` leaves a prefix.
pub proof fn lemma_drop_back_sub(s: Seq<char>, p: spec_fn(char) -> bool)
    ensures
        drop_back(s, p).len() <= s.len(),
        drop_back(s, p) == s.subrange(0, drop_back(s, p).len() as int),
    decreases s.len(),
{
    if s.len() > 0 && p(s.last()) {
        lemma_drop_back_sub(s.drop_last(), p);
        let d = drop_back(s.drop_last(), p);
        assert(s.drop_last().subrange(0, d.len() as int) =~= s.subrange(0, d.len() as int));
    } else {
        assert(s.subrange(0, s.len() as int) =~= s);
    }
}


/// The lines of `s` as `str::lines` yields them: split after each `\n`, the
/// `\n` (and a `\r` just before it) removed; a final line needs no `\n`.
pub open spec fn lines(s: Seq<char>) -> Seq<Seq<char>> {
    lines_acc(s, Seq::empty(), Seq::empty())
}

pub open spec fn strip_cr(line: Seq<char>) -> Seq<char> {
    if line.len() > 0 && line.last() == '\r' {
        line.drop_last()
    } else {
        line
    }
}

pub open spec fn lines_acc(s: Seq<char>, done: Seq<Seq<char>>, cur: Seq<char>) -> Seq<Seq<char>>
    decreases s.len(),
{
    if s.len() == 0 {
        if cur.len() == 0 {
            done
        } else {
            done.push(cur)
        }
    } else if s[0] == '\n' {
        lines_acc(s.drop_first(), done.push(strip_cr(cur)), Seq::empty())
    } else {
        lines_acc(s.drop_first(), done, cur.push(s[0]))
    }
}

/// The lines of `s`.
pub fn lines_vec(s: &[char]) -> (out: Vec<Vec<char>>)
    ensures
        out@.map_values(|l: Vec<char>| l@) == lines(s@),
{
    let mut done: Vec<Vec<char>> = Vec::new();
    let mut cur: Vec<char> = Vec::new();
    let mut i: usize = 0;
    proof {
        assert(s@.skip(0) =~= s@);
        assert(done@.map_values(|l: Vec<char>| l@) =~= Seq::<Seq<char>>::empty());
    }
    while i < s.len()
        invariant
            i <= s@.len(),
            lines(s@) == lines_acc(s@.skip(i as int), done@.map_values(|l: Vec<char>| l@), cur@),
        decreases s.len() - i,
    {
        proof {
            let r = s@.skip(i as int);
            assert(r[0] == s@[i as int]);
            assert(r.drop_first() =~= s@.skip(i + 1));
        }
        if s[i] == '\n' {
            let mut piece = cur;
            let n = piece.len();
            if n > 0 && piece[n - 1] == '\r' {
                piece.pop();
            }
            proof {
                assert(done@.push(piece).map_values(|l: Vec<char>| l@) =~= done@.map_values(|l: Vec<char>| l@).push(piece@));
            }
            done.push(piece);
            cur = Vec::new();
        } else {
            cur.push(s[i]);
        }
        i += 1;
    }
    proof { assert(s@.skip(s@.len() as int) =~= Seq::<char>::empty()); }
    if cur.len() > 0 {
        proof {
            assert(done@.push(cur).map_values(|l: Vec<char>| l@) =~= done@.map_values(|l: Vec<char>| l@).push(cur@));
        }
        done.push(cur);
    }
    done
}

/// Whether `s` begins with `p`.
pub open spec fn starts_with(s: Seq<char>, p: Seq<char>) -> bool {
    p.len() <= s.len() && s.take(p.len() as int) == p
}

/// Whether `s` ends with `p`.
pub open spec fn ends_with(s: Seq<char>, p: Seq<char>) -> bool {
    p.len() <= s.len() && s.skip(s.len() - p.len()) == p
}

pub fn starts_with_vec(s: &[char], p: &[char]) -> (b: bool)
    ensures
        b == starts_with(s@, p@),
{
    if p.len() > s.len() {
        return false;
    }
    let mut i: usize = 0;
    while i < p.len()
        invariant
            p@.len() <= s@.len(),
            i <= p@.len(),
            forall|k: int| 0 <= k < i ==> s@[k] == p@[k],
        decreases p.len() - i,
    {
        if s[i] != p[i] {
            assert(s@.take(p@.len() as int)[i as int] != p@[i as int]);
            return false;
        }
        i += 1;
    }
    assert(s@.take(p@.len() as int) =~= p@);
    true
}

pub fn ends_with_vec(s: &[char], p: &[char]) -> (b: bool)
    ensures
        b == ends_with(s@, p@),
{
    let n = s.len();
    let m = p.len();
    if m > n {
        return false;
    }
    let off = n - m;
    let mut j: usize = off;
    while j < n
        invariant
            m <= n,
            n == s@.len(),
            m == p@.len(),
            off == n - m,
            off <= j <= n,
            forall|k: int| off <= k < j ==> s@[k] == p@[k - off],
        decreases n - j,
    {
        if s[j] != p[j - off] {
            assert(s@.skip(off as int)[j - off] != p@[j - off]);
            return false;
        }
        j += 1;
    }
    assert(s@.skip(off as int) =~= p@);
    true
}

/// The index of the first `c` in `s`.
pub open spec fn index_of(s: Seq<char>, c: char) -> Option<int> {
    if exists|i: int| 0 <= i < s.len() && s[i] == c {
        Some(choose|i: int| 0 <= i < s.len() && s[i] == c && forall|k: int| 0 <= k < i ==> s[k] != c)
    } else {
        None
    }
}

/// `s.split_once(c)`: the text before and after the first `c`.
pub open spec fn split_once(s: Seq<char>, c: char) -> Option<(Seq<char>, Seq<char>)> {
    match index_of(s, c) {
        Some(i) => Some((s.take(i), s.skip(i + 1))),
        None => None,
    }
}

/// Where `index_of` finds `c`, `c` stands there.
pub proof fn lemma_index_of_found(s: Seq<char>, c: char)
    ensures
        index_of(s, c) matches Some(i) ==> 0 <= i < s.len() && s[i] == c,
{
    if exists|i: int| 0 <= i < s.len() && s[i] == c {
        let j = choose|i: int| 0 <= i < s.len() && s[i] == c;
        lemma_first_index_exists(s, c, j);
    }
}

/// A `c` at `j` means there is a first `c`.
proof fn lemma_first_index_exists(s: Seq<char>, c: char, j: int)
    requires
        0 <= j < s.len(),
        s[j] == c,
    ensures
        exists|i: int| 0 <= i < s.len() && s[i] == c && forall|k: int| 0 <= k < i ==> s[k] != c,
    decreases j,
{
    if exists|k: int| 0 <= k < j && s[k] == c {
        let k = choose|k: int| 0 <= k < j && s[k] == c;
        lemma_first_index_exists(s, c, k);
    } else {
        assert(0 <= j < s.len() && s[j] == c && forall|k: int| 0 <= k < j ==> s[k] != c);
    }
}

/// A part of ASCII text is ASCII.
pub proof fn lemma_subrange_ascii(s: Seq<char>, a: int, b: int)
    requires
        all_ascii(s),
        0 <= a <= b <= s.len(),
    ensures
        all_ascii(s.subrange(a, b)),
{
    assert forall|i: int| 0 <= i < b - a implies (#[trigger] s.subrange(a, b)[i] as u32) < 0x80 by {
        assert(s.subrange(a, b)[i] == s[a + i]);
    }
}

/// The two parts of ASCII text around its first `c` are ASCII.
pub proof fn lemma_split_once_ascii(s: Seq<char>, c: char)
    requires
        all_ascii(s),
    ensures
        split_once(s, c) matches Some(p) ==> all_ascii(p.0) && all_ascii(p.1),
{
    lemma_index_of_found(s, c);
    if let Some(i) = index_of(s, c) {
        lemma_subrange_ascii(s, 0, i);
        lemma_subrange_ascii(s, i + 1, s.len() as int);
        assert(s.take(i) =~= s.subrange(0, i));
        assert(s.skip(i + 1) =~= s.subrange(i + 1, s.len() as int));
    }
}

/// ASCII lowercasing twice is lowercasing once.
pub proof fn lemma_ascii_lower_idempotent(s: Seq<char>)
    ensures
        ascii_lower(ascii_lower(s)) == ascii_lower(s),
{
    assert forall|i: int| 0 <= i < s.len() implies #[trigger] ascii_lower_char(ascii_lower_char(s[i])) == ascii_lower_char(s[i]) by {
        let c = s[i];
        if 'A' <= c <= 'Z' {
            let d = ((c as u32) + 32) as char;
            assert(d as u32 == (c as u32) + 32);
            assert(!('A' <= d <= 'Z'));
        }
    }
    assert(ascii_lower(ascii_lower(s)) =~= ascii_lower(s));
}

pub fn index_of_vec(s: &[char], c: char) -> (r: Option<usize>)
    ensures
        r is Some == index_of(s@, c) is Some,
        r is Some ==> index_of(s@, c) == Some(r->0 as int) && r->0 < s@.len() && s@[r->0 as int] == c,
{
    let mut i: usize = 0;
    while i < s.len()
        invariant
            i <= s@.len(),
            forall|k: int| 0 <= k < i ==> s@[k] != c,
        decreases s.len() - i,
    {
        if s[i] == c {
            proof {
                let w = choose|j: int| 0 <= j < s@.len() && s@[j] == c && forall|k: int| 0 <= k < j ==> s@[k] != c;
                assert(0 <= i < s@.len() && s@[i as int] == c && forall|k: int| 0 <= k < i ==> s@[k] != c);
                if w < i { assert(s@[w] != c); }
                if w > i { assert(s@[i as int] != c); }
            }
            return Some(i);
        }
        i += 1;
    }
    None
}

/// `s.split_once(c)`.
pub fn split_once_vec(s: &[char], c: char) -> (r: Option<(Vec<char>, Vec<char>)>)
    ensures
        r is Some == split_once(s@, c) is Some,
        r is Some ==> (r->0).0@ == (split_once(s@, c)->0).0 && (r->0).1@ == (split_once(s@, c)->0).1,
{
    match index_of_vec(s, c) {
        Some(i) => {
            let n = s.len();
            assert(i < n);
            let a = slice_vec(s, 0, i);
            let b = slice_vec(s, i + 1, n);
            proof {
                assert(a@ =~= s@.take(i as int));
                assert(b@ =~= s@.skip(i + 1));
            }
            Some((a, b))
        },
        None => None,
    }
}

/// `s.split(c)`: the pieces between occurrences of `c` (at least one).
pub open spec fn split_char(s: Seq<char>, c: char) -> Seq<Seq<char>> {
    split_acc(s, c, Seq::empty(), Seq::empty())
}

pub open spec fn split_acc(s: Seq<char>, c: char, done: Seq<Seq<char>>, cur: Seq<char>) -> Seq<Seq<char>>
    decreases s.len(),
{
    if s.len() == 0 {
        done.push(cur)
    } else if s[0] == c {
        split_acc(s.drop_first(), c, done.push(cur), Seq::empty())
    } else {
        split_acc(s.drop_first(), c, done, cur.push(s[0]))
    }
}

pub fn split_char_vec(s: &[char], c: char) -> (out: Vec<Vec<char>>)
    ensures
        out@.map_values(|l: Vec<char>| l@) == split_char(s@, c),
{
    let mut done: Vec<Vec<char>> = Vec::new();
    let mut cur: Vec<char> = Vec::new();
    let mut i: usize = 0;
    proof {
        assert(s@.skip(0) =~= s@);
        assert(done@.map_values(|l: Vec<char>| l@) =~= Seq::<Seq<char>>::empty());
    }
    while i < s.len()
        invariant
            i <= s@.len(),
            split_char(s@, c) == split_acc(s@.skip(i as int), c, done@.map_values(|l: Vec<char>| l@), cur@),
        decreases s.len() - i,
    {
        proof {
            let r = s@.skip(i as int);
            assert(r[0] == s@[i as int]);
            assert(r.drop_first() =~= s@.skip(i + 1));
        }
        if s[i] == c {
            proof {
                assert(done@.push(cur).map_values(|l: Vec<char>| l@) =~= done@.map_values(|l: Vec<char>| l@).push(cur@));
            }
            done.push(cur);
            cur = Vec::new();
        } else {
            cur.push(s[i]);
        }
        i += 1;
    }
    proof {
        assert(s@.skip(s@.len() as int) =~= Seq::<char>::empty());
        assert(done@.push(cur).map_values(|l: Vec<char>| l@) =~= done@.map_values(|l: Vec<char>| l@).push(cur@));
    }
    done.push(cur);
    done
}

/// Strict lexicographic order on character sequences (Rust's `String`
/// ordering: UTF-8 byte order agrees with code-point order).
pub open spec fn seq_lt(a: Seq<char>, b: Seq<char>) -> bool
    decreases a.len(),
{
    if a.len() == 0 {
        b.len() > 0
    } else if b.len() == 0 {
        false
    } else if a[0] != b[0] {
        (a[0] as u32) < (b[0] as u32)
    } else {
        seq_lt(a.drop_first(), b.drop_first())
    }
}

pub proof fn lemma_seq_lt_total(a: Seq<char>, b: Seq<char>)
    ensures
        a == b || seq_lt(a, b) || seq_lt(b, a),
        !(seq_lt(a, b) && seq_lt(b, a)),
        !seq_lt(a, a),
    decreases a.len(),
{
    if a.len() > 0 {
        lemma_seq_lt_total(a.drop_first(), a.drop_first());
    }
    if a.len() > 0 && b.len() > 0 && a[0] == b[0] {
        lemma_seq_lt_total(a.drop_first(), b.drop_first());
        if a.drop_first() == b.drop_first() {
            assert(a =~= seq![a[0]] + a.drop_first());
            assert(b =~= seq![b[0]] + b.drop_first());
        }
    } else if a.len() == 0 && b.len() == 0 {
        assert(a =~= b);
    } else if a.len() > 0 && b.len() > 0 {
        assert((a[0] as u32) != (b[0] as u32)) by {
            if (a[0] as u32) == (b[0] as u32) {
                vstd::utf8::char_u32_cast(a[0], a[0] as u32);
                vstd::utf8::char_u32_cast(b[0], b[0] as u32);
            }
        }
    }
}

pub proof fn lemma_seq_lt_trans(a: Seq<char>, b: Seq<char>, c: Seq<char>)
    requires
        seq_lt(a, b),
        seq_lt(b, c),
    ensures
        seq_lt(a, c),
    decreases a.len(),
{
    if a.len() > 0 && b.len() > 0 && c.len() > 0 && a[0] == b[0] && b[0] == c[0] {
        lemma_seq_lt_trans(a.drop_first(), b.drop_first(), c.drop_first());
    }
}

pub fn seq_lt_vec(a: &[char], b: &[char]) -> (r: bool)
    ensures
        r == seq_lt(a@, b@),
{
    let mut i: usize = 0;
    proof {
        assert(a@.skip(0) =~= a@);
        assert(b@.skip(0) =~= b@);
    }
    while i < a.len() && i < b.len() && a[i] == b[i]
        invariant
            i <= a@.len(),
            i <= b@.len(),
            seq_lt(a@, b@) == seq_lt(a@.skip(i as int), b@.skip(i as int)),
        decreases a.len() - i,
    {
        proof {
            let x = a@.skip(i as int);
            let y = b@.skip(i as int);
            assert(x[0] == a@[i as int]);
            assert(y[0] == b@[i as int]);
            assert(x.drop_first() =~= a@.skip(i + 1));
            assert(y.drop_first() =~= b@.skip(i + 1));
        }
        i += 1;
    }
    proof {
        let x = a@.skip(i as int);
        let y = b@.skip(i as int);
        if i < a.len() { assert(x[0] == a@[i as int]); }
        if i < b.len() { assert(y[0] == b@[i as int]); }
    }
    if i == a.len() {
        i < b.len()
    } else if i == b.len() {
        false
    } else {
        (a[i] as u32) < (b[i] as u32)
    }
}


/// Whether every character of `s` is an ASCII digit.
pub open spec fn all_digits(s: Seq<char>) -> bool {
    forall|i: int| 0 <= i < s.len() ==> is_digit(#[trigger] s[i])
}

/// The mantissa of a decimal float literal: digits with at most one `.`, and
/// at least one digit.
pub open spec fn is_mantissa(m: Seq<char>) -> bool {
    match index_of(m, '.') {
        Some(i) => all_digits(m.take(i)) && all_digits(m.skip(i + 1)) && m.len() > 1,
        None => m.len() > 0 && all_digits(m),
    }
}

/// An exponent after `e`: an optional sign and at least one digit.
pub open spec fn is_exponent(x: Seq<char>) -> bool {
    let d = if x.len() > 0 && (x[0] == '+' || x[0] == '-') { x.drop_first() } else { x };
    d.len() > 0 && all_digits(d)
}

/// A number as `f64::from_str` reads it (already lowercased).
pub open spec fn is_number(t: Seq<char>) -> bool {
    match index_of(t, 'e') {
        Some(i) => is_mantissa(t.take(i)) && is_exponent(t.skip(i + 1)),
        None => is_mantissa(t),
    }
}

/// Whether `s.parse::<f64>()` succeeds: an optional sign, then `inf`,
/// `infinity`, `nan` or a decimal number with optional exponent, letters in
/// any case.
pub open spec fn is_float_literal(s: Seq<char>) -> bool {
    let t = if s.len() > 0 && (s[0] == '+' || s[0] == '-') { s.drop_first() } else { s };
    let l = ascii_lower(t);
    l == "inf"@ || l == "infinity"@ || l == "nan"@ || is_number(l)
}

pub fn all_digits_vec(s: &[char]) -> (b: bool)
    ensures
        b == all_digits(s@),
{
    let mut i: usize = 0;
    while i < s.len()
        invariant
            i <= s@.len(),
            forall|k: int| 0 <= k < i ==> is_digit(#[trigger] s@[k]),
        decreases s.len() - i,
    {
        if !(s[i] >= '0' && s[i] <= '9') {
            assert(!is_digit(s@[i as int]));
            return false;
        }
        i += 1;
    }
    true
}

pub fn is_mantissa_vec(m: &[char]) -> (b: bool)
    ensures
        b == is_mantissa(m@),
{
    match split_once_vec(m, '.') {
        Some((a, rest)) => all_digits_vec(a.as_slice()) && all_digits_vec(rest.as_slice()) && m.len() > 1,
        None => m.len() > 0 && all_digits_vec(m),
    }
}

pub fn is_exponent_vec(x: &[char]) -> (b: bool)
    ensures
        b == is_exponent(x@),
{
    let start: usize = if x.len() > 0 && (x[0] == '+' || x[0] == '-') { 1 } else { 0 };
    let d = slice_vec(x, start, x.len());
    proof {
        if start == 1 { assert(d@ =~= x@.drop_first()); } else { assert(d@ =~= x@); }
    }
    d.len() > 0 && all_digits_vec(d.as_slice())
}

/// Whether `s.parse::<f64>()` succeeds.
pub fn is_float_literal_vec(s: &[char]) -> (b: bool)
    ensures
        b == is_float_literal(s@),
{
    let start: usize = if s.len() > 0 && (s[0] == '+' || s[0] == '-') { 1 } else { 0 };
    let t = slice_vec(s, start, s.len());
    proof {
        if start == 1 { assert(t@ =~= s@.drop_first()); } else { assert(t@ =~= s@); }
    }
    let l = ascii_lower_vec(t.as_slice());
    if chars_eq_str(l.as_slice(), "inf") || chars_eq_str(l.as_slice(), "infinity") || chars_eq_str(l.as_slice(), "nan") {
        return true;
    }
    match split_once_vec(l.as_slice(), 'e') {
        Some((m, x)) => is_mantissa_vec(m.as_slice()) && is_exponent_vec(x.as_slice()),
        None => is_mantissa_vec(l.as_slice()),
    }
}

/// The decimal digits of 2^1024 - 2^970, the least value that `f64`
/// parsing rounds to infinity (half-way between the largest finite `f64`
/// and 2^1024, where ties go to the even neighbour, 2^1024).
pub open spec fn f64_overflow_digits() -> Seq<char> {
    "179769313486231580793728971405303415079934132710037826936173778980444968292764750946649017977587207096330286416692887910946555547851940402630657488671505820681908902000708383676273854845817711531764475730270069855571366959622842914819860834936475292719074168444365510704342711559699508093042880177904174497792"@
}

/// Whether the digit string `x`, read as the digits after a decimal point,
/// is at least `y` read the same way (the shorter padded with zeros).
pub open spec fn digits_at_least(x: Seq<char>, y: Seq<char>) -> bool
    decreases y.len(),
{
    if y.len() == 0 {
        true
    } else {
        let hx = if x.len() > 0 { x[0] } else { '0' };
        if hx != y[0] {
            (hx as u32) > (y[0] as u32)
        } else {
            digits_at_least(if x.len() > 0 { x.drop_first() } else { x }, y.drop_first())
        }
    }
}

/// The signed value of an exponent: an optional sign, then digits.
pub open spec fn exponent_value(x: Seq<char>) -> int {
    if x.len() > 0 && x[0] == '-' {
        -(digits_value(x.drop_first()) as int)
    } else if x.len() > 0 && x[0] == '+' {
        digits_value(x.drop_first()) as int
    } else {
        digits_value(x) as int
    }
}

/// The mantissa and exponent of a number literal.
pub open spec fn mantissa_exponent(l: Seq<char>) -> (Seq<char>, Seq<char>) {
    match split_once(l, 'e') {
        Some(parts) => parts,
        None => (l, Seq::empty()),
    }
}

/// The integer and fraction digits of a mantissa.
pub open spec fn integer_fraction(m: Seq<char>) -> (Seq<char>, Seq<char>) {
    match split_once(m, '.') {
        Some(parts) => parts,
        None => (m, Seq::empty()),
    }
}

/// Whether a number literal (lowercase, unsigned) is at least 2^1024 -
/// 2^970 in value, so that `f64` parsing overflows to infinity. With `d` its
/// significant digits (leading zeros dropped) and `p` the place of the first
/// of them, its value is 0.d times 10^p: it overflows when it is not zero
/// and p exceeds the threshold's 309 places, or equals them with d at least
/// the threshold's digits.
pub open spec fn number_overflows(l: Seq<char>) -> bool {
    let (m, x) = mantissa_exponent(l);
    let (a, b) = integer_fraction(m);
    let d = drop_front(a + b, char_pred('0'));
    let p = d.len() + exponent_value(x) - b.len();
    d.len() > 0 && (p > 309 || (p == 309 && digits_at_least(d, f64_overflow_digits())))
}

/// Whether a float literal (one that `f64::from_str` accepts) denotes a
/// finite `f64`: it is not `inf`, `infinity` or `nan`, and does not overflow.
pub open spec fn float_literal_finite(s: Seq<char>) -> bool {
    let t = if s.len() > 0 && (s[0] == '+' || s[0] == '-') { s.drop_first() } else { s };
    let l = ascii_lower(t);
    !(l == "inf"@ || l == "infinity"@ || l == "nan"@) && !number_overflows(l)
}

/// Whether the digits `x` are at least the digits `y`, both read after a
/// decimal point.
pub fn digits_at_least_vec(x: &[char], y: &[char]) -> (b: bool)
    ensures
        b == digits_at_least(x@, y@),
{
    let xl = x.len();
    let mut k: usize = 0;
    proof {
        assert(x@.skip(0) =~= x@);
        assert(y@.skip(0) =~= y@);
    }
    while k < y.len()
        invariant
            xl == x@.len(),
            k <= y@.len(),
            digits_at_least(x@, y@) == digits_at_least(x@.skip(if k < xl { k as int } else { xl as int }), y@.skip(k as int)),
        decreases y.len() - k,
    {
        let ghost xs = x@.skip(if k < xl { k as int } else { xl as int });
        let ghost ys = y@.skip(k as int);
        let hx = if k < xl { x[k] } else { '0' };
        proof {
            assert(ys[0] == y@[k as int]);
            if k < xl {
                assert(xs[0] == x@[k as int]);
                assert(xs.drop_first() =~= x@.skip(k + 1));
            } else {
                assert(xs.len() == 0);
                assert(x@.skip(xl as int).len() == 0);
            }
            assert(ys.drop_first() =~= y@.skip(k + 1));
        }
        if hx != y[k] {
            return (hx as u32) > (y[k] as u32);
        }
        proof {
            if k + 1 < xl {
            } else if k < xl {
                assert(x@.skip(k + 1) =~= x@.skip(xl as int));
            }
        }
        k += 1;
    }
    proof { assert(y@.skip(y@.len() as int).len() == 0); }
    true
}

/// Whether a float literal denotes a finite `f64`.
pub fn float_literal_finite_vec(s: &[char]) -> (b: bool)
    requires
        is_float_literal(s@),
    ensures
        b == float_literal_finite(s@),
{
    let start: usize = if s.len() > 0 && (s[0] == '+' || s[0] == '-') { 1 } else { 0 };
    let t = slice_vec(s, start, s.len());
    proof {
        if start == 1 { assert(t@ =~= s@.drop_first()); } else { assert(t@ =~= s@); }
    }
    let l = ascii_lower_vec(t.as_slice());
    if chars_eq_str(l.as_slice(), "inf") || chars_eq_str(l.as_slice(), "infinity") || chars_eq_str(l.as_slice(), "nan") {
        return false;
    }
    proof { assert(is_number(l@)); }
    let (m, x) = match split_once_vec(l.as_slice(), 'e') {
        Some(parts) => parts,
        None => (l.clone(), Vec::new()),
    };
    proof {
        assert(m@ == mantissa_exponent(l@).0);
        assert(x@ =~= mantissa_exponent(l@).1);
    }
    let (a, b) = match split_once_vec(m.as_slice(), '.') {
        Some(parts) => parts,
        None => (m.clone(), Vec::new()),
    };
    proof {
        assert(a@ == integer_fraction(m@).0);
        assert(b@ =~= integer_fraction(m@).1);
    }
    let sig = significant_digits(&a, &b);
    if sig.len() == 0 {
        return true;
    }
    let e: i128 = if x.len() == 0 {
        proof { assert(exponent_value(x@) == 0); }
        0
    } else {
        proof { assert(is_exponent(x@)); }
        saturated_exponent(x.as_slice())
    };
    let p: i128 = sig.len() as i128 + e - b.len() as i128;
    proof {
        let ev = exponent_value(x@);
        let pr = sig@.len() + ev - b@.len();
        assert(p > 309 <==> pr > 309);
        assert(p == 309 <==> pr == 309);
    }
    if p > 309 {
        return false;
    }
    if p < 309 {
        return true;
    }
    let threshold = chars_of("179769313486231580793728971405303415079934132710037826936173778980444968292764750946649017977587207096330286416692887910946555547851940402630657488671505820681908902000708383676273854845817711531764475730270069855571366959622842914819860834936475292719074168444365510704342711559699508093042880177904174497792");
    !digits_at_least_vec(sig.as_slice(), threshold.as_slice())
}

/// The significant digits of a mantissa with integer digits `a` and
/// fraction digits `b`: all of them, leading zeros dropped.
fn significant_digits(a: &Vec<char>, b: &Vec<char>) -> (sig: Vec<char>)
    ensures
        sig@ == drop_front(a@ + b@, char_pred('0')),
{
    let mut digits = a.clone();
    proof { assert(digits@ == a@); }
    append_digits(&mut digits, b.as_slice());
    let mut z: usize = 0;
    while z < digits.len() && digits[z] == '0'
        invariant
            z <= digits@.len(),
            forall|k: int| 0 <= k < z ==> (char_pred('0'))(#[trigger] digits@[k]),
        decreases digits.len() - z,
    {
        z += 1;
    }
    proof { lemma_drop_front_at(digits@, char_pred('0'), z as int); }
    slice_vec(digits.as_slice(), z, digits.len())
}

/// The exponent's value, saturated at 2^100 in magnitude.
fn saturated_exponent(x: &[char]) -> (e: i128)
    requires
        is_exponent(x@),
    ensures
        -1267650600228229401496703205376 <= e <= 1267650600228229401496703205376,
        e == exponent_value(x@)
            || (e == 1267650600228229401496703205376 && exponent_value(x@) >= 1267650600228229401496703205376)
            || (e == -1267650600228229401496703205376 && exponent_value(x@) <= -1267650600228229401496703205376),
{
    let cap: u128 = 1267650600228229401496703205376u128;
    let neg = x.len() > 0 && x[0] == '-';
    let estart: usize = if x.len() > 0 && (x[0] == '-' || x[0] == '+') { 1 } else { 0 };
    let ghost ed = x@.skip(estart as int);
    proof {
        if estart == 1 { assert(ed =~= x@.drop_first()); } else { assert(ed =~= x@); }
        assert(all_digits(ed));
    }
    let mut acc: u128 = 0;
    let mut k: usize = estart;
    proof { assert(ed.take(0) =~= Seq::<char>::empty()); }
    while k < x.len()
        invariant
            estart <= k <= x@.len(),
            ed == x@.skip(estart as int),
            all_digits(ed),
            cap == 1267650600228229401496703205376u128,
            acc == if digits_value(ed.take(k - estart)) >= cap { cap as nat } else { digits_value(ed.take(k - estart)) },
        decreases x.len() - k,
    {
        let ghost i = k - estart;
        proof {
            assert(ed[i] == x@[k as int]);
            assert(is_digit(ed[i]));
            assert(ed.take(i + 1).drop_last() =~= ed.take(i));
            assert(ed.take(i + 1).last() == ed[i]);
        }
        let digit = (x[k] as u32 - 48) as u128;
        if acc < cap {
            let next = acc * 10 + digit;
            acc = if next >= cap { cap } else { next };
        } else {
            proof {
                assert(digits_value(ed.take(i + 1)) == digits_value(ed.take(i)) * 10 + digit);
                assert(digits_value(ed.take(i)) * 10 + digit >= digits_value(ed.take(i))) by (nonlinear_arith);
            }
        }
        k += 1;
    }
    proof { assert(ed.take(x@.len() - estart) =~= ed); }
    if neg { -(acc as i128) } else { acc as i128 }
}

fn append_digits(v: &mut Vec<char>, tail: &[char])
    ensures
        final(v)@ == old(v)@ + tail@,
{
    let ghost base = v@;
    let mut i: usize = 0;
    while i < tail.len()
        invariant
            i <= tail@.len(),
            v@ == base + tail@.take(i as int),
        decreases tail.len() - i,
    {
        proof { assert(base + tail@.take(i + 1) =~= (base + tail@.take(i as int)).push(tail@[i as int])); }
        v.push(tail[i]);
        i += 1;
    }
    proof { assert(tail@.take(tail@.len() as int) =~= tail@); }
}

/// Whether `pat` occurs in `s` starting at index `j`.
pub open spec fn occurs(s: Seq<char>, pat: Seq<char>, j: int) -> bool {
    0 <= j && j + pat.len() <= s.len() && s.subrange(j, j + pat.len()) == pat
}

/// Whether `j` is the first index at or after `from` where `pat` occurs in `s`.
pub open spec fn first_occurrence(s: Seq<char>, pat: Seq<char>, from: int, j: int) -> bool {
    from <= j && occurs(s, pat, j) && forall|k: int| from <= k < j ==> !occurs(s, pat, k)
}

/// The first index at or after `from` where `pat` occurs in `s`.
pub open spec fn find_from(s: Seq<char>, pat: Seq<char>, from: int) -> Option<int> {
    if exists|j: int| #[trigger] first_occurrence(s, pat, from, j) {
        Some(choose|j: int| #[trigger] first_occurrence(s, pat, from, j))
    } else {
        None
    }
}

/// Whether `pat` occurs in `s` at index `j`.
pub fn occurs_at(s: &[char], pat: &[char], j: usize) -> (b: bool)
    requires
        j <= s@.len(),
    ensures
        b == occurs(s@, pat@, j as int),
{
    let n = s.len();
    if pat.len() > n - j {
        return false;
    }
    let mut k: usize = 0;
    while k < pat.len()
        invariant
            n == s@.len(),
            j + pat@.len() <= s@.len(),
            k <= pat@.len(),
            forall|q: int| 0 <= q < k ==> s@[j + q] == pat@[q],
        decreases pat.len() - k,
    {
        if s[j + k] != pat[k] {
            assert(s@.subrange(j as int, j + pat@.len())[k as int] != pat@[k as int]);
            return false;
        }
        k += 1;
    }
    assert(s@.subrange(j as int, j + pat@.len()) =~= pat@);
    true
}

/// `find_from` on slices.
pub fn find_from_vec(s: &[char], pat: &[char], from: usize) -> (r: Option<usize>)
    requires
        from <= s@.len(),
    ensures
        r is Some == find_from(s@, pat@, from as int) is Some,
        r is Some ==> find_from(s@, pat@, from as int) == Some(r->0 as int) && from <= r->0 && r->0 + pat@.len() <= s@.len(),
{
    let n = s.len();
    let mut j = from;
    while j <= n
        invariant
            from <= j <= n + 1,
            n == s@.len(),
            forall|k: int| from <= k < j ==> !#[trigger] occurs(s@, pat@, k),
        decreases n + 1 - j,
    {
        if occurs_at(s, pat, j) {
            proof {
                assert(first_occurrence(s@, pat@, from as int, j as int));
                let w = choose|q: int| #[trigger] first_occurrence(s@, pat@, from as int, q);
                if w < j {
                    assert(!occurs(s@, pat@, w));
                }
                if w > j {
                    assert(!occurs(s@, pat@, j as int));
                }
            }
            return Some(j);
        }
        if j == n {
            proof {
                assert forall|q: int| !#[trigger] first_occurrence(s@, pat@, from as int, q) by {
                    if from <= q && q <= n {
                    }
                }
            }
            return None;
        }
        j += 1;
    }
    None
}

/// `s` without any number of leading copies of `p`.
pub open spec fn strip_prefix_rep(s: Seq<char>, p: Seq<char>) -> Seq<char>
    decreases s.len(),
{
    if p.len() > 0 && starts_with(s, p) {
        strip_prefix_rep(s.skip(p.len() as int), p)
    } else {
        s
    }
}

pub fn strip_prefix_rep_vec(s: &[char], p: &[char]) -> (out: Vec<char>)
    ensures
        out@ == strip_prefix_rep(s@, p@),
{
    let n = s.len();
    let mut i: usize = 0;
    proof { assert(s@.skip(0) =~= s@); }
    while p.len() > 0 && i <= n && occurs_at(s, p, i)
        invariant
            i <= n == s@.len(),
            strip_prefix_rep(s@, p@) == strip_prefix_rep(s@.skip(i as int), p@),
        decreases n - i,
    {
        proof {
            let r = s@.skip(i as int);
            assert(r.take(p@.len() as int) =~= s@.subrange(i as int, i + p@.len()));
            assert(r.skip(p@.len() as int) =~= s@.skip(i + p@.len()));
        }
        i = i + p.len();
    }
    proof {
        let r = s@.skip(i as int);
        if p@.len() > 0 && starts_with(r, p@) {
            assert(r.take(p@.len() as int) =~= s@.subrange(i as int, i + p@.len()));
        }
    }
    slice_vec(s, i, n)
}


/// The Unicode lowercase mapping of `s`, as std's `str::to_lowercase`
/// computes it (locale-independent, from Unicode's tables).
pub uninterp spec fn unicode_lowercase(s: Seq<char>) -> Seq<char>;

/// Lowercases `s` with std's `str::to_lowercase`; the result is named
/// `unicode_lowercase`. Stated beyond the name: on ASCII text it is the
/// ASCII lowercase (std maps `A`..`Z` to `a`..`z` and leaves every other
/// ASCII character as it is).
#[verifier::external_body]
pub(crate) fn to_lowercase_string(s: &str) -> (out: String)
    ensures
        out@ == unicode_lowercase(s@),
        all_ascii(s@) ==> out@ == ascii_lower(s@),
{
    s.to_lowercase()
}


/// The index of the last `c` in `s`.
pub open spec fn last_index_of(s: Seq<char>, c: char) -> Option<int>
    decreases s.len(),
{
    if s.len() == 0 {
        None
    } else if s.last() == c {
        Some(s.len() - 1)
    } else {
        last_index_of(s.drop_last(), c)
    }
}

pub proof fn lemma_last_index_of_bounds(s: Seq<char>, c: char)
    ensures
        last_index_of(s, c) matches Some(i) ==> 0 <= i < s.len() && s[i] == c,
    decreases s.len(),
{
    if s.len() > 0 && s.last() != c {
        lemma_last_index_of_bounds(s.drop_last(), c);
    }
}

/// The index of the last `c` in `s`.
pub fn last_index_of_vec(s: &[char], c: char) -> (r: Option<usize>)
    ensures
        r is Some == last_index_of(s@, c) is Some,
        r is Some ==> last_index_of(s@, c) == Some(r->0 as int) && r->0 < s@.len(),
{
    let mut i = s.len();
    proof { assert(s@.take(i as int) =~= s@); }
    while i > 0
        invariant
            i <= s@.len(),
            last_index_of(s@, c) == last_index_of(s@.take(i as int), c),
        decreases i,
    {
        proof {
            assert(s@.take(i as int).drop_last() =~= s@.take(i - 1));
            assert(s@.take(i as int).last() == s@[i - 1]);
        }
        if s[i - 1] == c {
            return Some(i - 1);
        }
        i -= 1;
    }
    None
}

/// `s` without any number of trailing copies of `suffix`.
pub open spec fn strip_suffix_rep(s: Seq<char>, suffix: Seq<char>) -> Seq<char>
    decreases s.len(),
{
    if suffix.len() > 0 && ends_with(s, suffix) {
        strip_suffix_rep(s.take(s.len() - suffix.len()), suffix)
    } else {
        s
    }
}

pub fn strip_suffix_rep_vec(s: &[char], suffix: &[char]) -> (out: Vec<char>)
    ensures
        out@ == strip_suffix_rep(s@, suffix@),
{
    let mut end = s.len();
    let m = suffix.len();
    proof { assert(s@.take(end as int) =~= s@); }
    while m > 0 && end >= m
        invariant
            end <= s@.len(),
            m == suffix@.len(),
            strip_suffix_rep(s@, suffix@) == strip_suffix_rep(s@.take(end as int), suffix@),
        ensures
            end <= s@.len(),
            strip_suffix_rep(s@, suffix@) == s@.take(end as int),
        decreases end,
    {
        let head = slice_vec(s, 0, end);
        if !ends_with_vec(head.as_slice(), suffix) {
            proof { assert(head@ =~= s@.take(end as int)); }
            break;
        }
        proof {
            assert(head@ =~= s@.take(end as int));
            assert(s@.take(end as int).take(end - m) =~= s@.take(end - m));
        }
        end = end - m;
    }
    slice_vec(s, 0, end)
}

/// Two texts are equal ignoring ASCII case exactly when they have the same
/// length and agree character for character once ASCII capitals are
/// lowered; in particular an ASCII capital and its small letter agree.
pub proof fn lemma_eq_ignore_ascii_case(a: Seq<char>, b: Seq<char>)
    ensures
        eq_ignore_ascii_case(a, b) <==> (a.len() == b.len()
            && forall|i: int| 0 <= i < a.len() ==> #[trigger] ascii_lower_char(a[i]) == ascii_lower_char(b[i])),
        forall|c: char| 'A' <= c <= 'Z' ==> (#[trigger] ascii_lower_char(c)) as u32 == c as u32 + 32,
        forall|c: char| !('A' <= c <= 'Z') ==> #[trigger] ascii_lower_char(c) == c,
{
    if a.len() == b.len() && forall|i: int| 0 <= i < a.len() ==> #[trigger] ascii_lower_char(a[i]) == ascii_lower_char(b[i]) {
        assert(ascii_lower(a) =~= ascii_lower(b));
    }
    assert(ascii_lower(a).len() == a.len() && ascii_lower(b).len() == b.len());
    if eq_ignore_ascii_case(a, b) {
        assert(a.len() == b.len());
        assert forall|i: int| 0 <= i < a.len() implies #[trigger] ascii_lower_char(a[i]) == ascii_lower_char(b[i]) by {
            assert(ascii_lower(a)[i] == ascii_lower_char(a[i]));
            assert(ascii_lower(b)[i] == ascii_lower_char(b[i]));
            assert(ascii_lower(a)[i] == ascii_lower(b)[i]);
        }
    }
    assert forall|c: char| 'A' <= c <= 'Z' implies (#[trigger] ascii_lower_char(c)) as u32 == c as u32 + 32 by {
        let d = ((c as u32) + 32) as char;
        assert(d as u32 == (c as u32) + 32);
    }
}

/// Where a character first stands in a text that is `a`, the character,
/// then `b`, when `a` does not hold it: right after `a`.
pub proof fn lemma_index_of_after(a: Seq<char>, c: char, b: Seq<char>)
    requires
        forall|i: int| 0 <= i < a.len() ==> #[trigger] a[i] != c,
    ensures
        index_of(a + seq![c] + b, c) == Some(a.len() as int),
{
    let s = a + seq![c] + b;
    assert(s[a.len() as int] == c);
    assert forall|k: int| 0 <= k < a.len() implies s[k] != c by {
        assert(s[k] == a[k]);
    }
    lemma_index_of_found(s, c);
    let w = index_of(s, c)->0;
    assert(forall|k: int| 0 <= k < w ==> s[k] != c);
    if w < a.len() {
        assert(s[w] == a[w]);
    }
}

/// A text without `c` has no first `c`.
pub proof fn lemma_index_of_absent(s: Seq<char>, c: char)
    requires
        forall|i: int| 0 <= i < s.len() ==> #[trigger] s[i] != c,
    ensures
        index_of(s, c) is None,
{
}

/// Trimmed text is a stretch of the text.
pub proof fn lemma_trim_sub(s: Seq<char>) -> (off: int)
    ensures
        0 <= off && off + trim(s).len() <= s.len(),
        trim(s) == s.subrange(off, off + trim(s).len()),
{
    lemma_drop_front_sub(s, ws_pred());
    let a = drop_front(s, ws_pred());
    lemma_drop_back_sub(a, ws_pred());
    let b = drop_back(a, ws_pred());
    let off = s.len() - a.len();
    assert(b =~= s.subrange(off, off + b.len()));
    off
}

/// Where a character last stands in `a`, the character, then `b`, when `b`
/// does not hold it: right after `a`.
pub proof fn lemma_last_index_of_after(a: Seq<char>, c: char, b: Seq<char>)
    requires
        forall|i: int| 0 <= i < b.len() ==> #[trigger] b[i] != c,
    ensures
        last_index_of(a + seq![c] + b, c) == Some(a.len() as int),
    decreases b.len(),
{
    let s = a + seq![c] + b;
    if b.len() == 0 {
        assert(s.last() == c);
    } else {
        assert(s.last() == b.last());
        assert(b.last() == b[b.len() - 1]);
        assert(s.drop_last() =~= a + seq![c] + b.drop_last());
        assert forall|i: int| 0 <= i < b.drop_last().len() implies #[trigger] b.drop_last()[i] != c by {
            assert(b.drop_last()[i] == b[i]);
        }
        lemma_last_index_of_after(a, c, b.drop_last());
    }
}

/// A text without `c` has no last `c`.
pub proof fn lemma_last_index_of_absent(s: Seq<char>, c: char)
    requires
        forall|i: int| 0 <= i < s.len() ==> #[trigger] s[i] != c,
    ensures
        last_index_of(s, c) is None,
    decreases s.len(),
{
    if s.len() > 0 {
        assert(s.last() == s[s.len() - 1]);
        assert forall|i: int| 0 <= i < s.drop_last().len() implies #[trigger] s.drop_last()[i] != c by {
            assert(s.drop_last()[i] == s[i]);
        }
        lemma_last_index_of_absent(s.drop_last(), c);
    }
}

/// Decimal text is made of digits, starts with a non-zero digit unless the
/// number is 0, and reads back as the number.
pub proof fn lemma_decimal_text_digits(n: nat)
    ensures
        decimal_text(n).len() > 0,
        forall|i: int| 0 <= i < decimal_text(n).len() ==> is_digit(#[trigger] decimal_text(n)[i]),
        digits_value(decimal_text(n)) == n,
        n > 0 ==> decimal_text(n)[0] != '0',
        n < 10 ==> decimal_text(n).len() == 1,
    decreases n,
{
    if n < 10 {
        let d = digit_char(n);
        assert(d as u32 == n + 48);
        assert(seq![d].drop_last() =~= Seq::<char>::empty());
        assert(digits_value(Seq::<char>::empty()) == 0);
        assert(digits_value(seq![d]) == digits_value(seq![d].drop_last()) * 10 + ((seq![d].last() as u32) - 48) as nat);
    } else {
        lemma_decimal_text_digits(n / 10);
        let p = decimal_text(n / 10);
        let d = digit_char(n % 10);
        assert(d as u32 == n % 10 + 48);
        assert(decimal_text(n) == p.push(d));
        assert(p.push(d).drop_last() =~= p);
        assert(p.push(d).last() == d);
        assert forall|i: int| 0 <= i < p.push(d).len() implies is_digit(#[trigger] p.push(d)[i]) by {
            if i < p.len() {
                assert(p.push(d)[i] == p[i]);
            }
        }
        assert(p.push(d)[0] == p[0]);
        assert(digits_value(p.push(d)) == digits_value(p) * 10 + ((d as u32) - 48) as nat);
        assert(digits_value(p) == n / 10);
        assert((n / 10) * 10 + n % 10 == n);
    }
}

/// Writing a number in decimal and parsing it back gives the number, when
/// it fits the type parsed into.
pub proof fn lemma_decimal_round_trip(n: nat, max: nat)
    ensures
        n <= max ==> parse_unsigned(decimal_text(n), max) == Some(n),
        n > max ==> parse_unsigned(decimal_text(n), max) is None,
{
    lemma_decimal_text_digits(n);
    let t = decimal_text(n);
    assert(t[0] != '+') by {
        assert(is_digit(t[0]));
    }
    assert(unsigned_digits(t) == t);
}

/// Text order is lexicographic by code point: a proper prefix comes
/// before the longer text, and otherwise the first differing character
/// decides.
pub proof fn lemma_seq_lt_lexicographic(p: Seq<char>, x: char, y: char, r1: Seq<char>, r2: Seq<char>)
    ensures
        r1.len() > 0 ==> seq_lt(p, p + r1),
        seq_lt(p + r1, p) == false,
        x != y ==> (seq_lt(p + seq![x] + r1, p + seq![y] + r2) <==> (x as u32) < (y as u32)),
    decreases p.len(),
{
    if p.len() == 0 {
        assert(p + r1 =~= r1);
        assert(p + seq![x] + r1 =~= seq![x] + r1);
        assert(p + seq![y] + r2 =~= seq![y] + r2);
        assert((seq![x] + r1)[0] == x && (seq![y] + r2)[0] == y);
        if r1.len() > 0 {
            assert((p + r1).len() > 0);
        }
    } else {
        lemma_seq_lt_lexicographic(p.drop_first(), x, y, r1, r2);
        assert((p + r1).drop_first() =~= p.drop_first() + r1);
        assert((p + r1)[0] == p[0]);
        assert((p + seq![x] + r1).drop_first() =~= p.drop_first() + seq![x] + r1);
        assert((p + seq![y] + r2).drop_first() =~= p.drop_first() + seq![y] + r2);
        assert((p + seq![x] + r1)[0] == p[0] && (p + seq![y] + r2)[0] == p[0]);
    }
}

} // verus!
