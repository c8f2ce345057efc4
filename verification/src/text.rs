//! Character-level building blocks shared by every text-processing module:
//! ASCII/Unicode classification, decimal numbers, trimming, splitting and
//! joining, all specified over `Seq<char>`.

use vstd::prelude::*;
use vstd::utf8::*;
use vstd::string::*;

verus! {

/// `char::is_ascii_digit`.
pub open spec fn is_digit(c: char) -> bool {
    '0' <= c && c <= '9'
}

/// `char::is_ascii_alphabetic`.
pub open spec fn is_alpha(c: char) -> bool {
    ('a' <= c && c <= 'z') || ('A' <= c && c <= 'Z')
}

/// `char::is_ascii_alphanumeric`.
pub open spec fn is_alnum(c: char) -> bool {
    is_alpha(c) || is_digit(c)
}

/// `char::is_ascii_hexdigit`.
pub open spec fn is_hex_digit(c: char) -> bool {
    is_digit(c) || ('a' <= c && c <= 'f') || ('A' <= c && c <= 'F')
}

/// `char::is_whitespace`: the Unicode `White_Space` property.
pub open spec fn is_ws(c: char) -> bool {
    ('\u{9}' <= c && c <= '\u{d}') || c == ' ' || c == '\u{85}' || c == '\u{a0}' || c == '\u{1680}'
        || ('\u{2000}' <= c && c <= '\u{200a}') || c == '\u{2028}' || c == '\u{2029}'
        || c == '\u{202f}' || c == '\u{205f}' || c == '\u{3000}'
}

/// `char::to_ascii_uppercase`.
pub open spec fn upper(c: char) -> char {
    if 'a' <= c && c <= 'z' {
        ((c as u32) - 32) as char
    } else {
        c
    }
}

/// `char::to_ascii_lowercase`.
pub open spec fn lower(c: char) -> char {
    if 'A' <= c && c <= 'Z' {
        ((c as u32) + 32) as char
    } else {
        c
    }
}

pub fn is_digit_exec(c: char) -> (r: bool)
    ensures
        r == is_digit(c),
{
    '0' <= c && c <= '9'
}

pub fn is_alpha_exec(c: char) -> (r: bool)
    ensures
        r == is_alpha(c),
{
    ('a' <= c && c <= 'z') || ('A' <= c && c <= 'Z')
}

pub fn is_alnum_exec(c: char) -> (r: bool)
    ensures
        r == is_alnum(c),
{
    is_alpha_exec(c) || is_digit_exec(c)
}

pub fn is_ws_exec(c: char) -> (r: bool)
    ensures
        r == is_ws(c),
{
    ('\u{9}' <= c && c <= '\u{d}') || c == ' ' || c == '\u{85}' || c == '\u{a0}' || c == '\u{1680}'
        || ('\u{2000}' <= c && c <= '\u{200a}') || c == '\u{2028}' || c == '\u{2029}'
        || c == '\u{202f}' || c == '\u{205f}' || c == '\u{3000}'
}

pub fn upper_exec(c: char) -> (r: char)
    ensures
        r == upper(c),
{
    if 'a' <= c && c <= 'z' {
        let v: u32 = (c as u32) - 32;
        proof {
            assert(0x41 <= v <= 0x5a);
        }
        char_from_ascii(v as u8)
    } else {
        c
    }
}

pub fn lower_exec(c: char) -> (r: char)
    ensures
        r == lower(c),
{
    if 'A' <= c && c <= 'Z' {
        let v: u32 = (c as u32) + 32;
        char_from_ascii(v as u8)
    } else {
        c
    }
}

/// The ASCII character with code `b`.
pub fn char_from_ascii(b: u8) -> (c: char)
    requires
        b < 128,
    ensures
        c == (b as char),
        c as u32 == b as u32,
{
    b as char
}

/// The characters of `s`, collected.
pub fn chars_of(s: &str) -> (v: Vec<char>)
    ensures
        v@ == s@,
{
    let mut v: Vec<char> = Vec::new();
    for c in it: s.chars()
        invariant
            it.seq() == s@,
            v@.len() == it.index(),
            v@ == s@.take(v@.len() as int),
    {
        proof {
            assert(s@.take(it.index() + 1) == s@.take(it.index() as int).push(c));
        }
        v.push(c);
    }
    proof {
        assert(v@.len() == s@.len());
        assert(s@.take(s@.len() as int) == s@);
    }
    v
}

/// `String: FromIterator<char>` over `chars`.
#[verifier::external_body]
pub(crate) fn string_of(chars: &[char]) -> (s: String)
    ensures
        s@ == chars@,
{
    chars.iter().collect()
}

/// Appends `piece` to `out`.
pub fn push_all(out: &mut Vec<char>, piece: &[char])
    ensures
        final(out)@ == old(out)@ + piece@,
{
    let mut i: usize = 0;
    while i < piece.len()
        invariant
            i <= piece@.len(),
            out@ == old(out)@ + piece@.take(i as int),
        decreases piece@.len() - i,
    {
        proof {
            assert(piece@.take(i + 1) == piece@.take(i as int).push(piece@[i as int]));
        }
        out.push(piece[i]);
        i += 1;
    }
    proof {
        assert(piece@.take(piece@.len() as int) == piece@);
    }
}

/// Appends the characters of `piece` to `out`.
pub fn push_str(out: &mut Vec<char>, piece: &str)
    ensures
        final(out)@ == old(out)@ + piece@,
{
    let v = chars_of(piece);
    push_all(out, v.as_slice());
}

/// Whether two character sequences are equal.
pub fn chars_eq(a: &[char], b: &[char]) -> (r: bool)
    ensures
        r == (a@ == b@),
{
    if a.len() != b.len() {
        return false;
    }
    let mut i: usize = 0;
    while i < a.len()
        invariant
            a@.len() == b@.len(),
            i <= a@.len(),
            forall|j: int| 0 <= j < i ==> a@[j] == b@[j],
        decreases a@.len() - i,
    {
        if a[i] != b[i] {
            return false;
        }
        i += 1;
    }
    proof {
        assert(a@ =~= b@);
    }
    true
}

/// `a[from..to]` as its own vector.
pub fn slice_vec(a: &[char], from: usize, to: usize) -> (r: Vec<char>)
    requires
        from <= to <= a@.len(),
    ensures
        r@ == a@.subrange(from as int, to as int),
{
    let mut r: Vec<char> = Vec::new();
    let mut i = from;
    while i < to
        invariant
            from <= i <= to <= a@.len(),
            r@ == a@.subrange(from as int, i as int),
        decreases to - i,
    {
        proof {
            assert(a@.subrange(from as int, i + 1) == a@.subrange(from as int, i as int).push(a@[i as int]));
        }
        r.push(a[i]);
        i += 1;
    }
    r
}

/// Whether `a` starts with `p` at position `at`.
pub open spec fn starts_at(a: Seq<char>, at: int, p: Seq<char>) -> bool {
    0 <= at && at + p.len() <= a.len() && a.subrange(at, at + p.len()) == p
}

pub fn starts_at_exec(a: &[char], at: usize, p: &[char]) -> (r: bool)
    ensures
        r == starts_at(a@, at as int, p@),
{
    let n = a.len();
    if at > n || n - at < p.len() {
        return false;
    }
    let mut i: usize = 0;
    while i < p.len()
        invariant
            n == a@.len(),
            at <= a@.len(),
            at + p@.len() <= a@.len(),
            i <= p@.len(),
            forall|j: int| 0 <= j < i ==> a@[at + j] == p@[j],
        decreases p@.len() - i,
    {
        if a[at + i] != p[i] {
            assert(a@.subrange(at as int, at + p@.len())[i as int] != p@[i as int]);
            return false;
        }
        i += 1;
    }
    proof {
        assert(a@.subrange(at as int, at + p@.len()) =~= p@);
    }
    true
}

// ---------------------------------------------------------------------------
// Byte and UTF-16 lengths

/// Number of UTF-8 bytes that encode `s` (what `str::len` reports).
pub open spec fn utf8_len(s: Seq<char>) -> nat {
    encode_utf8(s).len()
}

/// Number of UTF-8 bytes that encode `c` (`char::len_utf8`).
pub open spec fn utf8_width(c: char) -> nat {
    encode_scalar(c as u32).len()
}

/// Number of UTF-16 code units that encode `c` (`char::len_utf16`).
pub open spec fn utf16_width(c: char) -> nat {
    if (c as u32) >= 0x10000 {
        2
    } else {
        1
    }
}

/// Number of UTF-16 code units that encode `s`.
pub open spec fn utf16_len(s: Seq<char>) -> nat
    decreases s.len(),
{
    if s.len() == 0 {
        0
    } else {
        utf16_len(s.drop_last()) + utf16_width(s.last())
    }
}

pub proof fn lemma_encode_utf8_concat(a: Seq<char>, b: Seq<char>)
    ensures
        encode_utf8(a + b) == encode_utf8(a) + encode_utf8(b),
    decreases a.len(),
{
    if a.len() == 0 {
        assert(a + b == b);
        assert(encode_utf8(a) =~= Seq::<u8>::empty());
        assert(encode_utf8(a) + encode_utf8(b) =~= encode_utf8(b));
    } else {
        lemma_encode_utf8_concat(a.drop_first(), b);
        assert((a + b).drop_first() == a.drop_first() + b);
        assert((a + b)[0] == a[0]);
        assert(encode_utf8(a + b) =~= encode_utf8(a) + encode_utf8(b));
    }
}

/// Appending a character adds its width.
pub proof fn lemma_utf8_len_push(s: Seq<char>, c: char)
    ensures
        utf8_len(s.push(c)) == utf8_len(s) + utf8_width(c),
{
    lemma_encode_utf8_concat(s, seq![c]);
    assert(s + seq![c] == s.push(c));
    assert(seq![c].drop_first() =~= Seq::<char>::empty());
    assert(encode_utf8(Seq::<char>::empty()) =~= Seq::<u8>::empty());
    assert(encode_utf8(seq![c]) =~= encode_scalar(c as u32));
}

/// The byte length of a concatenation.
pub proof fn lemma_utf8_len_concat(a: Seq<char>, b: Seq<char>)
    ensures
        utf8_len(a + b) == utf8_len(a) + utf8_len(b),
{
    lemma_encode_utf8_concat(a, b);
}

/// A prefix is no longer (in bytes) than the whole.
pub proof fn lemma_utf8_len_prefix(s: Seq<char>, k: int)
    requires
        0 <= k <= s.len(),
    ensures
        utf8_len(s.take(k)) <= utf8_len(s),
        utf8_len(s.take(k)) + utf8_len(s.skip(k)) == utf8_len(s),
{
    assert(s.take(k) + s.skip(k) == s);
    lemma_encode_utf8_concat(s.take(k), s.skip(k));
}

/// Byte offsets of character positions grow strictly.
pub proof fn lemma_utf8_len_take_mono(s: Seq<char>, j: int, k: int)
    requires
        0 <= j <= k <= s.len(),
    ensures
        utf8_len(s.take(j)) <= utf8_len(s.take(k)),
        j < k ==> utf8_len(s.take(j)) < utf8_len(s.take(k)),
{
    let a = s.take(k);
    assert(a.take(j) == s.take(j));
    lemma_utf8_len_prefix(a, j);
    if j < k {
        assert(a.skip(j).len() > 0);
        assert(a.skip(j) == seq![a.skip(j)[0]] + a.skip(j).drop_first());
        lemma_utf8_len_concat(seq![a.skip(j)[0]], a.skip(j).drop_first());
        lemma_utf8_len_push(Seq::<char>::empty(), a.skip(j)[0]);
        assert(Seq::<char>::empty().push(a.skip(j)[0]) == seq![a.skip(j)[0]]);
        lemma_utf8_width_pos(a.skip(j)[0]);
    }
}

pub proof fn lemma_utf8_width_pos(c: char)
    ensures
        1 <= utf8_width(c) <= 4,
{
    char_is_scalar(c);
}

/// `char::len_utf8`.
pub fn utf8_width_exec(c: char) -> (r: usize)
    ensures
        r == utf8_width(c),
        1 <= r <= 4,
{
    proof {
        char_is_scalar(c);
    }
    let v = c as u32;
    if v < 0x80 {
        1
    } else if v < 0x800 {
        2
    } else if v < 0x10000 {
        3
    } else {
        4
    }
}

/// `char::len_utf16`.
pub fn utf16_width_exec(c: char) -> (r: u32)
    ensures
        r == utf16_width(c),
{
    if (c as u32) >= 0x10000 {
        2
    } else {
        1
    }
}

/// `utf8_len(s.take(k))` for every `k <= s.len()`: the byte offset of each
/// character position.
pub fn byte_offsets(chars: &Vec<char>) -> (offs: Vec<usize>)
    requires
        utf8_len(chars@) <= usize::MAX,
    ensures
        offs@.len() == chars@.len() + 1,
        forall|k: int| 0 <= k <= chars@.len() ==> #[trigger] offs@[k] == utf8_len(chars@.take(k)),
{
    let ghost t = chars@;
    let mut offs: Vec<usize> = Vec::new();
    offs.push(0);
    proof {
        assert(t.take(0) =~= Seq::<char>::empty());
        assert(encode_utf8(Seq::<char>::empty()) =~= Seq::<u8>::empty());
    }
    let mut b: usize = 0;
    let mut i: usize = 0;
    while i < chars.len()
        invariant
            t == chars@,
            utf8_len(t) <= usize::MAX,
            i <= t.len(),
            offs@.len() == i + 1,
            b == utf8_len(t.take(i as int)),
            forall|k: int| 0 <= k <= i ==> #[trigger] offs@[k] == utf8_len(t.take(k)),
        decreases t.len() - i,
    {
        let w = utf8_width_exec(chars[i]);
        proof {
            assert(t.take(i + 1) == t.take(i as int).push(t[i as int]));
            lemma_utf8_len_push(t.take(i as int), t[i as int]);
            lemma_utf8_len_prefix(t, i + 1);
        }
        b = b + w;
        offs.push(b);
        i += 1;
    }
    offs
}

// ---------------------------------------------------------------------------
// Decimal numbers

/// The value of a run of ASCII digits.
pub open spec fn digits_value(s: Seq<char>) -> nat
    decreases s.len(),
{
    if s.len() == 0 {
        0
    } else {
        digits_value(s.drop_last()) * 10 + ((s.last() as u32) - ('0' as u32)) as nat
    }
}

/// Whether every character of `s` is an ASCII digit.
pub open spec fn all_digits(s: Seq<char>) -> bool {
    forall|i: int| 0 <= i < s.len() ==> is_digit(#[trigger] s[i])
}

/// `u16::from_str`: an optional `+`, then one or more ASCII digits whose
/// value fits in a `u16`.
pub open spec fn parse_u16(s: Seq<char>) -> Option<u16> {
    let digits = if s.len() > 0 && s[0] == '+' {
        s.drop_first()
    } else {
        s
    };
    if digits.len() > 0 && all_digits(digits) && digits_value(digits) <= 0xffff {
        Some(digits_value(digits) as u16)
    } else {
        None
    }
}

/// The decimal digit for `d < 10`.
pub open spec fn digit_char(d: nat) -> char {
    (('0' as u32) + d) as char
}

/// Decimal representation of `n`, without leading zeros (`0` is `"0"`).
pub open spec fn decimal(n: nat) -> Seq<char>
    decreases n,
{
    if n < 10 {
        seq![digit_char(n)]
    } else {
        decimal(n / 10).push(digit_char(n % 10))
    }
}

/// `digit_char(d)` is the ASCII digit with value `d`.
pub proof fn lemma_digit_char(d: nat)
    requires
        d < 10,
    ensures
        is_digit(digit_char(d)),
        (digit_char(d) as u32) == ('0' as u32) + d,
{
    let v: u32 = (('0' as u32) + d) as u32;
    assert(v == 48 + d);
    assert((v as char) as u32 == v);
}

pub proof fn lemma_digits_value_push(s: Seq<char>, c: char)
    ensures
        digits_value(s.push(c)) == digits_value(s) * 10 + ((c as u32) - ('0' as u32)) as nat,
{
    assert(s.push(c).drop_last() == s);
}

/// `decimal(n)` is a non-empty run of digits with value `n`.
pub proof fn lemma_decimal(n: nat)
    ensures
        decimal(n).len() > 0,
        all_digits(decimal(n)),
        digits_value(decimal(n)) == n,
        decimal(n)[0] != '+',
    decreases n,
{
    if n < 10 {
        lemma_digit_char(n);
        let d = seq![digit_char(n)];
        assert(decimal(n) == d);
        assert(d.drop_last() =~= Seq::<char>::empty());
        assert(d.last() == digit_char(n));
        assert(digits_value(d) == digits_value(d.drop_last()) * 10 + ((d.last() as u32) - ('0' as u32)) as nat);
        assert(digits_value(Seq::<char>::empty()) == 0);
    } else {
        lemma_decimal(n / 10);
        lemma_digit_char(n % 10);
        lemma_digits_value_push(decimal(n / 10), digit_char(n % 10));
        assert(decimal(n)[0] == decimal(n / 10)[0]);
        assert((n / 10) * 10 + n % 10 == n) by (nonlinear_arith);
    }
}

/// Parsing the decimal form of a `u16` gives it back.
pub proof fn lemma_parse_decimal_u16(n: u16)
    ensures
        parse_u16(decimal(n as nat)) == Some(n),
{
    lemma_decimal(n as nat);
}

/// The decimal form of `n`.
pub fn decimal_exec(n: u64) -> (r: Vec<char>)
    ensures
        r@ == decimal(n as nat),
    decreases n,
{
    if n < 10 {
        let c = char_from_ascii(('0' as u8) + (n as u8));
        let mut r: Vec<char> = Vec::new();
        r.push(c);
        proof {
            assert(r@ =~= seq![digit_char(n as nat)]);
        }
        r
    } else {
        let mut r = decimal_exec(n / 10);
        let c = char_from_ascii(('0' as u8) + ((n % 10) as u8));
        r.push(c);
        r
    }
}

/// `u16::from_str`.
pub fn parse_u16_exec(s: &[char]) -> (r: Option<u16>)
    ensures
        r == parse_u16(s@),
{
    let start: usize = if s.len() > 0 && s[0] == '+' { 1 } else { 0 };
    let ghost digits = if s@.len() > 0 && s@[0] == '+' { s@.drop_first() } else { s@ };
    proof {
        assert(digits == s@.subrange(start as int, s@.len() as int));
    }
    if start >= s.len() {
        return None;
    }
    let mut value: u64 = 0;
    let mut i = start;
    while i < s.len()
        invariant
            start <= i <= s@.len(),
            start < s@.len(),
            digits == (if s@.len() > 0 && s@[0] == '+' { s@.drop_first() } else { s@ }),
            digits == s@.subrange(start as int, s@.len() as int),
            all_digits(s@.subrange(start as int, i as int)),
            value == digits_value(s@.subrange(start as int, i as int)),
            value <= 0xffff,
        decreases s@.len() - i,
    {
        let c = s[i];
        if !is_digit_exec(c) {
            proof {
                assert(digits[i - start] == c);
                assert(!is_digit(digits[(i - start) as int]));
                assert(!all_digits(digits));
            }
            return None;
        }
        proof {
            let pre = s@.subrange(start as int, i as int);
            assert(s@.subrange(start as int, i + 1) == pre.push(c));
            lemma_digits_value_push(pre, c);
        }
        value = value * 10 + ((c as u32) - ('0' as u32)) as u64;
        i += 1;
        if value > 0xffff {
            proof {
                assert(digits.take((i - start) as int) == s@.subrange(start as int, i as int));
                if all_digits(digits) {
                    lemma_digits_value_prefix_bound(digits, (i - start) as int);
                }
            }
            return None;
        }
    }
    Some(value as u16)
}

/// A longer run of digits is worth at least as much as its prefix.
pub proof fn lemma_digits_value_prefix_bound(s: Seq<char>, k: int)
    requires
        0 <= k <= s.len(),
        all_digits(s),
    ensures
        digits_value(s.take(k)) <= digits_value(s),
    decreases s.len() - k,
{
    if k < s.len() {
        lemma_digits_value_prefix_bound(s, k + 1);
        assert(s.take(k + 1).drop_last() == s.take(k));
        assert(is_digit(s[k]));
    } else {
        assert(s.take(k) == s);
    }
}

} // verus!

verus! {

// ---------------------------------------------------------------------------
// Searching, trimming, splitting, joining

/// Index of the first `c` in `s`, if any.
pub open spec fn find_char(s: Seq<char>, c: char) -> Option<int>
    decreases s.len(),
{
    if s.len() == 0 {
        None
    } else if s[0] == c {
        Some(0)
    } else {
        match find_char(s.drop_first(), c) {
            Some(k) => Some(k + 1),
            None => None,
        }
    }
}

pub proof fn lemma_find_char(s: Seq<char>, c: char)
    ensures
        find_char(s, c) matches Some(k) ==> 0 <= k < s.len() && s[k] == c && forall|j: int|
            0 <= j < k ==> s[j] != c,
        find_char(s, c) is None ==> forall|j: int| 0 <= j < s.len() ==> s[j] != c,
    decreases s.len(),
{
    if s.len() > 0 && s[0] != c {
        lemma_find_char(s.drop_first(), c);
        if let Some(k) = find_char(s.drop_first(), c) {
            assert forall|j: int| 0 <= j < k + 1 implies s[j] != c by {
                if j > 0 {
                    assert(s[j] == s.drop_first()[j - 1]);
                }
            }
        } else {
            assert forall|j: int| 0 <= j < s.len() implies s[j] != c by {
                if j > 0 {
                    assert(s[j] == s.drop_first()[j - 1]);
                }
            }
        }
    }
}

/// `str::find(c)`.
pub fn find_char_exec(s: &[char], c: char) -> (r: Option<usize>)
    ensures
        find_char(s@, c) == (match r {
            Some(k) => Some(k as int),
            None => None,
        }),
        r matches Some(k) ==> k < s@.len() && s@[k as int] == c,
{
    proof {
        lemma_find_char(s@, c);
    }
    let mut i: usize = 0;
    while i < s.len()
        invariant
            i <= s@.len(),
            forall|j: int| 0 <= j < i ==> s@[j] != c,
            find_char(s@, c) is None ==> forall|j: int| 0 <= j < s@.len() ==> s@[j] != c,
            find_char(s@, c) matches Some(k) ==> i <= k < s@.len() && s@[k] == c,
        decreases s@.len() - i,
    {
        if s[i] == c {
            proof {
                if let Some(k) = find_char(s@, c) {
                    lemma_find_char(s@, c);
                    assert(k == i);
                }
            }
            return Some(i);
        }
        i += 1;
    }
    None
}

/// Index of the first non-whitespace character of `s` (its length if none).
pub open spec fn ws_prefix(s: Seq<char>) -> int
    decreases s.len(),
{
    if s.len() == 0 || !is_ws(s[0]) {
        0
    } else {
        1 + ws_prefix(s.drop_first())
    }
}

/// Index just past the last non-whitespace character of `s` (0 if none).
pub open spec fn ws_suffix_start(s: Seq<char>) -> int
    decreases s.len(),
{
    if s.len() == 0 || !is_ws(s.last()) {
        s.len() as int
    } else {
        ws_suffix_start(s.drop_last())
    }
}

pub proof fn lemma_ws_prefix(s: Seq<char>)
    ensures
        0 <= ws_prefix(s) <= s.len(),
        forall|j: int| 0 <= j < ws_prefix(s) ==> is_ws(s[j]),
        ws_prefix(s) < s.len() ==> !is_ws(s[ws_prefix(s)]),
    decreases s.len(),
{
    if s.len() > 0 && is_ws(s[0]) {
        lemma_ws_prefix(s.drop_first());
        assert forall|j: int| 0 <= j < ws_prefix(s) implies is_ws(s[j]) by {
            if j > 0 {
                assert(s[j] == s.drop_first()[j - 1]);
            }
        }
    }
}

pub proof fn lemma_ws_suffix_start(s: Seq<char>)
    ensures
        0 <= ws_suffix_start(s) <= s.len(),
        forall|j: int| ws_suffix_start(s) <= j < s.len() ==> is_ws(s[j]),
        ws_suffix_start(s) > 0 ==> !is_ws(s[ws_suffix_start(s) - 1]),
    decreases s.len(),
{
    if s.len() > 0 && is_ws(s.last()) {
        lemma_ws_suffix_start(s.drop_last());
        assert forall|j: int| ws_suffix_start(s) <= j < s.len() implies is_ws(s[j]) by {
            if j < s.len() - 1 {
                assert(s[j] == s.drop_last()[j]);
            }
        }
    }
}

/// `str::trim_start`.
pub open spec fn trim_start(s: Seq<char>) -> Seq<char> {
    s.skip(ws_prefix(s))
}

/// `str::trim_end`.
pub open spec fn trim_end(s: Seq<char>) -> Seq<char> {
    s.take(ws_suffix_start(s))
}

/// `str::trim`.
pub open spec fn trim(s: Seq<char>) -> Seq<char> {
    trim_end(trim_start(s))
}

/// `ws_prefix`, computed.
pub fn ws_prefix_exec(s: &[char]) -> (r: usize)
    ensures
        r == ws_prefix(s@),
{
    proof {
        lemma_ws_prefix(s@);
    }
    let mut i: usize = 0;
    while i < s.len() && is_ws_exec(s[i])
        invariant
            i <= s@.len(),
            forall|j: int| 0 <= j < i ==> is_ws(s@[j]),
            0 <= ws_prefix(s@) <= s@.len(),
            forall|j: int| 0 <= j < ws_prefix(s@) ==> is_ws(s@[j]),
            ws_prefix(s@) < s@.len() ==> !is_ws(s@[ws_prefix(s@)]),
        decreases s@.len() - i,
    {
        i += 1;
    }
    i
}

/// `ws_suffix_start`, computed.
pub fn ws_suffix_exec(s: &[char]) -> (r: usize)
    ensures
        r == ws_suffix_start(s@),
{
    proof {
        lemma_ws_suffix_start(s@);
    }
    let mut i: usize = s.len();
    while i > 0 && is_ws_exec(s[i - 1])
        invariant
            i <= s@.len(),
            forall|j: int| i <= j < s@.len() ==> is_ws(s@[j]),
            0 <= ws_suffix_start(s@) <= s@.len(),
            forall|j: int| ws_suffix_start(s@) <= j < s@.len() ==> is_ws(s@[j]),
            ws_suffix_start(s@) > 0 ==> !is_ws(s@[ws_suffix_start(s@) - 1]),
        decreases i,
    {
        i -= 1;
    }
    i
}

/// `str::trim`, as the bounds of the kept part.
pub fn trim_bounds(s: &[char]) -> (r: (usize, usize))
    ensures
        r.0 <= r.1 <= s@.len(),
        s@.subrange(r.0 as int, r.1 as int) == trim(s@),
{
    let start = ws_prefix_exec(s);
    proof {
        lemma_ws_prefix(s@);
    }
    let rest = slice_vec(s, start, s.len());
    let end_rel = ws_suffix_exec(rest.as_slice());
    proof {
        lemma_ws_suffix_start(rest@);
        assert(rest@ == trim_start(s@));
        assert(s@.subrange(start as int, start + end_rel) == rest@.take(end_rel as int));
    }
    (start, start + end_rel)
}

/// `str::trim`.
pub fn trim_exec(s: &[char]) -> (r: Vec<char>)
    ensures
        r@ == trim(s@),
{
    let (a, b) = trim_bounds(s);
    slice_vec(s, a, b)
}

/// Whether `c` separates pieces in `split_on`.
pub open spec fn in_set(c: char, seps: Seq<char>) -> bool {
    seps.contains(c)
}

/// `str::split` on any character of `seps`: the pieces between separators,
/// empty ones included (so there is always at least one piece).
pub open spec fn split_on(s: Seq<char>, seps: Seq<char>) -> Seq<Seq<char>>
    decreases s.len(),
{
    if s.len() == 0 {
        seq![seq![]]
    } else {
        let p = split_on(s.drop_last(), seps);
        if in_set(s.last(), seps) {
            p.push(seq![])
        } else {
            p.update(p.len() - 1, p.last().push(s.last()))
        }
    }
}

pub proof fn lemma_split_on_len(s: Seq<char>, seps: Seq<char>)
    ensures
        split_on(s, seps).len() >= 1,
    decreases s.len(),
{
    if s.len() > 0 {
        lemma_split_on_len(s.drop_last(), seps);
    }
}

/// Splitting around a separator splits each side on its own.
pub proof fn lemma_split_on_concat(a: Seq<char>, c: char, b: Seq<char>, seps: Seq<char>)
    requires
        in_set(c, seps),
    ensures
        split_on(a + seq![c] + b, seps) == split_on(a, seps) + split_on(b, seps),
    decreases b.len(),
{
    if b.len() == 0 {
        assert(a + seq![c] + b =~= a + seq![c]);
        assert((a + seq![c]).drop_last() =~= a);
        assert(split_on(b, seps) =~= seq![seq![]]);
        assert(split_on(a, seps).push(seq![]) =~= split_on(a, seps) + seq![seq![]]);
    } else {
        let b0 = b.drop_last();
        let x = b.last();
        lemma_split_on_concat(a, c, b0, seps);
        lemma_split_on_len(b0, seps);
        lemma_split_on_len(a, seps);
        let whole = a + seq![c] + b;
        assert(whole.drop_last() =~= a + seq![c] + b0);
        assert(whole.last() == x);
        let pa = split_on(a, seps);
        let pb = split_on(b0, seps);
        if in_set(x, seps) {
            assert((pa + pb).push(seq![]) =~= pa + pb.push(seq![]));
        } else {
            let p = pa + pb;
            assert(p.last() == pb.last());
            assert(p.update(p.len() - 1, p.last().push(x)) =~= pa + pb.update(pb.len() - 1, pb.last().push(x)));
        }
    }
}

/// A piece without separators is split into itself.
pub proof fn lemma_split_on_plain(x: Seq<char>, seps: Seq<char>)
    requires
        forall|i: int| 0 <= i < x.len() ==> !in_set(#[trigger] x[i], seps),
    ensures
        split_on(x, seps) == seq![x],
    decreases x.len(),
{
    if x.len() > 0 {
        lemma_split_on_plain(x.drop_last(), seps);
        assert(x.last() == x[x.len() - 1]);
        assert(x.drop_last().push(x.last()) =~= x);
        assert(seq![x.drop_last()].update(0, x) =~= seq![x]);
    } else {
        assert(x =~= seq![]);
    }
}

/// Whether `x` holds no character of `seps`.
pub open spec fn free_of(x: Seq<char>, seps: Seq<char>) -> bool {
    forall|i: int| 0 <= i < x.len() ==> !in_set(#[trigger] x[i], seps)
}

/// Splitting pieces joined with a separator they do not hold gives them back.
pub proof fn lemma_split_on_join(parts: Seq<Seq<char>>, c: char, seps: Seq<char>)
    requires
        parts.len() > 0,
        in_set(c, seps),
        forall|i: int| 0 <= i < parts.len() ==> free_of(#[trigger] parts[i], seps),
    ensures
        split_on(join(parts, seq![c]), seps) == parts,
    decreases parts.len(),
{
    if parts.len() == 1 {
        assert(free_of(parts[0], seps));
        lemma_split_on_plain(parts[0], seps);
        assert(seq![parts[0]] =~= parts);
    } else {
        let init = parts.drop_last();
        assert forall|i: int| 0 <= i < init.len() implies free_of(#[trigger] init[i], seps) by {
            assert(init[i] == parts[i]);
        }
        lemma_split_on_join(init, c, seps);
        assert(free_of(parts[parts.len() - 1], seps));
        lemma_split_on_plain(parts.last(), seps);
        lemma_split_on_concat(join(init, seq![c]), c, parts.last(), seps);
        assert(init + seq![parts.last()] =~= parts);
    }
}

/// `split_on`, computed.
pub fn split_on_exec(s: &[char], seps: &[char]) -> (r: Vec<Vec<char>>)
    ensures
        r@.len() == split_on(s@, seps@).len(),
        forall|k: int| 0 <= k < r@.len() ==> (#[trigger] r@[k])@ == split_on(s@, seps@)[k],
{
    let mut done: Vec<Vec<char>> = Vec::new();
    let mut cur: Vec<char> = Vec::new();
    let mut i: usize = 0;
    while i < s.len()
        invariant
            i <= s@.len(),
            done@.len() + 1 == split_on(s@.take(i as int), seps@).len(),
            forall|k: int| 0 <= k < done@.len() ==> (#[trigger] done@[k])@ == split_on(s@.take(i as int), seps@)[k],
            cur@ == split_on(s@.take(i as int), seps@).last(),
        decreases s@.len() - i,
    {
        let c = s[i];
        proof {
            lemma_split_on_len(s@.take(i as int), seps@);
            assert(s@.take(i + 1).drop_last() == s@.take(i as int));
            assert(s@.take(i + 1).last() == c);
        }
        if contains_exec(seps, c) {
            let finished = cur;
            done.push(finished);
            cur = Vec::new();
            proof {
                assert(cur@ =~= Seq::<char>::empty());
            }
        } else {
            cur.push(c);
        }
        i += 1;
    }
    proof {
        assert(s@.take(s@.len() as int) == s@);
        lemma_split_on_len(s@, seps@);
    }
    done.push(cur);
    done
}

/// Whether `c` occurs in `set`.
pub fn contains_exec(set: &[char], c: char) -> (r: bool)
    ensures
        r == set@.contains(c),
{
    let mut i: usize = 0;
    while i < set.len()
        invariant
            i <= set@.len(),
            forall|j: int| 0 <= j < i ==> set@[j] != c,
        decreases set@.len() - i,
    {
        if set[i] == c {
            return true;
        }
        i += 1;
    }
    false
}

/// The pieces of `parts` joined with `sep` between them.
pub open spec fn join(parts: Seq<Seq<char>>, sep: Seq<char>) -> Seq<char>
    decreases parts.len(),
{
    if parts.len() == 0 {
        seq![]
    } else if parts.len() == 1 {
        parts[0]
    } else {
        join(parts.drop_last(), sep) + sep + parts.last()
    }
}

/// `[String]::join(sep)`.
pub fn join_exec(parts: &Vec<Vec<char>>, sep: &[char]) -> (r: Vec<char>)
    ensures
        r@ == join(parts@.map_values(|p: Vec<char>| p@), sep@),
{
    let ghost views = parts@.map_values(|p: Vec<char>| p@);
    let mut out: Vec<char> = Vec::new();
    let mut i: usize = 0;
    while i < parts.len()
        invariant
            i <= parts@.len(),
            views == parts@.map_values(|p: Vec<char>| p@),
            out@ == join(views.take(i as int), sep@),
        decreases parts@.len() - i,
    {
        proof {
            assert(views.take(i + 1).drop_last() == views.take(i as int));
            assert(views.take(i + 1).last() == parts@[i as int]@);
        }
        if i > 0 {
            push_all(&mut out, sep);
        }
        push_all(&mut out, parts[i].as_slice());
        proof {
            if i == 0 {
                assert(out@ == views.take(1)[0]);
            }
        }
        i += 1;
    }
    proof {
        assert(views.take(parts@.len() as int) == views);
    }
    out
}

/// Every `from` in `s` replaced by `to`.
pub open spec fn replace_char(s: Seq<char>, from: char, to: char) -> Seq<char> {
    Seq::new(s.len(), |i: int| if s[i] == from { to } else { s[i] })
}

/// `replace_char`, computed.
pub fn replace_char_exec(s: &[char], from: char, to: char) -> (r: Vec<char>)
    ensures
        r@ == replace_char(s@, from, to),
{
    let mut r: Vec<char> = Vec::new();
    let mut i: usize = 0;
    while i < s.len()
        invariant
            i <= s@.len(),
            r@.len() == i,
            forall|j: int| 0 <= j < i ==> r@[j] == (if s@[j] == from { to } else { s@[j] }),
        decreases s@.len() - i,
    {
        if s[i] == from {
            r.push(to);
        } else {
            r.push(s[i]);
        }
        i += 1;
    }
    proof {
        assert(r@ =~= replace_char(s@, from, to));
    }
    r
}

} // verus!
