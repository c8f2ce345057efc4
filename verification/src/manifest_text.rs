//! Lightweight text lookups on a manifest's source that the model does not
//! keep: table header lines and `[include]` targets, found from a byte
//! offset.

use crate::text::{
    byte_offsets, chars_eq, chars_of, join, join_exec, lemma_utf8_len_take_mono, parse_u16, parse_u16_exec,
    slice_vec, split_on, split_on_exec, string_of, trim, trim_exec, utf8_len, find_char, find_char_exec,
};
use vstd::prelude::*;

verus! {

/// The byte offset of character position `k` of `s`.
pub open spec fn byte_pos(s: Seq<char>, k: int) -> int {
    utf8_len(s.take(k)) as int
}

/// Whether byte offset `off` lies between two characters of `s` (or at an
/// end).
pub open spec fn is_boundary(s: Seq<char>, off: int) -> bool {
    exists|k: int| 0 <= k <= s.len() && byte_pos(s, k) == off
}

/// The character position at byte offset `off`.
pub open spec fn char_index(s: Seq<char>, off: int) -> int {
    choose|k: int| 0 <= k <= s.len() && byte_pos(s, k) == off
}

/// A byte offset names one character position.
pub proof fn lemma_char_index(s: Seq<char>, off: int, k: int)
    requires
        0 <= k <= s.len(),
        byte_pos(s, k) == off,
    ensures
        char_index(s, off) == k,
{
    let c = char_index(s, off);
    assert(0 <= c <= s.len() && byte_pos(s, c) == off);
    if c < k {
        lemma_utf8_len_take_mono(s, c, k);
    } else if k < c {
        lemma_utf8_len_take_mono(s, k, c);
    }
}

/// The character position of byte offset `off`, given every position's
/// byte offset.
pub fn char_index_exec(s: &Vec<char>, offs: &Vec<usize>, off: usize) -> (r: Option<usize>)
    requires
        offs@.len() == s@.len() + 1,
        forall|k: int| 0 <= k <= s@.len() ==> #[trigger] offs@[k] == utf8_len(s@.take(k)),
    ensures
        match r {
            Some(k) => k <= s@.len() && is_boundary(s@, off as int) && char_index(s@, off as int) == k,
            None => !is_boundary(s@, off as int),
        },
{
    let mut k: usize = 0;
    while k < offs.len()
        invariant
            offs@.len() == s@.len() + 1,
            forall|j: int| 0 <= j <= s@.len() ==> #[trigger] offs@[j] == utf8_len(s@.take(j)),
            k <= offs@.len(),
            forall|j: int| 0 <= j < k ==> byte_pos(s@, j) != off,
        decreases offs@.len() - k,
    {
        if offs[k] == off {
            proof {
                assert(byte_pos(s@, k as int) == off);
                lemma_char_index(s@, off as int, k as int);
            }
            return Some(k);
        }
        k += 1;
    }
    proof {
        if is_boundary(s@, off as int) {
            let j = choose|j: int| 0 <= j <= s@.len() && byte_pos(s@, j) == off;
            assert(offs@[j] == utf8_len(s@.take(j)));
        }
    }
    None
}

/// Where the line holding position `k` starts: after the last newline
/// before it.
pub open spec fn line_start(s: Seq<char>, k: int) -> int
    decreases k,
{
    if k <= 0 {
        0
    } else if s[k - 1] == '\n' {
        k
    } else {
        line_start(s, k - 1)
    }
}

/// Where the line holding position `k` ends: at the first newline at or
/// after it.
pub open spec fn line_end(s: Seq<char>, k: int) -> int
    decreases s.len() - k,
{
    if k >= s.len() {
        s.len() as int
    } else if s[k] == '\n' {
        k
    } else {
        line_end(s, k + 1)
    }
}

pub proof fn lemma_line_bounds(s: Seq<char>, k: int)
    requires
        0 <= k <= s.len(),
    ensures
        0 <= line_start(s, k) <= k <= line_end(s, k) <= s.len(),
    decreases s.len() - k + k,
{
    lemma_line_start(s, k);
    lemma_line_end(s, k);
}

proof fn lemma_line_start(s: Seq<char>, k: int)
    requires
        0 <= k <= s.len(),
    ensures
        0 <= line_start(s, k) <= k,
    decreases k,
{
    if k > 0 && s[k - 1] != '\n' {
        lemma_line_start(s, k - 1);
    }
}

proof fn lemma_line_end(s: Seq<char>, k: int)
    requires
        0 <= k <= s.len(),
    ensures
        k <= line_end(s, k) <= s.len(),
    decreases s.len() - k,
{
    if k < s.len() && s[k] != '\n' {
        lemma_line_end(s, k + 1);
    }
}

/// The line holding position `k`, without its newline.
pub open spec fn current_line(s: Seq<char>, k: int) -> Seq<char> {
    s.subrange(line_start(s, k), line_end(s, k))
}

/// Where the line holding position `k` starts.
pub fn line_start_exec(s: &Vec<char>, k: usize) -> (a: usize)
    requires
        k <= s@.len(),
    ensures
        a == line_start(s@, k as int),
{
    let mut a = k;
    while a > 0 && s[a - 1] != '\n'
        invariant
            a <= k <= s@.len(),
            line_start(s@, k as int) == line_start(s@, a as int),
        decreases a,
    {
        a -= 1;
    }
    a
}

/// The line holding position `k`, without its newline.
pub fn current_line_exec(s: &Vec<char>, k: usize) -> (r: Vec<char>)
    requires
        k <= s@.len(),
    ensures
        r@ == current_line(s@, k as int),
{
    let mut a = k;
    while a > 0 && s[a - 1] != '\n'
        invariant
            a <= k <= s@.len(),
            line_start(s@, k as int) == line_start(s@, a as int),
        decreases a,
    {
        a -= 1;
    }
    let mut b = k;
    while b < s.len() && s[b] != '\n'
        invariant
            k <= b <= s@.len(),
            line_end(s@, k as int) == line_end(s@, b as int),
        decreases s@.len() - b,
    {
        b += 1;
    }
    slice_vec(s.as_slice(), a, b)
}

pub open spec fn starts_with(s: Seq<char>, p: Seq<char>) -> bool {
    s.len() >= p.len() && s.take(p.len() as int) == p
}

pub(crate) fn starts_with_exec(s: &[char], p: &str) -> (r: bool)
    ensures
        r == starts_with(s@, p@),
{
    let pc = chars_of(p);
    if s.len() < pc.len() {
        return false;
    }
    let head = slice_vec(s, 0, pc.len());
    proof {
        assert(head@ =~= s@.take(p@.len() as int));
    }
    chars_eq(head.as_slice(), pc.as_slice())
}

/// What is inside a `[...]` header line, if the (trimmed) line is one.
pub open spec fn header_inner(line: Seq<char>) -> Option<Seq<char>> {
    let t = trim(line);
    if t.len() >= 2 && t[0] == '[' && t.last() == ']' {
        Some(t.subrange(1, t.len() - 1))
    } else {
        None
    }
}

pub(crate) fn header_inner_exec(line: &Vec<char>) -> (r: Option<Vec<char>>)
    ensures
        match r {
            Some(x) => header_inner(line@) == Some(x@),
            None => header_inner(line@) is None,
        },
{
    let t = trim_exec(line.as_slice());
    let n = t.len();
    if n >= 2 && t[0] == '[' && t[n - 1] == ']' {
        Some(slice_vec(t.as_slice(), 1, n - 1))
    } else {
        None
    }
}

/// Headers that are not icon families: empty, `[include]`, `[defaults]`,
/// `[providers...]`.
pub open spec fn not_a_family(inner: Seq<char>, other: Seq<char>) -> bool {
    inner.len() == 0 || inner == other || inner == "defaults"@ || starts_with(inner, "providers"@)
}

pub(crate) fn not_a_family_exec(inner: &Vec<char>, other: &str) -> (r: bool)
    ensures
        r == not_a_family(inner@, other@),
{
    let o = chars_of(other);
    let d = chars_of("defaults");
    inner.len() == 0 || chars_eq(inner.as_slice(), o.as_slice()) || chars_eq(inner.as_slice(), d.as_slice())
        || starts_with_exec(inner.as_slice(), "providers")
}

/// The family name and size a header line names, the way the manifest
/// reads them from its dotted path.
pub open spec fn family_header(s: Seq<char>, k: int) -> Option<(Seq<char>, Option<u16>)> {
    match header_inner(current_line(s, k)) {
        None => None,
        Some(inner) => if not_a_family(inner, "include"@) {
            None
        } else {
            let segs = split_on(inner, seq!['.']);
            let size = parse_u16(segs.last());
            let rest = if size is Some {
                segs.drop_last()
            } else {
                segs
            };
            if rest.len() == 0 {
                None
            } else {
                Some((join(rest, "-"@), size))
            }
        },
    }
}

/// If the line at byte `offset` is a `[family]`/`[family.24]` table header
/// (not `[include]`/`[defaults]`/`[providers.*]`), the family name and
/// size the manifest would read from it.
pub fn family_header_at(text: &str, offset: usize) -> (r: Option<(String, Option<u16>)>)
    requires
        utf8_len(text@) <= usize::MAX,
        is_boundary(text@, offset as int),
    ensures
        match r {
            Some((f, n)) => family_header(text@, char_index(text@, offset as int)) == Some((f@, n)),
            None => family_header(text@, char_index(text@, offset as int)) is None,
        },
{
    let s = chars_of(text);
    let offs = byte_offsets(&s);
    let k = match char_index_exec(&s, &offs, offset) {
        Some(k) => k,
        None => return None,
    };
    let line = current_line_exec(&s, k);
    let inner = match header_inner_exec(&line) {
        Some(x) => x,
        None => return None,
    };
    if not_a_family_exec(&inner, "include") {
        return None;
    }
    let mut dot: Vec<char> = Vec::new();
    dot.push('.');
    let segs = split_on_exec(inner.as_slice(), dot.as_slice());
    proof {
        assert(dot@ =~= seq!['.']);
        crate::text::lemma_split_on_len(inner@, seq!['.']);
    }
    let ghost sv = split_on(inner@, seq!['.']);
    let n = segs.len();
    let size = parse_u16_exec(segs[n - 1].as_slice());
    let keep = if size.is_some() { n - 1 } else { n };
    if keep == 0 {
        return None;
    }
    let mut parts: Vec<Vec<char>> = Vec::new();
    let mut i: usize = 0;
    while i < keep
        invariant
            keep <= n == segs@.len() == sv.len(),
            forall|j: int| 0 <= j < n ==> (#[trigger] segs@[j])@ == sv[j],
            i <= keep,
            parts@.len() == i,
            forall|j: int| 0 <= j < i ==> (#[trigger] parts@[j])@ == sv[j],
        decreases keep - i,
    {
        parts.push(slice_vec(segs[i].as_slice(), 0, segs[i].len()));
        proof {
            assert(segs@[i as int]@.subrange(0, segs@[i as int]@.len() as int) =~= segs@[i as int]@);
        }
        i += 1;
    }
    let dash = chars_of("-");
    let joined = join_exec(&parts, dash.as_slice());
    proof {
        let rest = if size is Some { sv.drop_last() } else { sv };
        assert(parts@.map_values(|p: Vec<char>| p@) =~= rest);
        assert(sv.last() == segs@[n - 1]@);
    }
    Some((string_of(joined.as_slice()), size))
}

/// Where the line starting at `k` ends, its newline included.
pub open spec fn next_line(s: Seq<char>, k: int) -> int {
    if line_end(s, k) < s.len() {
        line_end(s, k) + 1
    } else {
        s.len() as int
    }
}

/// Reading lines from the line start `k`: the character range of the
/// `[include]` table's body, where `start` is where that body began if its
/// header line was already read.
pub open spec fn include_range_from(s: Seq<char>, k: int, start: Option<int>) -> Option<(int, int)>
    decreases s.len() - k,
{
    if k < 0 || k >= s.len() {
        match start {
            Some(a) => Some((a, s.len() as int)),
            None => None,
        }
    } else {
        proof {
            lemma_line_bounds(s, k);
        }
        let n = next_line(s, k);
        let line = s.subrange(k, n);
        let t = trim(line);
        match start {
            Some(a) => if t.len() > 0 && t[0] == '[' {
                Some((a, k))
            } else {
                include_range_from(s, n, start)
            },
            None => if header_inner(line) == Some("include"@) {
                include_range_from(s, n, Some(n))
            } else {
                include_range_from(s, n, None)
            },
        }
    }
}

/// The character range of the `[include]` table's body: from after its
/// header line up to the next header line or the end of the text.
pub open spec fn include_range(s: Seq<char>) -> Option<(int, int)> {
    include_range_from(s, 0, None)
}

pub open spec fn opt_int(o: Option<usize>) -> Option<int> {
    match o {
        Some(a) => Some(a as int),
        None => None,
    }
}

fn include_range_exec(s: &Vec<char>) -> (r: Option<(usize, usize)>)
    ensures
        include_range(s@) == (match r {
            Some((a, b)) => Some((a as int, b as int)),
            None => None,
        }),
        r matches Some((a, b)) ==> a <= b <= s@.len(),
{
    let wanted = chars_of("include");
    let mut k: usize = 0;
    let mut start: Option<usize> = None;
    while k < s.len()
        invariant
            k <= s@.len(),
            wanted@ == "include"@,
            include_range(s@) == include_range_from(s@, k as int, opt_int(start)),
            start matches Some(a) ==> a <= k,
        decreases s@.len() - k,
    {
        proof {
            lemma_line_bounds(s@, k as int);
        }
        let mut e = k;
        while e < s.len() && s[e] != '\n'
            invariant
                k <= e <= s@.len(),
                line_end(s@, k as int) == line_end(s@, e as int),
            decreases s@.len() - e,
        {
            e += 1;
        }
        let n = if e < s.len() {
            e + 1
        } else {
            e
        };
        let line = slice_vec(s.as_slice(), k, n);
        match start {
            Some(a) => {
                let t = trim_exec(line.as_slice());
                if t.len() > 0 && t[0] == '[' {
                    return Some((a, k));
                }
            },
            None => {
                if let Some(x) = header_inner_exec(&line) {
                    if chars_eq(x.as_slice(), wanted.as_slice()) {
                        start = Some(n);
                    }
                }
            },
        }
        k = n;
    }
    match start {
        Some(a) => Some((a, s.len())),
        None => None,
    }
}

/// The value of a `key = "value"` line: what stands between the quotes
/// after the first `=`.
pub open spec fn quoted_value(line: Seq<char>) -> Option<Seq<char>> {
    match find_char(line, '=') {
        None => None,
        Some(i) => {
            let v = trim(line.subrange(i + 1, line.len() as int));
            if v.len() >= 2 && v[0] == '"' && v.last() == '"' {
                Some(v.subrange(1, v.len() - 1))
            } else {
                None
            }
        },
    }
}

/// Whether byte offset `off` falls inside the `[include]` table's body.
pub open spec fn in_include(s: Seq<char>, off: int) -> bool {
    match include_range(s) {
        Some((a, b)) => byte_pos(s, a) <= off < byte_pos(s, b),
        None => false,
    }
}

/// The unresolved path on the `[include]` line at byte `off`.
pub open spec fn include_target(s: Seq<char>, off: int) -> Option<Seq<char>> {
    if in_include(s, off) {
        quoted_value(current_line(s, char_index(s, off)))
    } else {
        None
    }
}

/// If `offset` is on a `key = "value"` line inside the `[include]` table,
/// the (unresolved) path string.
pub fn include_target_at(text: &str, offset: usize) -> (r: Option<String>)
    requires
        utf8_len(text@) <= usize::MAX,
        in_include(text@, offset as int) ==> is_boundary(text@, offset as int),
    ensures
        match r {
            Some(v) => include_target(text@, offset as int) == Some(v@),
            None => include_target(text@, offset as int) is None,
        },
{
    let s = chars_of(text);
    let offs = byte_offsets(&s);
    let (a, b) = match include_range_exec(&s) {
        Some(r) => r,
        None => return None,
    };
    if offset < offs[a] || offset >= offs[b] {
        return None;
    }
    let k = match char_index_exec(&s, &offs, offset) {
        Some(k) => k,
        None => return None,
    };
    let line = current_line_exec(&s, k);
    let i = match find_char_exec(line.as_slice(), '=') {
        Some(i) => i,
        None => return None,
    };
    let after = slice_vec(line.as_slice(), i + 1, line.len());
    let v = trim_exec(after.as_slice());
    let m = v.len();
    if m >= 2 && v[0] == '"' && v[m - 1] == '"' {
        Some(string_of(slice_vec(v.as_slice(), 1, m - 1).as_slice()))
    } else {
        None
    }
}

/// The provider a `[providers.NAME]` or `[providers.NAME.override]` header
/// line names.
pub open spec fn provider_header(line: Seq<char>) -> Option<Seq<char>> {
    match header_inner(line) {
        Some(inner) => if starts_with(inner, "providers."@) {
            let rest = inner.skip("providers."@.len() as int);
            let name = match find_char(rest, '.') {
                Some(d) => rest.take(d),
                None => rest,
            };
            if name.len() == 0 {
                None
            } else {
                Some(name)
            }
        } else {
            None
        },
        None => None,
    }
}

/// If the line at byte `offset` is a `[providers.NAME...]` header, the
/// provider's name.
pub fn provider_name_at(text: &str, offset: usize) -> (r: Option<String>)
    requires
        utf8_len(text@) <= usize::MAX,
    ensures
        match r {
            Some(n) => is_boundary(text@, offset as int) && provider_header(
                current_line(text@, char_index(text@, offset as int)),
            ) == Some(n@),
            None => is_boundary(text@, offset as int) ==> provider_header(
                current_line(text@, char_index(text@, offset as int)),
            ) is None,
        },
{
    let s = chars_of(text);
    let offs = byte_offsets(&s);
    let k = match char_index_exec(&s, &offs, offset) {
        Some(k) => k,
        None => return None,
    };
    let line = current_line_exec(&s, k);
    let inner = match header_inner_exec(&line) {
        Some(x) => x,
        None => return None,
    };
    if !starts_with_exec(inner.as_slice(), "providers.") {
        return None;
    }
    let p = chars_of("providers.");
    let rest = slice_vec(inner.as_slice(), p.len(), inner.len());
    proof {
        assert(rest@ =~= inner@.skip("providers."@.len() as int));
    }
    let name = match find_char_exec(rest.as_slice(), '.') {
        Some(d) => {
            let x = slice_vec(rest.as_slice(), 0, d);
            proof {
                assert(x@ =~= rest@.take(d as int));
            }
            x
        },
        None => rest,
    };
    if name.len() == 0 {
        None
    } else {
        Some(string_of(name.as_slice()))
    }
}


} // verus!
