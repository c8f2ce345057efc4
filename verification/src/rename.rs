//! Renaming an icon family from one of its `[family]`/`[family.N]` headers:
//! finding the header under the cursor, every header of that family in a
//! file, and rewriting an `icon!`-style call's argument text to the new
//! name while keeping everything else verbatim.
//!
//! Only a header made of a single bracket segment can be renamed: a dotted
//! header (`[nav.bar]`, the family `nav-bar`) offers no unambiguous way to
//! spread a new name back over its segments.

use crate::manifest_text::{
    byte_pos, char_index, is_boundary, line_start_exec, char_index_exec, current_line_exec, header_inner, header_inner_exec, line_end,
    lemma_line_bounds, line_start, next_line, not_a_family, not_a_family_exec,
};
use crate::text::{
    byte_offsets, chars_eq, chars_of, find_char, find_char_exec, lemma_find_char, lemma_ws_prefix,
    lemma_ws_suffix_start, parse_u16, parse_u16_exec, push_all, slice_vec, starts_at, starts_at_exec, string_of,
    trim, utf8_len, ws_prefix, ws_prefix_exec, ws_suffix_start, ws_suffix_exec, is_ws,
};
use std::ops::Range;
use vstd::prelude::*;

verus! {

/// Index of the last `c` in `s`, if any.
pub open spec fn rfind_char(s: Seq<char>, c: char) -> Option<int>
    decreases s.len(),
{
    if s.len() == 0 {
        None
    } else if s.last() == c {
        Some(s.len() - 1)
    } else {
        rfind_char(s.drop_last(), c)
    }
}

pub proof fn lemma_rfind_char(s: Seq<char>, c: char)
    ensures
        rfind_char(s, c) matches Some(k) ==> 0 <= k < s.len() && s[k] == c,
    decreases s.len(),
{
    if s.len() > 0 && s.last() != c {
        lemma_rfind_char(s.drop_last(), c);
    }
}

/// `str::rfind(c)`.
pub fn rfind_char_exec(s: &[char], c: char) -> (r: Option<usize>)
    ensures
        rfind_char(s@, c) == (match r {
            Some(k) => Some(k as int),
            None => None,
        }),
        match r {
            Some(k) => k < s@.len() && s@[k as int] == c,
            None => true,
        },
{
    let mut i = s.len();
    proof {
        assert(s@.take(s@.len() as int) =~= s@);
    }
    while i > 0
        invariant
            i <= s@.len(),
            rfind_char(s@, c) == rfind_char(s@.take(i as int), c),
        decreases i,
    {
        proof {
            assert(s@.take(i as int).last() == s@[i - 1]);
            assert(s@.take(i as int).drop_last() =~= s@.take(i - 1));
        }
        if s[i - 1] == c {
            return Some(i - 1);
        }
        i -= 1;
    }
    None
}

/// The family name a header's inner text declares, before the split of a
/// trailing numeric size segment: everything up to the last `.` when what
/// follows it reads as a `u16`.
pub open spec fn family_part(inner: Seq<char>) -> Seq<char> {
    match rfind_char(inner, '.') {
        Some(k) => if parse_u16(inner.subrange(k + 1, inner.len() as int)) is Some {
            inner.take(k)
        } else {
            inner
        },
        None => inner,
    }
}

fn family_part_exec(inner: &Vec<char>) -> (r: Vec<char>)
    ensures
        r@ == family_part(inner@),
{
    match rfind_char_exec(inner.as_slice(), '.') {
        Some(k) => {
            let n = inner.len();
            assert(k < n);
            let last = slice_vec(inner.as_slice(), k + 1, n);
            if parse_u16_exec(last.as_slice()).is_some() {
                slice_vec(inner.as_slice(), 0, k)
            } else {
                slice_vec(inner.as_slice(), 0, inner.len())
            }
        },
        None => slice_vec(inner.as_slice(), 0, inner.len()),
    }
}

/// On a header line, the name text starts just after its `[`, which is the
/// line's first non-blank character; the header's inner text stands there.
pub proof fn lemma_header_bracket(line: Seq<char>)
    requires
        header_inner(line) is Some,
    ensures
        find_char(line, '[') == Some(ws_prefix(line)),
        ws_prefix(line) + 1 + header_inner(line)->0.len() <= line.len(),
        line.subrange(ws_prefix(line) + 1, ws_prefix(line) + 1 + header_inner(line)->0.len())
            == header_inner(line)->0,
{
    let wp = ws_prefix(line);
    lemma_ws_prefix(line);
    let u = line.skip(wp);
    lemma_ws_suffix_start(u);
    let t = trim(line);
    assert(t == u.take(ws_suffix_start(u)));
    assert(t[0] == line[wp]);
    lemma_find_char(line, '[');
    assert(!is_ws('['));
    let inner = header_inner(line)->0;
    assert(line.subrange(wp + 1, wp + 1 + inner.len()) =~= inner);
}

/// The family a header line declares, given the one non-family table name
/// (`other`) the caller also skips.
pub open spec fn header_family(line: Seq<char>, other: Seq<char>) -> Option<Seq<char>> {
    match header_inner(line) {
        None => None,
        Some(inner) => if not_a_family(inner, other) {
            None
        } else {
            Some(family_part(inner))
        },
    }
}

/// The family of a header made of a single bracket segment (a trailing
/// size segment aside), with the character position of its name in the
/// line.
pub open spec fn single_segment_header(line: Seq<char>) -> Option<(Seq<char>, int)> {
    match header_family(line, "link"@) {
        None => None,
        Some(f) => if f.len() == 0 || f.contains('.') {
            None
        } else {
            Some((f, ws_prefix(line) + 1))
        },
    }
}

/// At character position `k` of `s`: the family a single-segment header
/// line declares, and the position in `s` where its name starts.
pub open spec fn single_segment_family_header(s: Seq<char>, k: int) -> Option<(Seq<char>, int)> {
    let line = s.subrange(line_start(s, k), line_end(s, k));
    match single_segment_header(line) {
        None => None,
        Some((f, p)) => Some((f, line_start(s, k) + p)),
    }
}

proof fn lemma_family_part_prefix(inner: Seq<char>)
    ensures
        family_part(inner).len() <= inner.len(),
        family_part(inner) == inner.take(family_part(inner).len() as int),
{
    lemma_rfind_char(inner, '.');
    assert(inner.take(inner.len() as int) =~= inner);
}

/// Where a header's family name lies in its line, when it has one.
proof fn lemma_header_family_place(line: Seq<char>, other: Seq<char>)
    requires
        header_family(line, other) is Some,
    ensures
        0 <= ws_prefix(line),
        ws_prefix(line) + 1 + header_family(line, other)->0.len() <= line.len(),
        line.subrange(ws_prefix(line) + 1, ws_prefix(line) + 1 + header_family(line, other)->0.len())
            == header_family(line, other)->0,
        find_char(line, '[') == Some(ws_prefix(line)),
{
    let inner = header_inner(line)->0;
    lemma_header_bracket(line);
    lemma_family_part_prefix(inner);
    let f = family_part(inner);
    let wp = ws_prefix(line);
    lemma_ws_prefix(line);
    let whole = line.subrange(wp + 1, wp + 1 + inner.len());
    assert(whole == inner);
    assert(f.len() <= inner.len());
    assert(wp + 1 + inner.len() <= line.len());
    assert forall|i: int| 0 <= i < f.len() implies #[trigger] line.subrange(wp + 1, wp + 1 + f.len())[i] == f[i] by {
        assert(whole[i] == line[wp + 1 + i]);
        assert(f[i] == inner[i]);
    }
    assert(line.subrange(wp + 1, wp + 1 + f.len()) =~= f);
}

fn header_family_exec(line: &Vec<char>, other: &str) -> (r: Option<Vec<char>>)
    ensures
        match r {
            Some(f) => header_family(line@, other@) == Some(f@),
            None => header_family(line@, other@) is None,
        },
{
    let inner = match header_inner_exec(line) {
        Some(x) => x,
        None => return None,
    };
    if not_a_family_exec(&inner, other) {
        return None;
    }
    Some(family_part_exec(&inner))
}

/// If the line at byte `offset` is a `[family]`/`[family.N]` header made of
/// a single bracket segment, the family name and the byte range of just
/// that name in the text; `None` for `[link]`/`[defaults]`/`[providers.*]`
/// and for a dotted multi-segment header such as `[nav.bar]`.
pub fn single_segment_family_header_at(text: &str, offset: usize) -> (r: Option<(String, Range<usize>)>)
    requires
        utf8_len(text@) <= usize::MAX,
        is_boundary(text@, offset as int),
    ensures
        match r {
            Some((f, range)) => single_segment_family_header(text@, char_index(text@, offset as int)) matches Some(
                (g, p),
            ) && g == f@ && range.start == byte_pos(text@, p) && range.end == byte_pos(text@, p + g.len())
                && p + g.len() <= text@.len() && text@.subrange(p, p + g.len()) == g,
            None => single_segment_family_header(text@, char_index(text@, offset as int)) is None,
        },
{
    let s = chars_of(text);
    let offs = byte_offsets(&s);
    let k = match char_index_exec(&s, &offs, offset) {
        Some(k) => k,
        None => return None,
    };
    proof {
        lemma_line_bounds(s@, k as int);
    }
    let line = current_line_exec(&s, k);
    let ghost a = line_start(s@, k as int);
    let f = match header_family_exec(&line, "link") {
        Some(f) => f,
        None => return None,
    };
    if f.len() == 0 || find_char_exec(f.as_slice(), '.').is_some() {
        proof {
            lemma_find_char(f@, '.');
            if f.len() > 0 {
                let j = find_char(f@, '.')->0;
                assert(f@.contains('.')) by {
                    assert(f@[j] == '.');
                }
            }
        }
        return None;
    }
    proof {
        lemma_find_char(f@, '.');
        lemma_header_family_place(line@, "link"@);
        assert(!f@.contains('.'));
    }
    let wp = ws_prefix_exec(line.as_slice());
    let ghost p = a + wp + 1;
    proof {
        assert(s@.subrange(p, p + f@.len()) =~= line@.subrange(wp + 1, wp + 1 + f@.len()));
    }
    let ls = line_start_exec(&s, k);
    let total = s.len();
    assert(line@.len() == line_end(s@, k as int) - ls);
    assert(ls + wp + 1 + f@.len() <= total);
    let name_start = ls + wp + 1;
    let name_end = name_start + f.len();
    let range = Range { start: offs[name_start], end: offs[name_end] };
    Some((string_of(f.as_slice()), range))
}

/// Whether a header line declares `target` (the `[link]` table aside).
pub open spec fn header_match(line: Seq<char>, target: Seq<char>) -> bool {
    header_family(line, "link"@) == Some(target)
}

/// From the line start `k` on: the character range of the family name in
/// every `[target]`/`[target.N]` header line.
pub open spec fn header_ranges_from(s: Seq<char>, k: int, target: Seq<char>) -> Seq<(int, int)>
    decreases s.len() - k,
{
    if k < 0 || k >= s.len() {
        seq![]
    } else {
        proof {
            lemma_line_bounds(s, k);
        }
        let line = s.subrange(k, line_end(s, k));
        let rest = header_ranges_from(s, next_line(s, k), target);
        if header_match(line, target) {
            let p = k + ws_prefix(line) + 1;
            seq![(p, p + target.len())] + rest
        } else {
            rest
        }
    }
}

/// Every header range names `target`: the text there is the family name.
pub proof fn lemma_header_ranges_name(s: Seq<char>, k: int, target: Seq<char>)
    requires
        0 <= k,
    ensures
        forall|i: int|
            0 <= i < header_ranges_from(s, k, target).len() ==> {
                let (a, b) = #[trigger] header_ranges_from(s, k, target)[i];
                k <= a <= b <= s.len() && s.subrange(a, b) == target
            },
    decreases s.len() - k,
{
    if k < s.len() {
        lemma_line_bounds(s, k);
        let line = s.subrange(k, line_end(s, k));
        let n = next_line(s, k);
        lemma_header_ranges_name(s, n, target);
        if header_match(line, target) {
            lemma_header_family_place(line, "link"@);
            let p = k + ws_prefix(line) + 1;
            assert(s.subrange(p, p + target.len()) =~= line.subrange(
                ws_prefix(line) + 1,
                ws_prefix(line) + 1 + target.len(),
            ));
            let rest = header_ranges_from(s, n, target);
            assert forall|i: int| 0 <= i < header_ranges_from(s, k, target).len() implies {
                let (a, b) = #[trigger] header_ranges_from(s, k, target)[i];
                k <= a <= b <= s.len() && s.subrange(a, b) == target
            } by {
                if i > 0 {
                    assert(header_ranges_from(s, k, target)[i] == rest[i - 1]);
                }
            }
        } else {
            assert(header_ranges_from(s, k, target) == header_ranges_from(s, n, target));
        }
    }
}

/// The byte range of the family name in every single-segment or dotted
/// `[target_family]`/`[target_family.N]` header of `text`: a family's
/// variants can be spread over several headers, and a rename touches them
/// all.
pub fn header_family_ranges(text: &str, target_family: &str) -> (r: Vec<Range<usize>>)
    requires
        utf8_len(text@) <= usize::MAX,
    ensures
        r@.len() == header_ranges_from(text@, 0, target_family@).len(),
        forall|i: int|
            0 <= i < r@.len() ==> {
                let (a, b) = header_ranges_from(text@, 0, target_family@)[i];
                &&& (#[trigger] r@[i]).start == byte_pos(text@, a)
                &&& r@[i].end == byte_pos(text@, b)
                &&& text@.subrange(a, b) == target_family@
            },
{
    let s = chars_of(text);
    let offs = byte_offsets(&s);
    let target = chars_of(target_family);
    let ghost all = header_ranges_from(s@, 0, target@);
    let ghost mut done: Seq<(int, int)> = seq![];
    let mut ranges: Vec<Range<usize>> = Vec::new();
    let mut k: usize = 0;
    proof {
        lemma_header_ranges_name(s@, 0, target@);
    }
    while k < s.len()
        invariant
            k <= s@.len(),
            s@ == text@,
            target@ == target_family@,
            offs@.len() == s@.len() + 1,
            forall|j: int| 0 <= j <= s@.len() ==> #[trigger] offs@[j] == utf8_len(s@.take(j)),
            all == header_ranges_from(s@, 0, target@),
            all == done + header_ranges_from(s@, k as int, target@),
            ranges@.len() == done.len(),
            forall|i: int|
                0 <= i < done.len() ==> {
                    let (a, b) = #[trigger] done[i];
                    &&& ranges@[i].start == byte_pos(s@, a)
                    &&& ranges@[i].end == byte_pos(s@, b)
                },
        decreases s@.len() - k,
    {
        proof {
            lemma_line_bounds(s@, k as int);
            lemma_header_ranges_name(s@, k as int, target@);
        }
        let mut e = k;
        while e < s.len() && s[e] != '\n'
            invariant
                k <= e <= s@.len(),
                line_end(s@, k as int) == line_end(s@, e as int),
            decreases s@.len() - e,
        {
            e += 1;
        }
        let n = if e < s.len() {
            e + 1
        } else {
            e
        };
        let line = slice_vec(s.as_slice(), k, e);
        let ghost rest = header_ranges_from(s@, n as int, target@);
        match header_family_exec(&line, "link") {
            Some(f) => {
                if chars_eq(f.as_slice(), target.as_slice()) {
                    proof {
                        lemma_header_family_place(line@, "link"@);
                    }
                    let wp = ws_prefix_exec(line.as_slice());
                    let total = s.len();
                    assert(k + wp + 1 + target@.len() <= total);
                    let a = k + wp + 1;
                    let b = a + target.len();
                    ranges.push(Range { start: offs[a], end: offs[b] });
                    proof {
                        let old_done = done;
                        done = done.push((a as int, b as int));
                        assert(all == done + rest);
                        assert forall|i: int| 0 <= i < done.len() implies {
                            let (x, y) = #[trigger] done[i];
                            &&& ranges@[i].start == byte_pos(s@, x)
                            &&& ranges@[i].end == byte_pos(s@, y)
                        } by {
                            if i < old_done.len() {
                                assert(done[i] == old_done[i]);
                            }
                        }
                    }
                } else {
                    assert(all == done + rest);
                }
            },
            None => {
                assert(all == done + rest);
            },
        }
        k = n;
    }
    proof {
        assert(done =~= all);
    }
    ranges
}

/// A call argument split at its first `,`: the selector part, and what
/// follows the comma (a `module = ...` clause) if there is one.
pub open spec fn arg_parts(arg: Seq<char>) -> (Seq<char>, Option<Seq<char>>) {
    match find_char(arg, ',') {
        Some(i) => (arg.take(i), Some(arg.skip(i + 1))),
        None => (arg, None),
    }
}

/// The selector part of a call argument can be cut around its blank
/// margins: it is empty or holds something other than whitespace.
pub open spec fn arg_selector_ok(arg: Seq<char>) -> bool {
    let sel = arg_parts(arg).0;
    ws_prefix(sel) <= ws_suffix_start(sel)
}

/// A selector (without its blank margins) with its family `old` replaced
/// by `new`: `"old/..."` in the quoted form, `old.…` in the dotted one.
pub open spec fn renamed_selector(trimmed: Seq<char>, old: Seq<char>, new: Seq<char>) -> Option<Seq<char>> {
    if trimmed.len() >= 2 && trimmed[0] == '"' && trimmed.last() == '"' {
        let inner = trimmed.subrange(1, trimmed.len() - 1);
        if starts_at(inner, 0, old) && (inner.len() == old.len() || inner[old.len() as int] == '/') {
            Some(seq!['"'] + new + inner.skip(old.len() as int) + seq!['"'])
        } else {
            None
        }
    } else if starts_at(trimmed, 0, old) && (trimmed.len() == old.len() || trimmed[old.len() as int] == '.') {
        Some(new + trimmed.skip(old.len() as int))
    } else {
        None
    }
}

/// A call's argument text with the family `old` renamed to `new`, all
/// else kept verbatim: the blank margins, the variant/size suffix and a
/// trailing `, module = ...` clause.
pub open spec fn rename_arg(arg: Seq<char>, old: Seq<char>, new: Seq<char>) -> Option<Seq<char>> {
    let (sel, module) = arg_parts(arg);
    let lead = ws_prefix(sel);
    let tail = ws_suffix_start(sel);
    match renamed_selector(sel.subrange(lead, tail), old, new) {
        None => None,
        Some(t) => {
            let piece = sel.take(lead) + t + sel.skip(tail);
            Some(
                match module {
                    Some(m) => piece + seq![','] + m,
                    None => piece,
                },
            )
        },
    }
}

fn renamed_selector_exec(trimmed: &Vec<char>, old: &Vec<char>, new: &Vec<char>) -> (r: Option<Vec<char>>)
    ensures
        match r {
            Some(t) => renamed_selector(trimmed@, old@, new@) == Some(t@),
            None => renamed_selector(trimmed@, old@, new@) is None,
        },
{
    let n = trimmed.len();
    let m = old.len();
    if n >= 2 && trimmed[0] == '"' && trimmed[n - 1] == '"' {
        let inner = slice_vec(trimmed.as_slice(), 1, n - 1);
        if starts_at_exec(inner.as_slice(), 0, old.as_slice()) && (inner.len() == m || inner[m] == '/') {
            let mut out: Vec<char> = Vec::new();
            out.push('"');
            push_all(&mut out, new.as_slice());
            let rest = slice_vec(inner.as_slice(), m, inner.len());
            push_all(&mut out, rest.as_slice());
            out.push('"');
            proof {
                assert(rest@ == inner@.skip(old@.len() as int));
                assert(out@ =~= seq!['"'] + new@ + inner@.skip(old@.len() as int) + seq!['"']);
            }
            Some(out)
        } else {
            None
        }
    } else if starts_at_exec(trimmed.as_slice(), 0, old.as_slice()) && (n == m || trimmed[m] == '.') {
        let mut out: Vec<char> = Vec::new();
        push_all(&mut out, new.as_slice());
        let rest = slice_vec(trimmed.as_slice(), m, n);
        push_all(&mut out, rest.as_slice());
        proof {
            assert(out@ =~= new@ + trimmed@.skip(old@.len() as int));
        }
        Some(out)
    } else {
        None
    }
}

/// Rewrites a macro call's argument text with `old_family` replaced by
/// `new_family`, keeping everything else verbatim: the `.variant` /
/// `.size.variant` suffix of the dotted form, the `/variant` suffix of the
/// quoted `"family/variant"` form, and a trailing `, module = ident`
/// clause. `None` when the selector does not start with `old_family` as a
/// whole name.
pub fn rename_family_in_arg_text(arg_text: &str, old_family: &str, new_family: &str) -> (r: Option<String>)
    requires
        arg_selector_ok(arg_text@),
    ensures
        match r {
            Some(t) => rename_arg(arg_text@, old_family@, new_family@) == Some(t@),
            None => rename_arg(arg_text@, old_family@, new_family@) is None,
        },
{
    let arg = chars_of(arg_text);
    let old = chars_of(old_family);
    let new = chars_of(new_family);
    let (sel, module) = match find_char_exec(arg.as_slice(), ',') {
        Some(i) => {
            let n = arg.len();
            assert(i < n);
            (slice_vec(arg.as_slice(), 0, i), Some(slice_vec(arg.as_slice(), i + 1, n)))
        },
        None => (slice_vec(arg.as_slice(), 0, arg.len()), None),
    };
    proof {
        assert(arg@.take(arg@.len() as int) =~= arg@);
        lemma_ws_prefix(sel@);
        lemma_ws_suffix_start(sel@);
    }
    let lead = ws_prefix_exec(sel.as_slice());
    let tail = ws_suffix_exec(sel.as_slice());
    let trimmed = slice_vec(sel.as_slice(), lead, tail);
    let t = match renamed_selector_exec(&trimmed, &old, &new) {
        Some(t) => t,
        None => return None,
    };
    let mut out = slice_vec(sel.as_slice(), 0, lead);
    push_all(&mut out, t.as_slice());
    let after = slice_vec(sel.as_slice(), tail, sel.len());
    push_all(&mut out, after.as_slice());
    proof {
        assert(out@ =~= sel@.take(lead as int) + t@ + sel@.skip(tail as int));
    }
    match module {
        Some(m) => {
            let ghost piece = out@;
            out.push(',');
            push_all(&mut out, m.as_slice());
            proof {
                assert(out@ =~= piece + seq![','] + m@);
            }
        },
        None => {},
    }
    Some(string_of(out.as_slice()))
}

proof fn lemma_find_char_at(s: Seq<char>, c: char, k: int)
    requires
        0 <= k < s.len(),
        s[k] == c,
        forall|j: int| 0 <= j < k ==> s[j] != c,
    ensures
        find_char(s, c) == Some(k),
{
    lemma_find_char(s, c);
}

proof fn lemma_find_char_none(s: Seq<char>, c: char)
    requires
        forall|j: int| 0 <= j < s.len() ==> s[j] != c,
    ensures
        find_char(s, c) is None,
{
    lemma_find_char(s, c);
}

proof fn lemma_ws_prefix_concat(a: Seq<char>, b: Seq<char>)
    requires
        forall|j: int| 0 <= j < a.len() ==> is_ws(#[trigger] a[j]),
        b.len() > 0,
        !is_ws(b[0]),
    ensures
        ws_prefix(a + b) == a.len(),
    decreases a.len(),
{
    if a.len() > 0 {
        assert((a + b).drop_first() =~= a.drop_first() + b);
        assert(is_ws(a[0]));
        lemma_ws_prefix_concat(a.drop_first(), b);
    } else {
        assert(a + b =~= b);
    }
}

proof fn lemma_ws_suffix_concat(a: Seq<char>, b: Seq<char>)
    requires
        forall|j: int| 0 <= j < b.len() ==> is_ws(#[trigger] b[j]),
        a.len() > 0,
        !is_ws(a.last()),
    ensures
        ws_suffix_start(a + b) == a.len(),
    decreases b.len(),
{
    if b.len() > 0 {
        assert((a + b).drop_last() =~= a + b.drop_last());
        assert(is_ws(b.last()));
        lemma_ws_suffix_concat(a, b.drop_last());
    } else {
        assert(a + b =~= a);
    }
}

/// The renamed selector keeps the shape the rename reads back: it starts
/// and ends with a non-blank character, holds no comma when `new` holds
/// none, and renaming it back gives the selector that was renamed.
proof fn lemma_renamed_selector_back(trimmed: Seq<char>, old: Seq<char>, new: Seq<char>)
    requires
        renamed_selector(trimmed, old, new) is Some,
        trimmed.len() > 0 ==> !is_ws(trimmed[0]) && !is_ws(trimmed.last()),
        forall|j: int| 0 <= j < trimmed.len() ==> #[trigger] trimmed[j] != ',',
        new.len() > 0,
        forall|i: int| 0 <= i < new.len() ==> !is_ws(#[trigger] new[i]) && new[i] != ',' && new[i] != '"',
    ensures
        ({
            let t = renamed_selector(trimmed, old, new)->0;
            &&& t.len() > 0
            &&& !is_ws(t[0])
            &&& !is_ws(t.last())
            &&& forall|j: int| 0 <= j < t.len() ==> #[trigger] t[j] != ','
            &&& renamed_selector(t, new, old) == Some(trimmed)
        }),
{
    let t = renamed_selector(trimmed, old, new)->0;
    assert(!is_ws('"'));
    if trimmed.len() >= 2 && trimmed[0] == '"' && trimmed.last() == '"' {
        let inner = trimmed.subrange(1, trimmed.len() - 1);
        let rest = inner.skip(old.len() as int);
        assert(t =~= seq!['"'] + new + rest + seq!['"']);
        assert forall|j: int| 0 <= j < t.len() implies #[trigger] t[j] != ',' by {
            if 1 <= j < 1 + new.len() {
                assert(t[j] == new[j - 1]);
            } else if 1 + new.len() <= j < t.len() - 1 {
                assert(t[j] == trimmed[1 + old.len() + (j - 1 - new.len())]);
            }
        }
        let inner2 = t.subrange(1, t.len() - 1);
        assert(inner2 =~= new + rest);
        assert(inner2.subrange(0, new.len() as int) =~= new);
        if rest.len() > 0 {
            assert(inner2[new.len() as int] == rest[0]);
            assert(rest[0] == inner[old.len() as int]);
        }
        assert(inner2.skip(new.len() as int) =~= rest);
        assert(inner =~= old + rest);
        assert(seq!['"'] + old + rest + seq!['"'] =~= trimmed);
    } else {
        let rest = trimmed.skip(old.len() as int);
        assert(t =~= new + rest);
        assert(t[0] == new[0]);
        assert forall|j: int| 0 <= j < t.len() implies #[trigger] t[j] != ',' by {
            if j < new.len() {
                assert(t[j] == new[j]);
            } else {
                assert(t[j] == trimmed[old.len() + (j - new.len())]);
            }
        }
        if rest.len() > 0 {
            assert(t.last() == trimmed.last());
            assert(t[new.len() as int] == rest[0]);
            assert(rest[0] == trimmed[old.len() as int]);
        } else {
            assert(t.last() == new.last());
        }
        assert(t.subrange(0, new.len() as int) =~= new);
        assert(t.skip(new.len() as int) =~= rest);
        assert(old + rest =~= trimmed);
    }
}

/// Putting a renamed selector between the blank margins of the old one.
proof fn lemma_piece(sel: Seq<char>, t: Seq<char>)
    requires
        ws_prefix(sel) <= ws_suffix_start(sel),
        forall|j: int| 0 <= j < sel.len() ==> #[trigger] sel[j] != ',',
        t.len() > 0,
        !is_ws(t[0]),
        !is_ws(t.last()),
        forall|j: int| 0 <= j < t.len() ==> #[trigger] t[j] != ',',
    ensures
        ({
            let lead = ws_prefix(sel);
            let tail = ws_suffix_start(sel);
            let piece = sel.take(lead) + t + sel.skip(tail);
            &&& ws_prefix(piece) == lead
            &&& ws_suffix_start(piece) == lead + t.len()
            &&& forall|j: int| 0 <= j < piece.len() ==> #[trigger] piece[j] != ','
            &&& piece.subrange(lead, lead + t.len()) == t
            &&& piece.take(lead) == sel.take(lead)
            &&& piece.skip(lead + t.len()) == sel.skip(tail)
        }),
{
    let lead = ws_prefix(sel);
    let tail = ws_suffix_start(sel);
    lemma_ws_prefix(sel);
    lemma_ws_suffix_start(sel);
    let a = sel.take(lead);
    let b = sel.skip(tail);
    let piece = a + t + b;
    assert forall|j: int| 0 <= j < a.len() implies is_ws(#[trigger] a[j]) by {}
    assert forall|j: int| 0 <= j < b.len() implies is_ws(#[trigger] b[j]) by {
        assert(b[j] == sel[tail + j]);
    }
    assert(a + t + b =~= a + (t + b));
    lemma_ws_prefix_concat(a, t + b);
    lemma_ws_suffix_concat(a + t, b);
    assert((a + t).last() == t.last());
    assert forall|j: int| 0 <= j < piece.len() implies #[trigger] piece[j] != ',' by {
        if j < a.len() {
            assert(piece[j] == sel[j]);
        } else if j < a.len() + t.len() {
            assert(piece[j] == t[j - a.len()]);
        } else {
            assert(piece[j] == sel[tail + (j - a.len() - t.len())]);
        }
    }
    assert(piece.subrange(a.len() as int, (a.len() + t.len()) as int) =~= t);
    assert(piece.take(a.len() as int) =~= a);
    assert(piece.skip((a.len() + t.len()) as int) =~= b);
}

/// Renaming a family and then renaming it back gives the argument text
/// back, whenever the new name is a plain word: not empty, and free of
/// blanks, commas and quotes.
#[verifier::spinoff_prover]
#[verifier::rlimit(40)]
pub proof fn lemma_rename_round_trip(arg: Seq<char>, old: Seq<char>, new: Seq<char>)
    requires
        arg_selector_ok(arg),
        rename_arg(arg, old, new) is Some,
        new.len() > 0,
        forall|i: int| 0 <= i < new.len() ==> !is_ws(#[trigger] new[i]) && new[i] != ',' && new[i] != '"',
    ensures
        arg_selector_ok(rename_arg(arg, old, new)->0),
        rename_arg(rename_arg(arg, old, new)->0, new, old) == Some(arg),
{
    let (sel, module) = arg_parts(arg);
    let lead = ws_prefix(sel);
    let tail = ws_suffix_start(sel);
    lemma_find_char(arg, ',');
    lemma_ws_prefix(sel);
    lemma_ws_suffix_start(sel);
    let trimmed = sel.subrange(lead, tail);
    assert forall|j: int| 0 <= j < sel.len() implies #[trigger] sel[j] != ',' by {
        if let Some(i) = find_char(arg, ',') {
            assert(sel[j] == arg[j]);
        }
    }
    assert forall|j: int| 0 <= j < trimmed.len() implies #[trigger] trimmed[j] != ',' by {
        assert(trimmed[j] == sel[lead + j]);
    }
    if trimmed.len() > 0 {
        assert(trimmed[0] == sel[lead]);
        assert(trimmed.last() == sel[tail - 1]);
    }
    lemma_renamed_selector_back(trimmed, old, new);
    let t = renamed_selector(trimmed, old, new)->0;
    lemma_piece(sel, t);
    let piece = sel.take(lead) + t + sel.skip(tail);
    assert(sel.take(lead) + trimmed + sel.skip(tail) =~= sel);
    let out = rename_arg(arg, old, new)->0;
    match module {
        Some(m) => {
            let i = find_char(arg, ',')->0;
            assert(out =~= piece + seq![','] + m);
            lemma_find_char_at(out, ',', piece.len() as int);
            assert(out.take(piece.len() as int) =~= piece);
            assert(out.skip((piece.len() + 1) as int) =~= m);
            assert(arg.take(i) + seq![','] + arg.skip(i + 1) =~= arg);
        },
        None => {
            assert(out == piece);
            lemma_find_char_none(out, ',');
            assert(sel == arg);
        },
    }
}

/// Where a character other than whitespace stands, the blank margins of a
/// text end before it and start after it.
proof fn lemma_margins_around(s: Seq<char>, m: int)
    requires
        0 <= m < s.len(),
        !is_ws(s[m]),
    ensures
        ws_prefix(s) <= m < ws_suffix_start(s),
{
    lemma_ws_prefix(s);
    lemma_ws_suffix_start(s);
}

/// An argument that reads as a selector has something other than
/// whitespace before its first `,`.
pub proof fn lemma_selector_part_ok(arg: Seq<char>)
    requires
        crate::selector::raw_selector(arg) is Ok,
    ensures
        arg_selector_ok(arg),
{
    let wp = ws_prefix(arg);
    lemma_ws_prefix(arg);
    let u = arg.skip(wp);
    lemma_ws_suffix_start(u);
    let t = trim(arg);
    assert(t == u.take(ws_suffix_start(u)));
    let b = crate::selector::before_comma(t);
    lemma_find_char(t, ',');
    let part = trim(b);
    assert(part.len() > 0);
    lemma_ws_prefix(b);
    let bu = b.skip(ws_prefix(b));
    lemma_ws_suffix_start(bu);
    assert(part == bu.take(ws_suffix_start(bu)));
    let j = ws_prefix(b);
    assert(j < b.len());
    assert(!is_ws(b[j]));
    assert(b[j] == t[j]);
    let m = wp + j;
    assert(t[j] == arg[m]);
    assert forall|i: int| 0 <= i < m implies arg[i] != ',' by {
        if i < wp {
            assert(is_ws(arg[i]));
            assert(!is_ws(','));
        } else {
            assert(arg[i] == t[i - wp]);
            assert(t[i - wp] == b[i - wp]);
        }
    }
    assert(!is_ws(','));
    lemma_find_char(arg, ',');
    let sel = arg_parts(arg).0;
    assert(m < sel.len() && sel[m] == arg[m]);
    lemma_margins_around(sel, m);
}

/// A new family name as a rename asks for it: trimmed; refused when empty
/// or holding `.`, `/` or whitespace.
pub open spec fn new_family_spec(raw: Seq<char>) -> Result<Seq<char>, Seq<char>> {
    let t = trim(raw);
    if t.len() == 0 || exists|i: int| 0 <= i < t.len() && (t[i] == '.' || t[i] == '/' || is_ws(#[trigger] t[i])) {
        Err("family name can't be empty or contain `.`, `/`, or whitespace"@)
    } else {
        Ok(t)
    }
}

/// See `new_family_spec`.
pub fn new_family_name(raw: &str) -> (r: Result<String, String>)
    ensures
        match new_family_spec(raw@) {
            Ok(n) => r matches Ok(x) && x@ == n,
            Err(m) => r matches Err(x) && x@ == m,
        },
{
    let c = chars_of(raw);
    let t = crate::text::trim_exec(c.as_slice());
    let mut bad = t.len() == 0;
    let mut i: usize = 0;
    while i < t.len()
        invariant
            i <= t@.len(),
            bad == (t@.len() == 0 || exists|j: int| 0 <= j < i && (t@[j] == '.' || t@[j] == '/' || is_ws(#[trigger] t@[j]))),
        decreases t@.len() - i,
    {
        if t[i] == '.' || t[i] == '/' || crate::text::is_ws_exec(t[i]) {
            bad = true;
        }
        i += 1;
    }
    if bad {
        Err("family name can't be empty or contain `.`, `/`, or whitespace".to_owned())
    } else {
        Ok(string_of(t.as_slice()))
    }
}

/// The files that declare entries of `family`, each once, in the order
/// their first such entry comes.
pub open spec fn declaring_files_spec(entries: Seq<crate::model::IconEntry>, family: Seq<char>) -> Seq<Seq<char>>
    decreases entries.len(),
{
    if entries.len() == 0 {
        Seq::empty()
    } else {
        let rest = declaring_files_spec(entries.drop_last(), family);
        let e = entries.last();
        if e.family@ == family && !rest.contains(e.file@) {
            rest.push(e.file@)
        } else {
            rest
        }
    }
}

/// See `declaring_files_spec`.
pub fn declaring_files(manifest: &crate::model::IconManifest, family: &str) -> (r: Vec<String>)
    ensures
        crate::fields::strings_view(r@) == declaring_files_spec(manifest.entries@, family@),
{
    let mut r: Vec<String> = Vec::new();
    let mut i: usize = 0;
    let fam = family.to_owned();
    while i < manifest.entries.len()
        invariant
            fam@ == family@,
            i <= manifest.entries@.len(),
            crate::fields::strings_view(r@) == declaring_files_spec(manifest.entries@.take(i as int), family@),
        decreases manifest.entries@.len() - i,
    {
        proof {
            assert(manifest.entries@.take(i + 1).drop_last() =~= manifest.entries@.take(i as int));
            assert(manifest.entries@.take(i + 1).last() == manifest.entries@[i as int]);
        }
        let e = &manifest.entries[i];
        if e.family == fam {
            let ghost rv = crate::fields::strings_view(r@);
            let mut seen = false;
            let mut j: usize = 0;
            while j < r.len()
                invariant
                    rv == crate::fields::strings_view(r@),
                    j <= r@.len(),
                    seen == (exists|x: int| 0 <= x < j && rv[x] == e.file@),
                decreases r@.len() - j,
            {
                if r[j] == e.file {
                    seen = true;
                }
                proof {
                    assert(rv[j as int] == r@[j as int]@);
                }
                j += 1;
            }
            if !seen {
                r.push(e.file.clone());
                proof {
                    assert(crate::fields::strings_view(r@) =~= rv.push(e.file@));
                }
            } else {
                proof {
                    let x = choose|x: int| 0 <= x < j && rv[x] == e.file@;
                    assert(rv.contains(e.file@));
                }
            }
        }
        i += 1;
    }
    proof {
        assert(manifest.entries@.take(manifest.entries@.len() as int) =~= manifest.entries@);
    }
    r
}

} // verus!
