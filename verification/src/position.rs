//! Converting between byte offsets into a document's text (what manifest
//! spans hold) and editor positions: a zero-based line and a column
//! counted in UTF-16 code units, for one snapshot of the text.

use crate::manifest_text::{
    byte_pos, char_index, char_index_exec, is_boundary, lemma_char_index, lemma_line_bounds, line_start,
};
use crate::text::{
    byte_offsets, chars_of, lemma_utf8_len_take_mono, utf16_len, utf16_width, utf16_width_exec, utf8_len,
    utf8_width,
};
use std::ops::Range;
use vstd::prelude::*;
use vstd::utf8::char_is_scalar;

verus! {

/// A position in a document: zero-based line, and column in UTF-16 code
/// units from the start of that line.
#[derive(Clone, Copy, Debug, PartialEq, Eq)]
pub struct Position {
    pub line: u32,
    pub character: u32,
}

/// A start and an end position.
#[derive(Clone, Copy, Debug, PartialEq, Eq)]
pub struct TextRange {
    pub start: Position,
    pub end: Position,
}

/// How many line breaks `s` holds.
pub open spec fn newline_count(s: Seq<char>) -> nat
    decreases s.len(),
{
    if s.len() == 0 {
        0
    } else {
        newline_count(s.drop_last()) + if s.last() == '\n' {
            1nat
        } else {
            0nat
        }
    }
}

/// The character positions where the lines of `s` start: 0, and each
/// position just after a line break.
pub open spec fn line_starts(s: Seq<char>) -> Seq<int>
    decreases s.len(),
{
    if s.len() == 0 {
        seq![0]
    } else if s.last() == '\n' {
        line_starts(s.drop_last()).push(s.len() as int)
    } else {
        line_starts(s.drop_last())
    }
}

/// Where the line holding `k` starts depends only on what comes before `k`.
proof fn lemma_line_start_local(s: Seq<char>, t: Seq<char>, k: int)
    requires
        0 <= k <= s.len(),
        k <= t.len(),
        s.take(k) == t.take(k),
    ensures
        line_start(s, k) == line_start(t, k),
    decreases k,
{
    if k > 0 {
        assert(s[k - 1] == s.take(k)[k - 1]);
        assert(t[k - 1] == t.take(k)[k - 1]);
        assert(s.take(k - 1) =~= s.take(k).take(k - 1));
        assert(t.take(k - 1) =~= t.take(k).take(k - 1));
        lemma_line_start_local(s, t, k - 1);
    }
}

proof fn lemma_line_starts_shape(s: Seq<char>)
    ensures
        line_starts(s).len() == newline_count(s) + 1,
        line_starts(s)[0] == 0,
        forall|i: int, j: int|
            0 <= i < j < line_starts(s).len() ==> #[trigger] line_starts(s)[i] < #[trigger] line_starts(s)[j],
        forall|i: int| 0 <= i < line_starts(s).len() ==> 0 <= #[trigger] line_starts(s)[i] <= s.len(),
        line_starts(s).last() == line_start(s, s.len() as int),
    decreases s.len(),
{
    if s.len() > 0 {
        let p = s.drop_last();
        lemma_line_starts_shape(p);
        assert(p.take(p.len() as int) =~= s.take(p.len() as int));
        lemma_line_start_local(p, s, p.len() as int);
        if s.last() == '\n' {
            let q = line_starts(p);
            assert forall|i: int, j: int|
                0 <= i < j < line_starts(s).len() implies #[trigger] line_starts(s)[i]
                < #[trigger] line_starts(s)[j] by {
                if j < q.len() {
                    assert(line_starts(s)[i] == q[i] && line_starts(s)[j] == q[j]);
                } else {
                    assert(line_starts(s)[i] == q[i]);
                }
            }
            assert forall|i: int| 0 <= i < line_starts(s).len() implies 0 <= #[trigger] line_starts(s)[i]
                <= s.len() by {
                if i < q.len() {
                    assert(line_starts(s)[i] == q[i]);
                }
            }
        }
    }
}

/// The line starts of a prefix come first among those of the whole text;
/// the rest lie beyond the prefix.
proof fn lemma_line_starts_prefix(s: Seq<char>, k: int)
    requires
        0 <= k <= s.len(),
    ensures
        line_starts(s.take(k)).len() <= line_starts(s).len(),
        forall|i: int| 0 <= i < line_starts(s.take(k)).len() ==> #[trigger] line_starts(s)[i] == line_starts(s.take(k))[i],
        forall|i: int| line_starts(s.take(k)).len() <= i < line_starts(s).len() ==> #[trigger] line_starts(s)[i] > k,
    decreases s.len() - k,
{
    if k == s.len() {
        assert(s.take(k) =~= s);
    } else {
        let p = s.drop_last();
        assert(p.take(k) =~= s.take(k));
        lemma_line_starts_prefix(p, k);
        lemma_line_starts_shape(p);
        if s.last() == '\n' {
            assert forall|i: int| line_starts(s.take(k)).len() <= i < line_starts(s).len() implies #[trigger] line_starts(s)[i] > k by {
                if i < line_starts(p).len() {
                    assert(line_starts(s)[i] == line_starts(p)[i]);
                }
            }
        }
    }
}

/// Position `k` lies on line `newline_count(s.take(k))`, which starts at
/// `line_start(s, k)` and ends before the next line start.
pub proof fn lemma_line_of(s: Seq<char>, k: int)
    requires
        0 <= k <= s.len(),
    ensures
        ({
            let j = newline_count(s.take(k)) as int;
            &&& j < line_starts(s).len()
            &&& line_starts(s)[j] == line_start(s, k)
            &&& j + 1 < line_starts(s).len() ==> line_starts(s)[j + 1] > k
        }),
{
    let t = s.take(k);
    lemma_line_starts_prefix(s, k);
    lemma_line_starts_shape(t);
    lemma_line_starts_shape(s);
    assert(t.take(k) =~= s.take(k));
    lemma_line_start_local(t, s, k);
}


/// Byte offset `off` clamped to the end of the text.
pub open spec fn clamp_offset(s: Seq<char>, off: int) -> int {
    if off < utf8_len(s) {
        off
    } else {
        utf8_len(s) as int
    }
}

/// The line and UTF-16 column of character position `k`: how many line
/// breaks come before it, and the UTF-16 length of its line up to it.
pub open spec fn position_of(s: Seq<char>, k: int) -> (int, int) {
    (newline_count(s.take(k)) as int, utf16_len(s.subrange(line_start(s, k), k)) as int)
}

/// Walking `line` from character `j`: the first character position whose
/// UTF-16 prefix length reaches column `c`, or the end of the line.
pub open spec fn column_from(line: Seq<char>, j: int, c: int) -> int
    decreases line.len() - j,
{
    if j >= line.len() {
        line.len() as int
    } else if utf16_len(line.take(j)) >= c {
        j
    } else {
        column_from(line, j + 1, c)
    }
}

/// The byte offset of column `c` on line `line` (its line break counted as
/// part of it), or `None` past the last line.
pub open spec fn offset_of(s: Seq<char>, line: int, c: int) -> Option<int> {
    let ls = line_starts(s);
    if line < 0 || line >= ls.len() {
        None
    } else {
        let a = ls[line];
        let b = if line + 1 < ls.len() {
            ls[line + 1]
        } else {
            s.len() as int
        };
        Some(byte_pos(s, a + column_from(s.subrange(a, b), 0, c)))
    }
}

proof fn lemma_utf16_len_mono(line: Seq<char>, j: int, m: int)
    requires
        0 <= j < m <= line.len(),
    ensures
        utf16_len(line.take(j)) < utf16_len(line.take(m)),
    decreases m,
{
    assert(line.take(m).drop_last() =~= line.take(m - 1));
    if j < m - 1 {
        lemma_utf16_len_mono(line, j, m - 1);
    }
}

proof fn lemma_column_from(line: Seq<char>, j: int, m: int)
    requires
        0 <= j <= m <= line.len(),
    ensures
        column_from(line, j, utf16_len(line.take(m)) as int) == m,
    decreases m - j,
{
    if j < m {
        lemma_utf16_len_mono(line, j, m);
        lemma_column_from(line, j + 1, m);
    }
}

/// A character position turned into a line and column and back gives the
/// byte offset of that position.
pub proof fn lemma_position_round_trip(s: Seq<char>, k: int)
    requires
        0 <= k <= s.len(),
    ensures
        offset_of(s, position_of(s, k).0, position_of(s, k).1) == Some(byte_pos(s, k)),
{
    lemma_line_of(s, k);
    lemma_line_starts_shape(s);
    lemma_line_bounds(s, k);
    let ls = line_starts(s);
    let j = newline_count(s.take(k)) as int;
    let a = ls[j];
    let b = if j + 1 < ls.len() {
        ls[j + 1]
    } else {
        s.len() as int
    };
    let line = s.subrange(a, b);
    assert(line.take(k - a) =~= s.subrange(a, k));
    lemma_column_from(line, 0, k - a);
}

proof fn lemma_utf16_le_utf8(c: char)
    ensures
        1 <= utf16_width(c) <= utf8_width(c),
{
    char_is_scalar(c);
}

/// An index over the starts of a document's lines, as byte offsets.
pub struct LineIndex {
    line_starts: Vec<usize>,
}

impl LineIndex {
    /// Whether this index was built from the text `s`.
    pub closed spec fn indexes(&self, s: Seq<char>) -> bool {
        &&& self.line_starts@.len() == line_starts(s).len()
        &&& forall|i: int|
            0 <= i < self.line_starts@.len() ==> #[trigger] self.line_starts@[i] == byte_pos(
                s,
                line_starts(s)[i],
            )
    }

    /// Indexes the line starts of `text`.
    pub fn new(text: &str) -> (r: Self)
        requires
            utf8_len(text@) <= usize::MAX,
        ensures
            r.indexes(text@),
    {
        let s = chars_of(text);
        let offs = byte_offsets(&s);
        let mut starts: Vec<usize> = Vec::new();
        starts.push(0);
        let mut k: usize = 0;
        proof {
            assert(s@.take(0) =~= Seq::<char>::empty());
            assert(byte_pos(s@, 0) == 0) by {
                assert(offs@[0] == utf8_len(s@.take(0)));
            }
        }
        while k < s.len()
            invariant
                k <= s@.len(),
                s@ == text@,
                offs@.len() == s@.len() + 1,
                forall|j: int| 0 <= j <= s@.len() ==> #[trigger] offs@[j] == utf8_len(s@.take(j)),
                starts@.len() == line_starts(s@.take(k as int)).len(),
                forall|i: int|
                    0 <= i < starts@.len() ==> #[trigger] starts@[i] == byte_pos(
                        s@,
                        line_starts(s@.take(k as int))[i],
                    ),
            decreases s@.len() - k,
        {
            let ghost before = starts@;
            proof {
                assert(s@.take(k + 1).drop_last() =~= s@.take(k as int));
                assert(s@.take(k + 1).last() == s@[k as int]);
            }
            if s[k] == '\n' {
                starts.push(offs[k + 1]);
                proof {
                    assert forall|i: int| 0 <= i < starts@.len() implies #[trigger] starts@[i] == byte_pos(
                        s@,
                        line_starts(s@.take(k + 1))[i],
                    ) by {
                        if i < before.len() {
                            assert(starts@[i] == before[i]);
                        }
                    }
                }
            }
            k += 1;
        }
        proof {
            assert(s@.take(s@.len() as int) =~= s@);
        }
        LineIndex { line_starts: starts }
    }

    /// The line and UTF-16 column of byte `offset` (clamped to the end of
    /// the text) in `text`, the text this index was built from.
    pub fn position(&self, text: &str, offset: usize) -> (p: Position)
        requires
            self.indexes(text@),
            utf8_len(text@) <= usize::MAX,
            is_boundary(text@, clamp_offset(text@, offset as int)),
        ensures
            ({
                let k = char_index(text@, clamp_offset(text@, offset as int));
                &&& p.line == (position_of(text@, k).0 as u32)
                &&& p.character == (position_of(text@, k).1 as u32)
            }),
    {
        let s = chars_of(text);
        let offs = byte_offsets(&s);
        let total = offs[s.len()];
        proof {
            assert(s@.take(s@.len() as int) =~= s@);
        }
        let o = if offset < total {
            offset
        } else {
            total
        };
        let k = match char_index_exec(&s, &offs, o) {
            Some(k) => k,
            None => {
                proof {
                    assert(false);
                }
                0
            },
        };
        let ghost ls = line_starts(s@);
        proof {
            lemma_line_starts_shape(s@);
            lemma_line_of(s@, k as int);
        }
        let n = self.line_starts.len();
        let mut lo: usize = 0;
        let mut hi: usize = n;
        while hi - lo > 1
            invariant
                self.indexes(s@),
                s@ == text@,
                n == ls.len(),
                k <= s@.len(),
                ls == line_starts(s@),
                lo < hi <= n,
                ls[lo as int] <= k,
                hi < n ==> ls[hi as int] > k,
                offs@.len() == s@.len() + 1,
                forall|j: int| 0 <= j <= s@.len() ==> #[trigger] offs@[j] == utf8_len(s@.take(j)),
                o == offs@[k as int],
                forall|i: int| 0 <= i < ls.len() ==> 0 <= #[trigger] ls[i] <= s@.len(),
            decreases hi - lo,
        {
            let mid = lo + (hi - lo) / 2;
            if self.line_starts[mid] <= o {
                proof {
                    assert(self.line_starts@[mid as int] == byte_pos(s@, ls[mid as int]));
                    if ls[mid as int] > k {
                        lemma_utf8_len_take_mono(s@, k as int, ls[mid as int]);
                    }
                }
                lo = mid;
            } else {
                proof {
                    assert(self.line_starts@[mid as int] == byte_pos(s@, ls[mid as int]));
                    if ls[mid as int] <= k {
                        lemma_utf8_len_take_mono(s@, ls[mid as int], k as int);
                    }
                }
                hi = mid;
            }
        }
        let ghost j = newline_count(s@.take(k as int)) as int;
        proof {
            lemma_line_starts_shape(s@);
            lemma_line_of(s@, k as int);
            lemma_line_bounds(s@, k as int);
            assert(hi == lo + 1);
            if lo < j {
                if lo + 1 < j {
                    assert(ls[lo + 1] < ls[j]);
                }
                assert(ls[hi as int] <= ls[j]);
                assert(false);
            } else if lo > j {
                if j + 1 < lo {
                    assert(ls[j + 1] < ls[lo as int]);
                }
                assert(ls[j + 1] <= ls[lo as int]);
                assert(false);
            }
            assert(lo == j);
        }
        let a = match char_index_exec(&s, &offs, self.line_starts[lo]) {
            Some(a) => a,
            None => {
                proof {
                    assert(self.line_starts@[lo as int] == byte_pos(s@, ls[lo as int]));
                }
                0
            },
        };
        proof {
            assert(self.line_starts@[lo as int] == byte_pos(s@, ls[lo as int]));
            lemma_char_index(s@, self.line_starts@[lo as int] as int, ls[lo as int]);
        }
        let mut count: usize = 0;
        let mut i = a;
        while i < k
            invariant
                a <= i <= k <= s@.len(),
                offs@.len() == s@.len() + 1,
                forall|j: int| 0 <= j <= s@.len() ==> #[trigger] offs@[j] == utf8_len(s@.take(j)),
                count == utf16_len(s@.subrange(a as int, i as int)),
                count <= offs@[i as int] - offs@[a as int],
            decreases k - i,
        {
            let w = utf16_width_exec(s[i]);
            proof {
                assert(s@.subrange(a as int, i + 1).drop_last() =~= s@.subrange(a as int, i as int));
                assert(s@.take(i + 1) == s@.take(i as int).push(s@[i as int]));
                assert(offs@[i + 1] == utf8_len(s@.take(i + 1)));
                assert(offs@[i as int] == utf8_len(s@.take(i as int)));
                crate::text::lemma_utf8_len_push(s@.take(i as int), s@[i as int]);
                lemma_utf16_le_utf8(s@[i as int]);
            }
            count = count + w as usize;
            i += 1;
        }
        Position { line: lo as u32, character: count as u32 }
    }

    /// The byte offset of `position` in `text`, the text this index was
    /// built from: `None` past the last line; a column beyond its line
    /// gives the start of the next one.
    pub fn offset(&self, text: &str, position: Position) -> (r: Option<usize>)
        requires
            self.indexes(text@),
            utf8_len(text@) <= usize::MAX,
        ensures
            offset_of(text@, position.line as int, position.character as int) == (match r {
                Some(o) => Some(o as int),
                None => None,
            }),
    {
        let s = chars_of(text);
        let offs = byte_offsets(&s);
        let ghost ls = line_starts(s@);
        proof {
            lemma_line_starts_shape(s@);
        }
        let line = position.line as usize;
        if line >= self.line_starts.len() {
            return None;
        }
        let a_byte = self.line_starts[line];
        proof {
            assert(a_byte == byte_pos(s@, ls[line as int]));
        }
        let a = match char_index_exec(&s, &offs, a_byte) {
            Some(a) => a,
            None => return None,
        };
        let b = if line + 1 < self.line_starts.len() {
            let b_byte = self.line_starts[line + 1];
            proof {
                assert(b_byte == byte_pos(s@, ls[line + 1]));
            }
            match char_index_exec(&s, &offs, b_byte) {
                Some(b) => b,
                None => return None,
            }
        } else {
            s.len()
        };
        proof {
            lemma_char_index(s@, a_byte as int, ls[line as int]);
            if line + 1 < ls.len() {
                lemma_char_index(s@, byte_pos(s@, ls[line + 1]), ls[line + 1]);
                assert(ls[line as int] < ls[line + 1]);
            }
        }
        let ghost seg = s@.subrange(a as int, b as int);
        let c = position.character as usize;
        let mut count: usize = 0;
        let mut i = a;
        while i < b
            invariant
                a <= i <= b <= s@.len(),
                seg == s@.subrange(a as int, b as int),
                offs@.len() == s@.len() + 1,
                forall|j: int| 0 <= j <= s@.len() ==> #[trigger] offs@[j] == utf8_len(s@.take(j)),
                count == utf16_len(seg.take(i - a)),
                count <= offs@[i as int] - offs@[a as int],
                column_from(seg, 0, c as int) == column_from(seg, i - a, c as int),
                s@ == text@,
                ls == line_starts(s@),
                (line as int) < ls.len(),
                line == position.line,
                c == position.character,
                a as int == ls[line as int],
                b as int == (if line + 1 < ls.len() {
                    ls[line + 1]
                } else {
                    s@.len() as int
                }),
            decreases b - i,
        {
            if count >= c {
                return Some(offs[i]);
            }
            let w = utf16_width_exec(s[i]);
            proof {
                assert(seg.take(i + 1 - a).drop_last() =~= seg.take(i - a));
                assert(seg.take(i + 1 - a).last() == s@[i as int]);
                assert(s@.take(i + 1) == s@.take(i as int).push(s@[i as int]));
                assert(offs@[i + 1] == utf8_len(s@.take(i + 1)));
                assert(offs@[i as int] == utf8_len(s@.take(i as int)));
                crate::text::lemma_utf8_len_push(s@.take(i as int), s@[i as int]);
                lemma_utf16_le_utf8(s@[i as int]);
            }
            count = count + w as usize;
            i += 1;
        }
        Some(offs[b])
    }

    /// The positions of a byte span's two ends.
    pub fn range(&self, text: &str, span: Range<usize>) -> (r: TextRange)
        requires
            self.indexes(text@),
            utf8_len(text@) <= usize::MAX,
            is_boundary(text@, clamp_offset(text@, span.start as int)),
            is_boundary(text@, clamp_offset(text@, span.end as int)),
        ensures
            ({
                let k = char_index(text@, clamp_offset(text@, span.start as int));
                let e = char_index(text@, clamp_offset(text@, span.end as int));
                &&& r.start.line == (position_of(text@, k).0 as u32)
                &&& r.start.character == (position_of(text@, k).1 as u32)
                &&& r.end.line == (position_of(text@, e).0 as u32)
                &&& r.end.character == (position_of(text@, e).1 as u32)
            }),
    {
        TextRange { start: self.position(text, span.start), end: self.position(text, span.end) }
    }
}


} // verus!
