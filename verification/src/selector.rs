//! Interpretation of an icon selector, the argument of
//! `icon!`/`icon_key!`/`icon_data!`: a dotted path (`family`,
//! `family.variant`, `family.size`, `family.size.variant`), a
//! slash-separated string literal (`"family/size/variant"`), or a raw
//! iconify id (`"set:name"`).

use crate::text::{
    chars_of, find_char, find_char_exec, is_alnum, is_alnum_exec, parse_u16, parse_u16_exec,
    push_all, push_str, replace_char, replace_char_exec, slice_vec, split_on, split_on_exec,
    string_of, trim, trim_exec,
};
use vstd::prelude::*;

verus! {

/// A selector resolved against the manifest (`FamilyVariant`) or a raw
/// iconify id resolved through the cache (`Iconify`).
#[derive(Clone, Debug, PartialEq, Eq)]
pub enum IconSelector {
    FamilyVariant { family: String, size: Option<u16>, variant: Option<String> },
    Iconify(String),
}

/// The mathematical value of an [`IconSelector`].
pub enum SelectorView {
    FamilyVariant { family: Seq<char>, size: Option<u16>, variant: Option<Seq<char>> },
    Iconify(Seq<char>),
}

pub open spec fn opt_view(o: Option<String>) -> Option<Seq<char>> {
    match o {
        Some(s) => Some(s@),
        None => None,
    }
}

impl View for IconSelector {
    type V = SelectorView;

    open spec fn view(&self) -> SelectorView {
        match self {
            IconSelector::FamilyVariant { family, size, variant } => SelectorView::FamilyVariant {
                family: family@,
                size: *size,
                variant: opt_view(*variant),
            },
            IconSelector::Iconify(id) => SelectorView::Iconify(id@),
        }
    }
}

/// One dot-separated segment of the path form: a size or an identifier.
#[derive(Clone, Debug)]
pub enum PathSegment {
    Ident(String),
    Size(u16),
}

pub enum SegmentView {
    Ident(Seq<char>),
    Size(u16),
}

impl View for PathSegment {
    type V = SegmentView;

    open spec fn view(&self) -> SegmentView {
        match self {
            PathSegment::Ident(s) => SegmentView::Ident(s@),
            PathSegment::Size(n) => SegmentView::Size(*n),
        }
    }
}

pub open spec fn family_msg() -> Seq<char> {
    "expected a family name, e.g. `settings` or `settings.filled`"@
}

pub open spec fn shape_msg() -> Seq<char> {
    "expected `family`, `family.variant`, `family.size`, or `family.size.variant`"@
}

pub open spec fn resource_msg() -> Seq<char> {
    "expected icon selector like `settings`, `settings/filled`, or `settings/24/filled`"@
}

fn family_error() -> (r: String)
    ensures
        r@ == family_msg(),
{
    String::from_str("expected a family name, e.g. `settings` or `settings.filled`")
}

fn shape_error() -> (r: String)
    ensures
        r@ == shape_msg(),
{
    String::from_str("expected `family`, `family.variant`, `family.size`, or `family.size.variant`")
}

pub open spec fn fv(family: Seq<char>, size: Option<u16>, variant: Option<Seq<char>>) -> SelectorView {
    SelectorView::FamilyVariant { family, size, variant }
}

/// The accepted shapes: `[family]`, `[family, variant]`, `[family, size]`,
/// `[family, size, variant]`; a size always comes before the variant.
pub open spec fn classify(segs: Seq<SegmentView>) -> Result<SelectorView, Seq<char>> {
    if segs.len() == 0 || !(segs[0] is Ident) {
        Err(family_msg())
    } else {
        let f = segs[0]->Ident_0;
        if segs.len() == 1 {
            Ok(fv(f, None, None))
        } else if segs.len() == 2 && segs[1] is Ident {
            Ok(fv(f, None, Some(segs[1]->Ident_0)))
        } else if segs.len() == 2 && segs[1] is Size {
            Ok(fv(f, Some(segs[1]->Size_0), None))
        } else if segs.len() == 3 && segs[1] is Size && segs[2] is Ident {
            Ok(fv(f, Some(segs[1]->Size_0), Some(segs[2]->Ident_0)))
        } else {
            Err(shape_msg())
        }
    }
}

pub open spec fn result_view(r: Result<IconSelector, String>) -> Result<SelectorView, Seq<char>> {
    match r {
        Ok(s) => Ok(s@),
        Err(e) => Err(e@),
    }
}

/// Interprets `[family]`/`[family, variant]`/`[family, size]`/
/// `[family, size, variant]`.
pub fn classify_segments(segments: Vec<PathSegment>) -> (r: Result<IconSelector, String>)
    ensures
        result_view(r) == classify(segments@.map_values(|s: PathSegment| s@)),
{
    let ghost segs = segments@.map_values(|s: PathSegment| s@);
    let n = segments.len();
    if n == 0 {
        return Err(family_error());
    }
    let family = match &segments[0] {
        PathSegment::Ident(f) => f.clone(),
        PathSegment::Size(_) => {
            return Err(family_error());
        },
    };
    if n == 1 {
        return Ok(IconSelector::FamilyVariant { family, size: None, variant: None });
    }
    if n == 2 {
        return match &segments[1] {
            PathSegment::Ident(v) => Ok(IconSelector::FamilyVariant { family, size: None, variant: Some(v.clone()) }),
            PathSegment::Size(s) => Ok(IconSelector::FamilyVariant { family, size: Some(*s), variant: None }),
        };
    }
    if n == 3 {
        if let PathSegment::Size(s) = &segments[1] {
            if let PathSegment::Ident(v) = &segments[2] {
                return Ok(IconSelector::FamilyVariant { family, size: Some(*s), variant: Some(v.clone()) });
            }
        }
    }
    Err(shape_error())
}

/// How one dot-separated piece of the path form is read: a `u16` is a
/// size, anything else an identifier with `_` normalized to `-`.
pub open spec fn segment_of(piece: Seq<char>) -> SegmentView {
    match parse_u16(piece) {
        Some(n) => SegmentView::Size(n),
        None => SegmentView::Ident(replace_char(piece, '_', '-')),
    }
}

/// The dotted-path form read from plain text.
pub open spec fn path_selector(input: Seq<char>) -> Result<SelectorView, Seq<char>> {
    if input.len() == 0 {
        Err(family_msg())
    } else {
        classify(split_on(input, seq!['.']).map_values(|p: Seq<char>| segment_of(p)))
    }
}

/// Plain-text version of the dotted-path form, sharing
/// [`classify_segments`] with the token-driven macro parser.
pub fn parse_selector_path_text(input: &str) -> (r: Result<IconSelector, String>)
    ensures
        result_view(r) == path_selector(input@),
{
    let chars = chars_of(input);
    path_selector_chars(chars.as_slice())
}

fn path_selector_chars(input: &[char]) -> (r: Result<IconSelector, String>)
    ensures
        result_view(r) == path_selector(input@),
{
    if input.len() == 0 {
        return Err(family_error());
    }
    let dot = ['.'];
    proof {
        assert(dot@ =~= seq!['.']);
    }
    let pieces = split_on_exec(input, dot.as_slice());
    let ghost spec_pieces = split_on(input@, seq!['.']);
    let mut segments: Vec<PathSegment> = Vec::new();
    let mut i: usize = 0;
    while i < pieces.len()
        invariant
            pieces@.len() == spec_pieces.len(),
            forall|k: int| 0 <= k < pieces@.len() ==> (#[trigger] pieces@[k])@ == spec_pieces[k],
            i <= pieces@.len(),
            segments@.len() == i,
            forall|k: int| 0 <= k < i ==> (#[trigger] segments@[k])@ == segment_of(spec_pieces[k]),
        decreases pieces@.len() - i,
    {
        let piece = &pieces[i];
        let seg = match parse_u16_exec(piece.as_slice()) {
            Some(n) => PathSegment::Size(n),
            None => PathSegment::Ident(string_of(replace_char_exec(piece.as_slice(), '_', '-').as_slice())),
        };
        segments.push(seg);
        i += 1;
    }
    proof {
        assert(segments@.map_values(|s: PathSegment| s@) =~= spec_pieces.map_values(|p: Seq<char>| segment_of(p)));
    }
    classify_segments(segments)
}

// ---------------------------------------------------------------------------
// The string-literal form

/// First position at or after `i` that is not ASCII alphanumeric.
pub open spec fn alnum_end(s: Seq<char>, i: int) -> int
    decreases s.len() - i,
{
    if i < 0 || i >= s.len() || !is_alnum(s[i]) {
        i
    } else {
        alnum_end(s, i + 1)
    }
}

pub proof fn lemma_alnum_end(s: Seq<char>, i: int)
    requires
        0 <= i <= s.len(),
    ensures
        i <= alnum_end(s, i) <= s.len(),
        i < s.len() && is_alnum(s[i]) ==> i < alnum_end(s, i),
    decreases s.len() - i,
{
    if i < s.len() && is_alnum(s[i]) {
        lemma_alnum_end(s, i + 1);
    }
}

/// Extends a segment ending at `e` by as many `-alnum+`/`_alnum+` groups as
/// follow.
pub open spec fn segment_more(s: Seq<char>, e: int) -> int
    decreases s.len() - e,
{
    if 0 <= e && e + 1 < s.len() && (s[e] == '-' || s[e] == '_') && is_alnum(s[e + 1]) {
        let next = alnum_end(s, e + 1);
        if e < next <= s.len() {
            segment_more(s, next)
        } else {
            e
        }
    } else {
        e
    }
}

pub proof fn lemma_segment_more(s: Seq<char>, e: int)
    requires
        0 <= e <= s.len(),
    ensures
        e <= segment_more(s, e) <= s.len(),
    decreases s.len() - e,
{
    if e + 1 < s.len() && (s[e] == '-' || s[e] == '_') && is_alnum(s[e + 1]) {
        lemma_alnum_end(s, e + 1);
        let next = alnum_end(s, e + 1);
        if e < next <= s.len() {
            lemma_segment_more(s, next);
        }
    }
}

/// End of the segment `alnum+ ([-_] alnum+)*` starting at `i`, if one does.
pub open spec fn segment_at(s: Seq<char>, i: int) -> Option<int> {
    if 0 <= i < s.len() && is_alnum(s[i]) {
        Some(segment_more(s, alnum_end(s, i)))
    } else {
        None
    }
}

/// A `/segment` at `e`: the segment's end.
pub open spec fn slash_segment_at(s: Seq<char>, e: int) -> Option<int> {
    if 0 <= e < s.len() && s[e] == '/' {
        segment_at(s, e + 1)
    } else {
        None
    }
}

pub open spec fn size_msg(got: Seq<char>) -> Seq<char> {
    "expected a numeric size before the variant, got `"@ + got + "`"@
}

pub open spec fn trailing_msg(rest: Seq<char>) -> Seq<char> {
    "unexpected trailing input `"@ + rest + "` in icon selector"@
}

/// The string-literal form: `"set:name"` (any `:`) is an iconify id;
/// otherwise `family`, `family/size-or-variant` or `family/size/variant`,
/// each segment `alnum+ ([-_] alnum+)*`.
pub open spec fn resource_selector(s: Seq<char>) -> Result<SelectorView, Seq<char>> {
    if s.contains(':') {
        Ok(SelectorView::Iconify(s))
    } else {
        match segment_at(s, 0) {
            None => Err(resource_msg()),
            Some(e1) => {
                let family = s.take(e1);
                match slash_segment_at(s, e1) {
                    None => if e1 < s.len() {
                        Err(trailing_msg(s.skip(e1)))
                    } else {
                        Ok(fv(family, None, None))
                    },
                    Some(e2) => {
                        let second = s.subrange(e1 + 1, e2);
                        match slash_segment_at(s, e2) {
                            None => if e2 < s.len() {
                                Err(trailing_msg(s.skip(e2)))
                            } else {
                                match parse_u16(second) {
                                    Some(n) => Ok(fv(family, Some(n), None)),
                                    None => Ok(fv(family, None, Some(second))),
                                }
                            },
                            Some(e3) => {
                                let third = s.subrange(e2 + 1, e3);
                                if e3 < s.len() {
                                    Err(trailing_msg(s.skip(e3)))
                                } else {
                                    match parse_u16(second) {
                                        Some(n) => Ok(fv(family, Some(n), Some(third))),
                                        None => Err(size_msg(second)),
                                    }
                                }
                            },
                        }
                    },
                }
            },
        }
    }
}

proof fn lemma_segment_at_bounds(s: Seq<char>, i: int)
    requires
        0 <= i,
    ensures
        segment_at(s, i) matches Some(e) ==> i < e <= s.len(),
{
    if 0 <= i < s.len() && is_alnum(s[i]) {
        lemma_alnum_end(s, i);
        lemma_segment_more(s, alnum_end(s, i));
    }
}

/// In the two-segment string form `family/x`, `x` is the size when it
/// reads as a `u16`, and the variant otherwise: whenever `family/x` (with
/// no further `/`) reads as a selector of that family, its size is
/// `parse_u16(x)` and it has a variant, `x`, exactly when it has no size.
pub proof fn lemma_two_segments_size_or_variant(s: Seq<char>, f: Seq<char>, x: Seq<char>)
    requires
        s == f + seq!['/'] + x,
        !x.contains('/'),
        resource_selector(s) matches Ok(SelectorView::FamilyVariant { family, .. }) && family == f,
    ensures
        resource_selector(s) matches Ok(SelectorView::FamilyVariant { size, variant, .. }) && size == parse_u16(x)
            && variant == (if parse_u16(x) is Some {
            None::<Seq<char>>
        } else {
            Some(x)
        }),
{
    let e1 = segment_at(s, 0)->0;
    lemma_segment_at_bounds(s, 0);
    assert(s.take(e1) == f);
    assert(e1 == f.len());
    assert(s[e1] == '/');
    lemma_segment_at_bounds(s, e1 + 1);
    let e2 = slash_segment_at(s, e1)->0;
    assert(e1 + 1 < e2 <= s.len());
    if e2 < s.len() {
        assert(s[e2] == x[e2 - e1 - 1]);
        assert(x.contains(s[e2]));
        assert(slash_segment_at(s, e2) is None);
        assert(false);
    }
    assert(s.subrange(e1 + 1, e2) =~= x);
}

proof fn lemma_alnum_range(s: Seq<char>, i: int, m: int)
    requires
        0 <= i <= m < alnum_end(s, i),
    ensures
        is_alnum(s[m]),
    decreases s.len() - i,
{
    if i < m {
        lemma_alnum_range(s, i + 1, m);
    }
}

proof fn lemma_more_range(s: Seq<char>, e: int, m: int)
    requires
        0 <= e <= m < segment_more(s, e),
    ensures
        s[m] != '/',
    decreases s.len() - e,
{
    let next = alnum_end(s, e + 1);
    if m == e {
    } else if m < next {
        lemma_alnum_range(s, e + 1, m);
    } else {
        lemma_more_range(s, next, m);
    }
}

/// No character of a segment is a `/`.
proof fn lemma_segment_chars(s: Seq<char>, i: int, m: int)
    requires
        segment_at(s, i) matches Some(e) && i <= m < e,
    ensures
        s[m] != '/',
{
    let a = alnum_end(s, i);
    if m < a {
        lemma_alnum_range(s, i, m);
    } else {
        lemma_more_range(s, a, m);
    }
}

/// In the three-segment string form `family/y/z`, `y` is the size and
/// `z` the variant: whenever it reads as a selector of that family, its
/// size is `y` read as a `u16` and its variant is `z`.
pub proof fn lemma_three_segments_size_then_variant(s: Seq<char>, f: Seq<char>, y: Seq<char>, z: Seq<char>)
    requires
        s == f + seq!['/'] + y + seq!['/'] + z,
        !y.contains('/'),
        !z.contains('/'),
        resource_selector(s) matches Ok(SelectorView::FamilyVariant { family, .. }) && family == f,
    ensures
        parse_u16(y) is Some,
        resource_selector(s) matches Ok(SelectorView::FamilyVariant { size, variant, .. }) && size == parse_u16(y)
            && variant == Some(z),
{
    let e1 = segment_at(s, 0)->0;
    lemma_segment_at_bounds(s, 0);
    assert(s.take(e1) == f);
    assert(e1 == f.len());
    assert(s[e1] == '/');
    lemma_segment_at_bounds(s, e1 + 1);
    let e2 = slash_segment_at(s, e1)->0;
    assert(e1 + 1 < e2 <= s.len());
    let m: int = (f.len() + 1 + y.len()) as int;
    assert(s[m] == '/');
    if e2 < m {
        assert(s[e2] == y[e2 - e1 - 1]);
        assert(y.contains(s[e2]));
        assert(slash_segment_at(s, e2) is None);
        assert(false);
    }
    if e2 > m {
        lemma_segment_chars(s, e1 + 1, m);
        assert(false);
    }
    assert(e2 == m);
    lemma_segment_at_bounds(s, e2 + 1);
    let e3 = slash_segment_at(s, e2)->0;
    if e3 < s.len() {
        assert(s[e3] == z[e3 - m - 1]);
        assert(z.contains(s[e3]));
        assert(slash_segment_at(s, e3) is None);
        assert(false);
    }
    assert(s.subrange(e1 + 1, e2) =~= y);
    assert(s.subrange(e2 + 1, e3) =~= z);
}

fn alnum_end_exec(s: &[char], i: usize) -> (r: usize)
    requires
        i <= s@.len(),
    ensures
        r == alnum_end(s@, i as int),
{
    let mut j = i;
    while j < s.len() && is_alnum_exec(s[j])
        invariant
            i <= j <= s@.len(),
            alnum_end(s@, j as int) == alnum_end(s@, i as int),
        decreases s@.len() - j,
    {
        j += 1;
    }
    j
}

fn segment_at_exec(s: &[char], i: usize) -> (r: Option<usize>)
    requires
        i <= s@.len(),
    ensures
        segment_at(s@, i as int) == (match r {
            Some(e) => Some(e as int),
            None => None,
        }),
        r matches Some(e) ==> i < e <= s@.len(),
{
    if i >= s.len() || !is_alnum_exec(s[i]) {
        return None;
    }
    let mut e = alnum_end_exec(s, i);
    proof {
        lemma_alnum_end(s@, i as int);
    }
    while e < s.len() && e + 1 < s.len() && (s[e] == '-' || s[e] == '_') && is_alnum_exec(s[e + 1])
        invariant
            i < e <= s@.len(),
            segment_more(s@, e as int) == segment_more(s@, alnum_end(s@, i as int)),
        decreases s@.len() - e,
    {
        proof {
            lemma_alnum_end(s@, e + 1);
        }
        e = alnum_end_exec(s, e + 1);
    }
    Some(e)
}

fn slash_segment_at_exec(s: &[char], e: usize) -> (r: Option<usize>)
    requires
        e <= s@.len(),
    ensures
        slash_segment_at(s@, e as int) == (match r {
            Some(x) => Some(x as int),
            None => None,
        }),
        r matches Some(x) ==> e < x <= s@.len(),
{
    if e < s.len() && s[e] == '/' {
        segment_at_exec(s, e + 1)
    } else {
        None
    }
}

fn trailing_error(s: &[char], from: usize) -> (r: String)
    requires
        from <= s@.len(),
    ensures
        r@ == trailing_msg(s@.skip(from as int)),
{
    let mut out: Vec<char> = Vec::new();
    push_str(&mut out, "unexpected trailing input `");
    let rest = slice_vec(s, from, s.len());
    push_all(&mut out, rest.as_slice());
    push_str(&mut out, "` in icon selector");
    proof {
        assert(rest@ == s@.skip(from as int));
    }
    string_of(out.as_slice())
}

fn size_error(got: &[char]) -> (r: String)
    ensures
        r@ == size_msg(got@),
{
    let mut out: Vec<char> = Vec::new();
    push_str(&mut out, "expected a numeric size before the variant, got `");
    push_all(&mut out, got);
    push_str(&mut out, "`");
    string_of(out.as_slice())
}

/// Parses the string-literal form: `"family/variant"`,
/// `"family/size/variant"`, or a raw iconify id `"set:name"`.
pub fn parse_resource_selector(input: &str) -> (r: Result<IconSelector, String>)
    ensures
        result_view(r) == resource_selector(input@),
{
    let s = chars_of(input);
    resource_selector_chars(s.as_slice())
}

fn resource_selector_chars(s: &[char]) -> (r: Result<IconSelector, String>)
    ensures
        result_view(r) == resource_selector(s@),
{
    if find_char_exec(s, ':').is_some() {
        proof {
            crate::text::lemma_find_char(s@, ':');
        }
        return Ok(IconSelector::Iconify(string_of(s)));
    }
    proof {
        crate::text::lemma_find_char(s@, ':');
        assert(!s@.contains(':'));
    }
    let e1 = match segment_at_exec(s, 0) {
        None => {
            return Err(String::from_str("expected icon selector like `settings`, `settings/filled`, or `settings/24/filled`"));
        },
        Some(e) => e,
    };
    let family = string_of(slice_vec(s, 0, e1).as_slice());
    proof {
        assert(s@.subrange(0, e1 as int) == s@.take(e1 as int));
    }
    let e2 = match slash_segment_at_exec(s, e1) {
        None => {
            if e1 < s.len() {
                return Err(trailing_error(s, e1));
            }
            return Ok(IconSelector::FamilyVariant { family, size: None, variant: None });
        },
        Some(e) => e,
    };
    let second = slice_vec(s, e1 + 1, e2);
    match slash_segment_at_exec(s, e2) {
        None => {
            if e2 < s.len() {
                return Err(trailing_error(s, e2));
            }
            match parse_u16_exec(second.as_slice()) {
                Some(n) => Ok(IconSelector::FamilyVariant { family, size: Some(n), variant: None }),
                None => Ok(
                    IconSelector::FamilyVariant { family, size: None, variant: Some(string_of(second.as_slice())) },
                ),
            }
        },
        Some(e3) => {
            if e3 < s.len() {
                return Err(trailing_error(s, e3));
            }
            let third = string_of(slice_vec(s, e2 + 1, e3).as_slice());
            match parse_u16_exec(second.as_slice()) {
                Some(n) => Ok(IconSelector::FamilyVariant { family, size: Some(n), variant: Some(third) }),
                None => Err(size_error(second.as_slice())),
            }
        },
    }
}

// ---------------------------------------------------------------------------
// Raw argument text

/// `text` up to its first `,` (the rest would be `module = ...`).
pub open spec fn before_comma(text: Seq<char>) -> Seq<char> {
    match find_char(text, ',') {
        Some(k) => text.take(k),
        None => text,
    }
}

/// Whether `s` is a quoted literal `"..."`, and if so its contents.
pub open spec fn unquote(s: Seq<char>) -> Option<Seq<char>> {
    if s.len() >= 2 && s[0] == '"' && s.last() == '"' {
        Some(s.subrange(1, s.len() - 1))
    } else {
        None
    }
}

/// A selector from raw, untokenized macro argument text: trimmed, cut at
/// the first `,`, trimmed again, then read as a string literal or a path.
pub open spec fn raw_selector(raw: Seq<char>) -> Result<SelectorView, Seq<char>> {
    let part = trim(before_comma(trim(raw)));
    match unquote(part) {
        Some(inner) => resource_selector(inner),
        None => path_selector(part),
    }
}

/// Splits `text` on its first `,`.
fn split_off_module(text: &[char]) -> (r: (Vec<char>, Option<Vec<char>>))
    ensures
        r.0@ == before_comma(text@),
        match find_char(text@, ',') {
            Some(k) => r.1 matches Some(after) && after@ == text@.skip(k + 1),
            None => r.1 is None,
        },
{
    proof {
        crate::text::lemma_find_char(text@, ',');
    }
    match find_char_exec(text, ',') {
        Some(k) => {
            assert(k < text.len());
            proof {
                assert(text@.subrange(0, k as int) == text@.take(k as int));
                assert(text@.subrange(k + 1, text@.len() as int) == text@.skip(k + 1));
            }
            (slice_vec(text, 0, k), Some(slice_vec(text, k + 1, text.len())))
        },
        None => {
            proof {
                assert(text@.subrange(0, text@.len() as int) == text@);
            }
            (slice_vec(text, 0, text.len()), None)
        },
    }
}

/// Interprets raw argument text (as scanned from source, not tokenized):
/// drops a trailing `, module = ident`, then dispatches on whether what is
/// left is a quoted string literal or a bare dotted path.
pub fn parse_selector(raw: &str) -> (r: Result<IconSelector, String>)
    ensures
        result_view(r) == raw_selector(raw@),
{
    let chars = chars_of(raw);
    let trimmed = trim_exec(chars.as_slice());
    let (before, _module) = split_off_module(trimmed.as_slice());
    let part = trim_exec(before.as_slice());
    let n = part.len();
    if n >= 2 && part[0] == '"' && part[n - 1] == '"' {
        let inner = slice_vec(part.as_slice(), 1, n - 1);
        resource_selector_chars(inner.as_slice())
    } else {
        path_selector_chars(part.as_slice())
    }
}

} // verus!
