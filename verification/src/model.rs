//! The manifest model: paints, icon entries, provider schemas and the loaded
//! manifest with its lookups.

use crate::text::{char_from_ascii, chars_eq, chars_of, is_digit, is_hex_digit, push_all, push_str, string_of};
use crate::text::{find_char, find_char_exec, slice_vec};
use std::ops::Range;
use vstd::prelude::*;

verus! {

/// The color an icon's `currentColor` is painted with.
#[derive(Clone, Copy, Debug, PartialEq, Eq, Hash, Structural)]
pub struct PaintColor {
    pub r: u8,
    pub g: u8,
    pub b: u8,
}

/// The colors an icon's `currentColor` is painted with, per theme.
#[derive(Clone, Copy, Debug, PartialEq, Eq, Hash, Structural)]
pub struct ThemePaint {
    pub light: PaintColor,
    pub dark: PaintColor,
}

/// A declared `paint` value: `"none"`, one `#rgb`/`#rrggbb` color for every
/// theme, or `{ light = ..., dark = ... }`.
#[derive(Clone, Copy, Debug, PartialEq, Eq, Hash, Structural)]
pub enum Paint {
    NoPaint,
    Colors(ThemePaint),
}

/// The value of one hexadecimal digit.
pub open spec fn hex_value(c: char) -> nat {
    if is_digit(c) {
        (c as int - '0' as int) as nat
    } else if 'a' <= c && c <= 'f' {
        (c as int - 'a' as int + 10) as nat
    } else {
        (c as int - 'A' as int + 10) as nat
    }
}

pub open spec fn all_hex(s: Seq<char>) -> bool {
    forall|i: int| 0 <= i < s.len() ==> is_hex_digit(#[trigger] s[i])
}

/// What `PaintColor::parse` accepts: `#` and then three or six hex digits,
/// a short digit standing for itself repeated.
pub open spec fn parsed_color(s: Seq<char>) -> Option<PaintColor> {
    if s.len() >= 1 && s[0] == '#' && all_hex(s.skip(1)) {
        if s.len() == 4 {
            Some(PaintColor {
                r: (17 * hex_value(s[1])) as u8,
                g: (17 * hex_value(s[2])) as u8,
                b: (17 * hex_value(s[3])) as u8,
            })
        } else if s.len() == 7 {
            Some(PaintColor {
                r: (16 * hex_value(s[1]) + hex_value(s[2])) as u8,
                g: (16 * hex_value(s[3]) + hex_value(s[4])) as u8,
                b: (16 * hex_value(s[5]) + hex_value(s[6])) as u8,
            })
        } else {
            None
        }
    } else {
        None
    }
}

/// The ASCII code of the lowercase hex digit for `d < 16`.
pub open spec fn hex_digit_byte(d: nat) -> u8 {
    if d < 10 {
        (48 + d) as u8
    } else {
        (87 + d) as u8
    }
}

/// `#rrggbb`, lowercase, as ASCII bytes.
pub open spec fn color_hex_bytes(c: PaintColor) -> Seq<u8> {
    seq![
        35u8,
        hex_digit_byte((c.r / 16) as nat),
        hex_digit_byte((c.r % 16) as nat),
        hex_digit_byte((c.g / 16) as nat),
        hex_digit_byte((c.g % 16) as nat),
        hex_digit_byte((c.b / 16) as nat),
        hex_digit_byte((c.b % 16) as nat),
    ]
}

/// `#rrggbb`, lowercase.
pub open spec fn color_hex(c: PaintColor) -> Seq<char> {
    color_hex_bytes(c).map_values(|x: u8| x as char)
}

/// The message of a refused `paint` color.
pub open spec fn color_error(s: Seq<char>) -> Seq<char> {
    "`paint` colors must be `#rgb`/`#rrggbb`, got `"@ + s + "`"@
}

/// The message of a refused `paint` value.
pub open spec fn paint_error(s: Seq<char>) -> Seq<char> {
    "`paint` must be `\"none\"`, a `#rgb`/`#rrggbb` color, or `{ light = ..., dark = ... }`, got `"@ + s
        + "`"@
}

/// What `Paint::parse` gives for `s`.
pub open spec fn parsed_paint(s: Seq<char>) -> Option<Paint> {
    if s == "none"@ {
        Some(Paint::NoPaint)
    } else {
        match parsed_color(s) {
            Some(c) => Some(Paint::Colors(ThemePaint { light: c, dark: c })),
            None => None,
        }
    }
}

pub open spec fn paint_colors(p: Paint) -> Option<ThemePaint> {
    match p {
        Paint::NoPaint => None,
        Paint::Colors(c) => Some(c),
    }
}

proof fn lemma_hex_digit_round_trip(d: nat)
    requires
        d < 16,
    ensures
        is_hex_digit(hex_digit_byte(d) as char),
        hex_value(hex_digit_byte(d) as char) == d,
{
}

/// `PaintColor::to_hex` gives back a string that `PaintColor::parse` reads as
/// the same color.
pub proof fn lemma_color_hex_round_trip(c: PaintColor)
    ensures
        parsed_color(color_hex(c)) == Some(c),
{
    let s = color_hex(c);
    lemma_hex_digit_round_trip((c.r / 16) as nat);
    lemma_hex_digit_round_trip((c.r % 16) as nat);
    lemma_hex_digit_round_trip((c.g / 16) as nat);
    lemma_hex_digit_round_trip((c.g % 16) as nat);
    lemma_hex_digit_round_trip((c.b / 16) as nat);
    lemma_hex_digit_round_trip((c.b % 16) as nat);
    assert(s.len() == 7);
    assert(s[0] == '#');
    assert(s[1] == hex_digit_byte((c.r / 16) as nat) as char);
    assert(s[2] == hex_digit_byte((c.r % 16) as nat) as char);
    assert(s[3] == hex_digit_byte((c.g / 16) as nat) as char);
    assert(s[4] == hex_digit_byte((c.g % 16) as nat) as char);
    assert(s[5] == hex_digit_byte((c.b / 16) as nat) as char);
    assert(s[6] == hex_digit_byte((c.b % 16) as nat) as char);
    assert(all_hex(s.skip(1)));
}

fn is_hex_digit_exec(c: char) -> (r: bool)
    ensures
        r == is_hex_digit(c),
{
    ('0' <= c && c <= '9') || ('a' <= c && c <= 'f') || ('A' <= c && c <= 'F')
}

fn hex_value_exec(c: char) -> (r: u8)
    requires
        is_hex_digit(c),
    ensures
        r == hex_value(c),
        r < 16,
{
    if '0' <= c && c <= '9' {
        (c as u32 - '0' as u32) as u8
    } else if 'a' <= c && c <= 'f' {
        (c as u32 - 'a' as u32 + 10) as u8
    } else {
        (c as u32 - 'A' as u32 + 10) as u8
    }
}

fn hex_digit_byte_exec(d: u8) -> (r: u8)
    requires
        d < 16,
    ensures
        r == hex_digit_byte(d as nat),
        r < 128,
{
    if d < 10 {
        48 + d
    } else {
        87 + d
    }
}

/// `#rrggbb`, lowercase, as ASCII bytes.
fn color_hex_bytes_exec(c: PaintColor) -> (v: Vec<u8>)
    ensures
        v@ == color_hex_bytes(c),
        forall|i: int| 0 <= i < v@.len() ==> #[trigger] v@[i] < 128,
{
    let mut v: Vec<u8> = Vec::new();
    v.push(35u8);
    v.push(hex_digit_byte_exec(c.r / 16));
    v.push(hex_digit_byte_exec(c.r % 16));
    v.push(hex_digit_byte_exec(c.g / 16));
    v.push(hex_digit_byte_exec(c.g % 16));
    v.push(hex_digit_byte_exec(c.b / 16));
    v.push(hex_digit_byte_exec(c.b % 16));
    proof {
        assert(v@ =~= color_hex_bytes(c));
    }
    v
}

/// The bytes of `currentColor`.
pub open spec fn current_color() -> Seq<u8> {
    seq![99u8, 117u8, 114u8, 114u8, 101u8, 110u8, 116u8, 67u8, 111u8, 108u8, 111u8, 114u8]
}

/// `u8::to_ascii_lowercase`.
pub open spec fn lower_byte(b: u8) -> u8 {
    if 65 <= b && b <= 90 {
        (b + 32) as u8
    } else {
        b
    }
}

/// Whether `svg` holds `currentColor` at `i`, ASCII case ignored.
pub open spec fn current_color_at(svg: Seq<u8>, i: int) -> bool {
    0 <= i && i + 12 <= svg.len() && forall|k: int|
        0 <= k < 12 ==> lower_byte(#[trigger] svg[i + k]) == lower_byte(current_color()[k])
}

/// Whether an SVG has anything for `paint` to recolor.
pub open spec fn uses_current_color(svg: Seq<u8>) -> bool {
    exists|i: int| current_color_at(svg, i)
}

/// `svg` from `i` on, with every `currentColor` replaced by `hex`, left to right.
pub open spec fn painted_from(svg: Seq<u8>, i: int, hex: Seq<u8>) -> Seq<u8>
    decreases svg.len() - i,
{
    if i < 0 || i >= svg.len() {
        Seq::empty()
    } else if current_color_at(svg, i) {
        hex + painted_from(svg, i + 12, hex)
    } else {
        seq![svg[i]] + painted_from(svg, i + 1, hex)
    }
}

proof fn lemma_painted_plain(svg: Seq<u8>, i: int, hex: Seq<u8>)
    requires
        0 <= i <= svg.len(),
        !uses_current_color(svg),
    ensures
        painted_from(svg, i, hex) == svg.skip(i),
    decreases svg.len() - i,
{
    if i < svg.len() {
        assert(!current_color_at(svg, i));
        lemma_painted_plain(svg, i + 1, hex);
        assert(seq![svg[i]] + svg.skip(i + 1) =~= svg.skip(i));
    } else {
        assert(svg.skip(i) =~= Seq::<u8>::empty());
    }
}

proof fn lemma_painted_len(svg: Seq<u8>, i: int, hex: Seq<u8>)
    requires
        0 <= i,
        hex.len() < 12,
    ensures
        painted_from(svg, i, hex).len() <= if i <= svg.len() {
            svg.len() - i
        } else {
            0
        },
        (exists|j: int| i <= j && #[trigger] current_color_at(svg, j)) ==> painted_from(svg, i, hex).len() < svg.len() - i,
    decreases svg.len() - i,
{
    if i < svg.len() {
        if current_color_at(svg, i) {
            lemma_painted_len(svg, i + 12, hex);
        } else {
            lemma_painted_len(svg, i + 1, hex);
            if exists|j: int| i <= j && #[trigger] current_color_at(svg, j) {
                let j = choose|j: int| i <= j && #[trigger] current_color_at(svg, j);
                assert(i + 1 <= j);
            }
        }
    } else {
        if exists|j: int| i <= j && #[trigger] current_color_at(svg, j) {
            let j = choose|j: int| i <= j && #[trigger] current_color_at(svg, j);
            assert(j + 12 <= svg.len());
        }
    }
}

/// Painting an SVG gives it back unchanged exactly when it has no
/// `currentColor` to recolor.
pub proof fn lemma_paint_unchanged_iff_no_current_color(svg: Seq<u8>, c: PaintColor)
    ensures
        (painted_from(svg, 0, color_hex_bytes(c)) == svg) <==> !uses_current_color(svg),
{
    if uses_current_color(svg) {
        let j = choose|j: int| current_color_at(svg, j);
        assert(0 <= j && current_color_at(svg, j));
        lemma_painted_len(svg, 0, color_hex_bytes(c));
    } else {
        lemma_painted_plain(svg, 0, color_hex_bytes(c));
        assert(svg.skip(0) =~= svg);
    }
}

fn lower_byte_exec(b: u8) -> (r: u8)
    ensures
        r == lower_byte(b),
{
    if 65 <= b && b <= 90 {
        b + 32
    } else {
        b
    }
}

fn current_color_bytes() -> (v: Vec<u8>)
    ensures
        v@ == current_color(),
{
    let v: Vec<u8> = vec![99u8, 117u8, 114u8, 114u8, 101u8, 110u8, 116u8, 67u8, 111u8, 108u8, 111u8, 114u8];
    proof {
        assert(v@ =~= current_color());
    }
    v
}

fn current_color_at_exec(svg: &[u8], i: usize, needle: &Vec<u8>) -> (r: bool)
    requires
        needle@ == current_color(),
    ensures
        r == current_color_at(svg@, i as int),
{
    let n = svg.len();
    if i > n || n - i < 12 {
        return false;
    }
    let mut k: usize = 0;
    while k < 12
        invariant
            needle@ == current_color(),
            n == svg@.len(),
            i + 12 <= svg@.len(),
            k <= 12,
            forall|j: int| 0 <= j < k ==> lower_byte(#[trigger] svg@[i + j]) == lower_byte(current_color()[j]),
        decreases 12 - k,
    {
        if lower_byte_exec(svg[i + k]) != lower_byte_exec(needle[k]) {
            return false;
        }
        k += 1;
    }
    true
}

/// Whether an SVG has anything for `paint` to recolor.
pub fn svg_uses_current_color(svg: &[u8]) -> (r: bool)
    ensures
        r == uses_current_color(svg@),
{
    let needle = current_color_bytes();
    let mut i: usize = 0;
    while i < svg.len()
        invariant
            needle@ == current_color(),
            i <= svg@.len(),
            forall|j: int| 0 <= j < i ==> !current_color_at(svg@, j),
        decreases svg@.len() - i,
    {
        if current_color_at_exec(svg, i, &needle) {
            return true;
        }
        i += 1;
    }
    proof {
        assert forall|j: int| !current_color_at(svg@, j) by {
            if 0 <= j < i {
            }
        }
    }
    false
}

/// `svg` with every `currentColor` replaced by `color`.
pub fn paint_svg(svg: &[u8], color: PaintColor) -> (out: Vec<u8>)
    ensures
        out@ == painted_from(svg@, 0, color_hex_bytes(color)),
{
    let hex = color_hex_bytes_exec(color);
    let needle = current_color_bytes();
    let mut out: Vec<u8> = Vec::new();
    let mut i: usize = 0;
    while i < svg.len()
        invariant
            needle@ == current_color(),
            hex@ == color_hex_bytes(color),
            i <= svg@.len(),
            out@ + painted_from(svg@, i as int, hex@) == painted_from(svg@, 0, hex@),
        decreases svg@.len() - i,
    {
        let ghost before = out@;
        if current_color_at_exec(svg, i, &needle) {
            let mut k: usize = 0;
            while k < hex.len()
                invariant
                    out@ == before + hex@.take(k as int),
                    k <= hex@.len(),
                decreases hex@.len() - k,
            {
                proof {
                    assert(hex@.take(k + 1) =~= hex@.take(k as int).push(hex@[k as int]));
                }
                out.push(hex[k]);
                k += 1;
            }
            proof {
                assert(hex@.take(hex@.len() as int) =~= hex@);
                assert(before + (hex@ + painted_from(svg@, i + 12, hex@)) =~= (before + hex@)
                    + painted_from(svg@, i + 12, hex@));
            }
            i += 12;
        } else {
            proof {
                assert(before + (seq![svg@[i as int]] + painted_from(svg@, i + 1, hex@)) =~= before.push(
                    svg@[i as int],
                ) + painted_from(svg@, i + 1, hex@));
            }
            out.push(svg[i]);
            i += 1;
        }
    }
    proof {
        assert(out@ + Seq::<u8>::empty() =~= out@);
    }
    out
}

/// Where an entry's image comes from.
#[derive(Debug, PartialEq, Eq)]
pub enum IconEntrySource {
    File(String),
    Iconify(String),
    Url(String),
    Glyph(String),
}

impl Clone for IconEntrySource {
    fn clone(&self) -> (r: Self)
        ensures
            r == *self,
    {
        match self {
            IconEntrySource::File(p) => IconEntrySource::File(p.clone()),
            IconEntrySource::Iconify(id) => IconEntrySource::Iconify(id.clone()),
            IconEntrySource::Url(u) => IconEntrySource::Url(u.clone()),
            IconEntrySource::Glyph(g) => IconEntrySource::Glyph(g.clone()),
        }
    }
}

/// One icon of the manifest. Paths are absolute, `/`-separated strings.
#[derive(Debug)]
pub struct IconEntry {
    pub key: String,
    pub family: String,
    pub variant: Option<String>,
    pub size: Option<u16>,
    pub source: IconEntrySource,
    pub dynamic: bool,
    pub windows_ico: Option<String>,
    pub paint: Option<ThemePaint>,
    pub span: Range<usize>,
    pub file: String,
}

pub fn clone_opt_string(s: &Option<String>) -> (r: Option<String>)
    ensures
        r == *s,
{
    match s {
        Some(v) => Some(v.clone()),
        None => None,
    }
}

impl Clone for IconEntry {
    fn clone(&self) -> (r: Self)
        ensures
            r == *self,
    {
        IconEntry {
            key: self.key.clone(),
            family: self.family.clone(),
            variant: clone_opt_string(&self.variant),
            size: self.size,
            source: self.source.clone(),
            dynamic: self.dynamic,
            windows_ico: clone_opt_string(&self.windows_ico),
            paint: self.paint,
            span: Range { start: self.span.start, end: self.span.end },
            file: self.file.clone(),
        }
    }
}

/// The view of an optional string.
pub open spec fn opt_chars(s: Option<String>) -> Option<Seq<char>> {
    match s {
        Some(v) => Some(v@),
        None => None,
    }
}

pub open spec fn opt_str_chars(s: Option<&str>) -> Option<Seq<char>> {
    match s {
        Some(v) => Some(v@),
        None => None,
    }
}

impl IconEntry {
    pub fn key(&self) -> (r: &str)
        ensures
            r@ == self.key@,
    {
        self.key.as_str()
    }

    pub fn family(&self) -> (r: &str)
        ensures
            r@ == self.family@,
    {
        self.family.as_str()
    }

    pub fn variant(&self) -> (r: Option<&str>)
        ensures
            opt_str_chars(r) == opt_chars(self.variant),
    {
        match &self.variant {
            Some(v) => Some(v.as_str()),
            None => None,
        }
    }

    /// From a `[family.N]` numeric path segment, or inherited from
    /// `defaults.size` - not a separate manifest keyword.
    pub fn size(&self) -> (r: Option<u16>)
        ensures
            r == self.size,
    {
        self.size
    }

    pub fn source(&self) -> (r: &IconEntrySource)
        ensures
            *r == self.source,
    {
        &self.source
    }

    pub fn dynamic(&self) -> (r: bool)
        ensures
            r == self.dynamic,
    {
        self.dynamic
    }

    /// Per-theme colors for the icon's `currentColor`, resolved from the entry,
    /// its enclosing tables, its iconify provider and `[defaults]`, nearest first.
    pub fn paint(&self) -> (r: Option<ThemePaint>)
        ensures
            r == self.paint,
    {
        self.paint
    }

    pub fn windows_ico(&self) -> (r: Option<&str>)
        ensures
            opt_str_chars(r) == opt_chars(self.windows_ico),
    {
        match &self.windows_ico {
            Some(v) => Some(v.as_str()),
            None => None,
        }
    }

    /// Byte range of this entry's table in the manifest source; only
    /// meaningful together with [`Self::file`].
    pub fn span(&self) -> (r: Range<usize>)
        ensures
            r.start == self.span.start,
            r.end == self.span.end,
    {
        Range { start: self.span.start, end: self.span.end }
    }

    /// The manifest file this entry was declared in.
    pub fn file(&self) -> (r: &str)
        ensures
            r@ == self.file@,
    {
        self.file.as_str()
    }
}

/// The known variants/sizes for one icon provider, from `[providers.<name>]`.
#[derive(Debug)]
pub struct ProviderSchema {
    pub variants: Vec<String>,
    pub sizes: Vec<u16>,
    pub paint: Option<Paint>,
}

pub fn clone_strings(v: &Vec<String>) -> (r: Vec<String>)
    ensures
        r@ == v@,
{
    let mut r: Vec<String> = Vec::new();
    let mut i: usize = 0;
    while i < v.len()
        invariant
            i <= v@.len(),
            r@ == v@.take(i as int),
        decreases v@.len() - i,
    {
        proof {
            assert(v@.take(i + 1) =~= v@.take(i as int).push(v@[i as int]));
        }
        r.push(v[i].clone());
        i += 1;
    }
    proof {
        assert(v@.take(v@.len() as int) =~= v@);
    }
    r
}

pub fn clone_u16s(v: &Vec<u16>) -> (r: Vec<u16>)
    ensures
        r@ == v@,
{
    let mut r: Vec<u16> = Vec::new();
    let mut i: usize = 0;
    while i < v.len()
        invariant
            i <= v@.len(),
            r@ == v@.take(i as int),
        decreases v@.len() - i,
    {
        proof {
            assert(v@.take(i + 1) =~= v@.take(i as int).push(v@[i as int]));
        }
        r.push(v[i]);
        i += 1;
    }
    proof {
        assert(v@.take(v@.len() as int) =~= v@);
    }
    r
}

impl Clone for ProviderSchema {
    fn clone(&self) -> (r: Self)
        ensures
            r.variants@ == self.variants@,
            r.sizes@ == self.sizes@,
            r.paint == self.paint,
    {
        ProviderSchema {
            variants: clone_strings(&self.variants),
            sizes: clone_u16s(&self.sizes),
            paint: self.paint,
        }
    }
}

impl Default for ProviderSchema {
    fn default() -> (r: Self)
        ensures
            r.variants@.len() == 0,
            r.sizes@.len() == 0,
            r.paint is None,
    {
        ProviderSchema { variants: Vec::new(), sizes: Vec::new(), paint: None }
    }
}

/// A loaded manifest. Paths are absolute, `/`-separated strings; provider
/// names are unique.
#[derive(Debug)]
pub struct IconManifest {
    pub manifest_path: String,
    pub workspace_root: String,
    pub source_paths: Vec<String>,
    pub entries: Vec<IconEntry>,
    pub providers: Vec<(String, ProviderSchema)>,
    pub default_paint: Option<Paint>,
}

/// The first index of `s` whose item satisfies `p`.
pub open spec fn first_index<T>(s: Seq<T>, p: spec_fn(T) -> bool) -> Option<int>
    decreases s.len(),
{
    if s.len() == 0 {
        None
    } else if p(s[0]) {
        Some(0)
    } else {
        match first_index(s.skip(1), p) {
            Some(i) => Some(i + 1),
            None => None,
        }
    }
}

pub proof fn lemma_first_index<T>(s: Seq<T>, p: spec_fn(T) -> bool)
    ensures
        match first_index(s, p) {
            Some(i) => 0 <= i < s.len() && p(s[i]) && forall|j: int| 0 <= j < i ==> !p(#[trigger] s[j]),
            None => forall|j: int| 0 <= j < s.len() ==> !p(#[trigger] s[j]),
        },
    decreases s.len(),
{
    if s.len() > 0 && !p(s[0]) {
        lemma_first_index(s.skip(1), p);
        match first_index(s.skip(1), p) {
            Some(i) => {
                assert forall|j: int| 0 <= j < i + 1 implies !p(#[trigger] s[j]) by {
                    if j > 0 {
                        assert(s[j] == s.skip(1)[j - 1]);
                    }
                }
            },
            None => {
                assert forall|j: int| 0 <= j < s.len() implies !p(#[trigger] s[j]) by {
                    if j > 0 {
                        assert(s[j] == s.skip(1)[j - 1]);
                    }
                }
            },
        }
    }
}

/// A first index is the least index whose item satisfies `p`.
pub proof fn lemma_first_index_is<T>(s: Seq<T>, p: spec_fn(T) -> bool, i: int)
    requires
        0 <= i <= s.len(),
        forall|j: int| 0 <= j < i ==> !p(#[trigger] s[j]),
    ensures
        i < s.len() && p(s[i]) ==> first_index(s, p) == Some(i),
        i == s.len() ==> first_index(s, p) is None,
{
    lemma_first_index(s, p);
    match first_index(s, p) {
        Some(k) => {
            if k < i {
                assert(!p(s[k]));
            }
        },
        None => {},
    }
}

pub open spec fn has_key(key: Seq<char>) -> spec_fn(IconEntry) -> bool {
    |e: IconEntry| e.key@ == key
}

/// Whether an entry is the one of `family` at `size` and `variant`.
pub open spec fn is_family_variant(family: Seq<char>, size: Option<u16>, variant: Option<Seq<char>>) -> spec_fn(
    IconEntry,
) -> bool {
    |e: IconEntry| e.family@ == family && e.size == size && opt_chars(e.variant) == variant
}

pub open spec fn named(name: Seq<char>) -> spec_fn((String, ProviderSchema)) -> bool {
    |p: (String, ProviderSchema)| p.0@ == name
}

/// The paint an iconify id used outside any entry gets: its provider's
/// `paint`, then the manifest's default.
pub open spec fn iconify_paint(m: IconManifest, id: Seq<char>) -> Option<ThemePaint> {
    let from_provider = match find_char(id, ':') {
        Some(k) => match first_index(m.providers@, named(id.take(k))) {
            Some(i) => m.providers@[i].1.paint,
            None => None,
        },
        None => None,
    };
    let chosen = match from_provider {
        Some(p) => Some(p),
        None => m.default_paint,
    };
    match chosen {
        Some(p) => paint_colors(p),
        None => None,
    }
}

/// The index of the provider named `name`.
pub fn find_provider(providers: &Vec<(String, ProviderSchema)>, name: &String) -> (r: Option<usize>)
    ensures
        first_index(providers@, named(name@)) == (match r {
            Some(i) => Some(i as int),
            None => None,
        }),
        r matches Some(i) ==> i < providers@.len(),
{
    proof {
        lemma_first_index(providers@, named(name@));
    }
    let mut i: usize = 0;
    while i < providers.len()
        invariant
            i <= providers@.len(),
            forall|j: int| 0 <= j < i ==> !named(name@)(#[trigger] providers@[j]),
        decreases providers@.len() - i,
    {
        if providers[i].0 == *name {
            proof {
                lemma_first_index_is(providers@, named(name@), i as int);
            }
            return Some(i);
        }
        i += 1;
    }
    proof {
        lemma_first_index_is(providers@, named(name@), i as int);
    }
    None
}

/// Whether a path component is kept by `Path::components`: not empty, not `.`.
pub open spec fn real_component(c: Seq<char>) -> bool {
    c.len() > 0 && c != seq!['.']
}

/// The components of a `/`-separated path, without empty and `.` ones.
pub open spec fn components(p: Seq<char>) -> Seq<Seq<char>> {
    crate::text::split_on(p, seq!['/']).filter(|c: Seq<char>| real_component(c))
}

/// `Path::strip_prefix`: the rest of `path` after the components of `base`,
/// if `base` is a prefix of it component-wise (and both are absolute or
/// both relative), joined with `/`.
pub open spec fn strip_path_prefix(path: Seq<char>, base: Seq<char>) -> Option<Seq<char>> {
    let pc = components(path);
    let bc = components(base);
    if crate::paths::is_absolute(path) == crate::paths::is_absolute(base) && bc.len() <= pc.len() && pc.take(
        bc.len() as int,
    ) == bc {
        Some(crate::text::join(pc.skip(bc.len() as int), seq!['/']))
    } else {
        None
    }
}

/// `\` turned into `/`, and a leading `//?/` dropped.
pub open spec fn normalize_slashes(p: Seq<char>) -> Seq<char> {
    let r = crate::text::replace_char(p, '\\', '/');
    if r.len() >= 4 && r.take(4) == seq!['/', '/', '?', '/'] {
        r.skip(4)
    } else {
        r
    }
}

/// How the manifest shows `path`: relative to the workspace root, else to
/// the manifest's own directory, else as it is; always `/`-separated.
pub open spec fn displayed_path(m: IconManifest, path: Seq<char>) -> Seq<char> {
    match strip_path_prefix(path, m.workspace_root@) {
        Some(rel) => normalize_slashes(rel),
        None => match crate::slint::parent_of(m.manifest_path@) {
            Some(dir) => match strip_path_prefix(path, dir) {
                Some(rel) => normalize_slashes(rel),
                None => normalize_slashes(path),
            },
            None => normalize_slashes(path),
        },
    }
}

pub(crate) fn components_exec(p: &str) -> (r: Vec<Vec<char>>)
    ensures
        r@.map_values(|c: Vec<char>| c@) == components(p@),
{
    let c = chars_of(p);
    let mut slash: Vec<char> = Vec::new();
    slash.push('/');
    let parts = crate::text::split_on_exec(c.as_slice(), slash.as_slice());
    let ghost pv = crate::text::split_on(p@, seq!['/']);
    proof {
        assert(slash@ =~= seq!['/']);
    }
    let mut out: Vec<Vec<char>> = Vec::new();
    let mut i: usize = 0;
    proof {
        reveal(Seq::filter);
        assert(pv.take(0) =~= Seq::<Seq<char>>::empty());
        assert(out@.map_values(|c: Vec<char>| c@) =~= pv.take(0).filter(|c: Seq<char>| real_component(c)));
    }
    while i < parts.len()
        invariant
            pv == crate::text::split_on(p@, seq!['/']),
            parts@.len() == pv.len(),
            forall|k: int| 0 <= k < parts@.len() ==> (#[trigger] parts@[k])@ == pv[k],
            i <= parts@.len(),
            out@.map_values(|c: Vec<char>| c@) == pv.take(i as int).filter(|c: Seq<char>| real_component(c)),
        decreases parts@.len() - i,
    {
        proof {
            reveal(Seq::filter);
            assert(pv.take(i + 1).drop_last() =~= pv.take(i as int));
            assert(pv.take(i + 1).last() == pv[i as int]);
        }
        let part = &parts[i];
        let keep = part.len() > 0 && !(part.len() == 1 && part[0] == '.');
        proof {
            if part@.len() == 1 && part@[0] == '.' {
                assert(part@ =~= seq!['.']);
            }
            if part@ == seq!['.'] {
                assert(part@.len() == 1 && part@[0] == '.');
            }
            assert(keep == real_component(pv[i as int]));
        }
        if keep {
            let ghost prev = out@;
            out.push(crate::text::slice_vec(part.as_slice(), 0, part.len()));
            proof {
                assert(part@.subrange(0, part@.len() as int) =~= part@);
                assert(out@.map_values(|c: Vec<char>| c@) =~= prev.map_values(|c: Vec<char>| c@).push(pv[i as int]));
            }
        }
        i += 1;
    }
    proof {
        assert(pv.take(parts@.len() as int) =~= pv);
    }
    out
}

/// `Path::strip_prefix`, component-wise, the rest joined with `/`.
pub fn strip_path_prefix_exec(path: &str, base: &str) -> (r: Option<String>)
    ensures
        match r {
            Some(s) => strip_path_prefix(path@, base@) == Some(s@),
            None => strip_path_prefix(path@, base@) is None,
        },
{
    let pc = components_exec(path);
    let bc = components_exec(base);
    let ghost pv = pc@.map_values(|c: Vec<char>| c@);
    let ghost bv = bc@.map_values(|c: Vec<char>| c@);
    let pchars = chars_of(path);
    let bchars = chars_of(base);
    let p_abs = pchars.len() > 0 && pchars[0] == '/';
    let b_abs = bchars.len() > 0 && bchars[0] == '/';
    proof {
        assert(pv.len() == pc@.len());
        assert(bv.len() == bc@.len());
        assert(pv == components(path@));
        assert(bv == components(base@));
        assert(p_abs == crate::paths::is_absolute(path@));
        assert(b_abs == crate::paths::is_absolute(base@));
    }
    if p_abs != b_abs || bc.len() > pc.len() {
        proof {
            assert(!(crate::paths::is_absolute(path@) == crate::paths::is_absolute(base@) && bv.len() <= pv.len()));
        }
        return None;
    }
    let mut i: usize = 0;
    while i < bc.len()
        invariant
            pv == pc@.map_values(|c: Vec<char>| c@),
            bv == bc@.map_values(|c: Vec<char>| c@),
            pv == components(path@),
            bv == components(base@),
            bc@.len() <= pc@.len(),
            i <= bc@.len(),
            forall|k: int| 0 <= k < i ==> pv[k] == bv[k],
        decreases bc@.len() - i,
    {
        if !crate::text::chars_eq(pc[i].as_slice(), bc[i].as_slice()) {
            proof {
                assert(pv.take(bv.len() as int)[i as int] != bv[i as int]);
            }
            return None;
        }
        i += 1;
    }
    proof {
        assert(pv.take(bv.len() as int) =~= bv);
    }
    let mut rest: Vec<Vec<char>> = Vec::new();
    let mut k = bc.len();
    while k < pc.len()
        invariant
            pv == pc@.map_values(|c: Vec<char>| c@),
            bc@.len() <= k <= pc@.len(),
            rest@.len() == k - bc@.len(),
            forall|j: int| 0 <= j < rest@.len() ==> (#[trigger] rest@[j])@ == pv[bc@.len() + j],
        decreases pc@.len() - k,
    {
        rest.push(crate::text::slice_vec(pc[k].as_slice(), 0, pc[k].len()));
        proof {
            assert(pc@[k as int]@.subrange(0, pc@[k as int]@.len() as int) =~= pc@[k as int]@);
        }
        k += 1;
    }
    let mut slash: Vec<char> = Vec::new();
    slash.push('/');
    let joined = crate::text::join_exec(&rest, slash.as_slice());
    proof {
        assert(slash@ =~= seq!['/']);
        assert(rest@.map_values(|c: Vec<char>| c@) =~= pv.skip(bv.len() as int));
    }
    Some(string_of(joined.as_slice()))
}

/// `\` turned into `/`, and a leading `//?/` dropped.
pub fn normalize_slashes_exec(p: &str) -> (r: String)
    ensures
        r@ == normalize_slashes(p@),
{
    let c = chars_of(p);
    let r = crate::text::replace_char_exec(c.as_slice(), '\\', '/');
    if r.len() >= 4 && r[0] == '/' && r[1] == '/' && r[2] == '?' && r[3] == '/' {
        proof {
            assert(r@.take(4) =~= seq!['/', '/', '?', '/']);
        }
        return string_of(crate::text::slice_vec(r.as_slice(), 4, r.len()).as_slice());
    }
    proof {
        if r@.len() >= 4 && r@.take(4) == seq!['/', '/', '?', '/'] {
            assert(r@[0] == r@.take(4)[0]);
            assert(r@[1] == r@.take(4)[1]);
            assert(r@[2] == r@.take(4)[2]);
            assert(r@[3] == r@.take(4)[3]);
        }
    }
    string_of(r.as_slice())
}

impl IconManifest {
    pub fn entries(&self) -> (r: &[IconEntry])
        ensures
            r@ == self.entries@,
    {
        self.entries.as_slice()
    }

    pub fn manifest_path(&self) -> (r: &str)
        ensures
            r@ == self.manifest_path@,
    {
        self.manifest_path.as_str()
    }

    pub fn workspace_root(&self) -> (r: &str)
        ensures
            r@ == self.workspace_root@,
    {
        self.workspace_root.as_str()
    }

    pub fn source_paths(&self) -> (r: &[String])
        ensures
            r@ == self.source_paths@,
    {
        self.source_paths.as_slice()
    }

    /// The first entry whose key is `key`.
    pub fn entry_for_key(&self, key: &str) -> (r: Option<&IconEntry>)
        ensures
            r == (match first_index(self.entries@, has_key(key@)) {
                Some(i) => Some(&self.entries@[i]),
                None => None,
            }),
    {
        let wanted = key.to_owned();
        let mut i: usize = 0;
        while i < self.entries.len()
            invariant
                wanted@ == key@,
                i <= self.entries@.len(),
                forall|j: int| 0 <= j < i ==> !has_key(key@)(#[trigger] self.entries@[j]),
            decreases self.entries@.len() - i,
        {
            if self.entries[i].key == wanted {
                proof {
                    lemma_first_index_is(self.entries@, has_key(key@), i as int);
                }
                return Some(&self.entries[i]);
            }
            i += 1;
        }
        proof {
            lemma_first_index_is(self.entries@, has_key(key@), i as int);
        }
        None
    }

    /// The first entry of `family` at `size` and `variant`.
    pub fn entry_for_family_variant(&self, family: &str, size: Option<u16>, variant: Option<&str>) -> (r: Option<
        &IconEntry,
    >)
        ensures
            r == (match first_index(self.entries@, is_family_variant(family@, size, opt_str_chars(variant))) {
                Some(i) => Some(&self.entries@[i]),
                None => None,
            }),
    {
        let ghost p = is_family_variant(family@, size, opt_str_chars(variant));
        let wanted_family = family.to_owned();
        let wanted_variant: Option<String> = match variant {
            Some(v) => Some(v.to_owned()),
            None => None,
        };
        let mut i: usize = 0;
        while i < self.entries.len()
            invariant
                wanted_family@ == family@,
                opt_chars(wanted_variant) == opt_str_chars(variant),
                p == is_family_variant(family@, size, opt_str_chars(variant)),
                i <= self.entries@.len(),
                forall|j: int| 0 <= j < i ==> !p(#[trigger] self.entries@[j]),
            decreases self.entries@.len() - i,
        {
            let e = &self.entries[i];
            let same_variant = match (&e.variant, &wanted_variant) {
                (Some(a), Some(b)) => *a == *b,
                (None, None) => true,
                _ => false,
            };
            if e.family == wanted_family && e.size == size && same_variant {
                proof {
                    lemma_first_index_is(self.entries@, p, i as int);
                }
                return Some(e);
            }
            i += 1;
        }
        proof {
            lemma_first_index_is(self.entries@, p, i as int);
        }
        None
    }

    fn provider_position(&self, name: &String) -> (r: Option<usize>)
        ensures
            first_index(self.providers@, named(name@)) == (match r {
                Some(i) => Some(i as int),
                None => None,
            }),
            r matches Some(i) ==> i < self.providers@.len(),
    {
        find_provider(&self.providers, name)
    }

    /// The schema of the provider named `name`.
    pub fn provider(&self, name: &str) -> (r: Option<&ProviderSchema>)
        ensures
            r == (match first_index(self.providers@, named(name@)) {
                Some(i) => Some(&self.providers@[i].1),
                None => None,
            }),
    {
        let wanted = name.to_owned();
        proof {
            lemma_first_index(self.providers@, named(name@));
        }
        match self.provider_position(&wanted) {
            Some(i) => Some(&self.providers[i].1),
            None => None,
        }
    }

    /// The names of the declared and built-in providers.
    pub fn provider_names(&self) -> (r: Vec<String>)
        ensures
            r@.len() == self.providers@.len(),
            forall|i: int| 0 <= i < r@.len() ==> #[trigger] r@[i] == self.providers@[i].0,
    {
        let mut r: Vec<String> = Vec::new();
        let mut i: usize = 0;
        while i < self.providers.len()
            invariant
                i <= self.providers@.len(),
                r@.len() == i,
                forall|j: int| 0 <= j < i ==> #[trigger] r@[j] == self.providers@[j].0,
            decreases self.providers@.len() - i,
        {
            r.push(self.providers[i].0.clone());
            i += 1;
        }
        r
    }

    /// Renders `path` for display: relative to the workspace root or the
    /// manifest's own directory when possible, else as it is; always
    /// forward-slashed.
    pub fn display_path(&self, path: &str) -> (r: String)
        ensures
            r@ == displayed_path(*self, path@),
    {
        if let Some(rel) = strip_path_prefix_exec(path, self.workspace_root.as_str()) {
            return normalize_slashes_exec(rel.as_str());
        }
        let m = chars_of(self.manifest_path.as_str());
        if !(m.len() == 0 || (m.len() == 1 && m[0] == '/')) {
            proof {
                if self.manifest_path@ == seq!['/'] {
                    assert(m@.len() == 1 && m@[0] == '/');
                }
            }
            let dir = crate::load::dir_of_exec(self.manifest_path.as_str());
            if let Some(rel) = strip_path_prefix_exec(path, dir.as_str()) {
                return normalize_slashes_exec(rel.as_str());
            }
        } else {
            proof {
                if m@.len() == 1 {
                    assert(self.manifest_path@ =~= seq!['/']);
                }
            }
        }
        normalize_slashes_exec(path)
    }

    /// Paint for an iconify id used outside any entry (`icon!("mdi:home")`):
    /// the provider's `paint`, then the root manifest's `[defaults]`.
    pub fn paint_for_iconify(&self, id: &str) -> (r: Option<ThemePaint>)
        ensures
            r == iconify_paint(*self, id@),
    {
        let chars = chars_of(id);
        let from_provider: Option<Paint> = match find_char_exec(chars.as_slice(), ':') {
            Some(k) => {
                let prefix = slice_vec(chars.as_slice(), 0, k);
                proof {
                    assert(prefix@ == id@.take(k as int));
                }
                let name = string_of(prefix.as_slice());
                proof {
                    lemma_first_index(self.providers@, named(name@));
                }
                match self.provider_position(&name) {
                    Some(i) => self.providers[i].1.paint,
                    None => None,
                }
            },
            None => None,
        };
        let chosen = match from_provider {
            Some(p) => Some(p),
            None => self.default_paint,
        };
        match chosen {
            Some(p) => p.colors(),
            None => None,
        }
    }
}

impl ThemePaint {
    /// The same color for every theme.
    pub fn uniform(color: PaintColor) -> (r: Self)
        ensures
            r.light == color,
            r.dark == color,
    {
        ThemePaint { light: color, dark: color }
    }
}

impl PaintColor {
    /// Parses `#rgb` or `#rrggbb`.
    pub fn parse(value: &str) -> (r: Result<Self, String>)
        ensures
            match r {
                Ok(c) => parsed_color(value@) == Some(c),
                Err(m) => parsed_color(value@) is None && m@ == color_error(value@),
            },
    {
        let s = chars_of(value);
        let n = s.len();
        let mut ok = n >= 1 && s[0] == '#';
        let mut i: usize = if n >= 1 { 1 } else { 0 };
        while i < n
            invariant
                s@ == value@,
                n == s@.len(),
                i <= n,
                ok ==> n >= 1 && s@[0] == '#' && 1 <= i,
                ok ==> forall|j: int| 1 <= j < i ==> is_hex_digit(#[trigger] s@[j]),
                !ok ==> parsed_color(value@) is None,
            decreases n - i,
        {
            if ok && !is_hex_digit_exec(s[i]) {
                proof {
                    assert(!is_hex_digit(s@.skip(1)[i - 1]));
                }
                ok = false;
            }
            i += 1;
        }
        if ok {
            assert(all_hex(s@.skip(1)));
            if n == 4 {
                return Ok(PaintColor {
                    r: hex_value_exec(s[1]) * 17,
                    g: hex_value_exec(s[2]) * 17,
                    b: hex_value_exec(s[3]) * 17,
                });
            } else if n == 7 {
                return Ok(PaintColor {
                    r: hex_value_exec(s[1]) * 16 + hex_value_exec(s[2]),
                    g: hex_value_exec(s[3]) * 16 + hex_value_exec(s[4]),
                    b: hex_value_exec(s[5]) * 16 + hex_value_exec(s[6]),
                });
            }
        }
        let mut msg: Vec<char> = Vec::new();
        push_str(&mut msg, "`paint` colors must be `#rgb`/`#rrggbb`, got `");
        push_all(&mut msg, s.as_slice());
        push_str(&mut msg, "`");
        Err(string_of(msg.as_slice()))
    }

    /// `#rrggbb`, lowercase.
    pub fn to_hex(self) -> (r: String)
        ensures
            r@ == color_hex(self),
    {
        let bytes = color_hex_bytes_exec(self);
        let mut out: Vec<char> = Vec::new();
        let mut i: usize = 0;
        while i < bytes.len()
            invariant
                bytes@ == color_hex_bytes(self),
                forall|k: int| 0 <= k < bytes@.len() ==> #[trigger] bytes@[k] < 128,
                i <= bytes@.len(),
                out@ == color_hex(self).take(i as int),
            decreases bytes@.len() - i,
        {
            let c = char_from_ascii(bytes[i]);
            proof {
                assert(color_hex(self).take(i + 1) =~= color_hex(self).take(i as int).push(c));
            }
            out.push(c);
            i += 1;
        }
        proof {
            assert(color_hex(self).take(7) =~= color_hex(self));
        }
        string_of(out.as_slice())
    }
}

impl Paint {
    /// The string form: `"none"` or one color for every theme.
    pub fn parse(value: &str) -> (r: Result<Self, String>)
        ensures
            match r {
                Ok(p) => parsed_paint(value@) == Some(p),
                Err(m) => parsed_paint(value@) is None && m@ == paint_error(value@),
            },
    {
        let s = chars_of(value);
        let none = chars_of("none");
        if chars_eq(s.as_slice(), none.as_slice()) {
            return Ok(Paint::NoPaint);
        }
        match PaintColor::parse(value) {
            Ok(color) => Ok(Paint::Colors(ThemePaint::uniform(color))),
            Err(_) => {
                let mut msg: Vec<char> = Vec::new();
                push_str(
                    &mut msg,
                    "`paint` must be `\"none\"`, a `#rgb`/`#rrggbb` color, or `{ light = ..., dark = ... }`, got `",
                );
                push_all(&mut msg, s.as_slice());
                push_str(&mut msg, "`");
                Err(string_of(msg.as_slice()))
            },
        }
    }

    /// The per-theme colors, or `None` for `"none"`.
    pub fn colors(self) -> (r: Option<ThemePaint>)
        ensures
            r == paint_colors(self),
    {
        match self {
            Paint::NoPaint => None,
            Paint::Colors(colors) => Some(colors),
        }
    }
}

} // verus!
