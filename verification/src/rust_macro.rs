//! Finds `icon!`/`icon_key!`/`icon_data!` call sites in Rust source text
//! with a small lexical scanner: it tracks string and (nested) comment
//! boundaries and delimiter depth, so a call-shaped string or comment is
//! never mistaken for a real call, and text that does not compile yet is
//! still scanned.
//!
//! Positions in the specification are character indices into `text@`;
//! the byte offsets a caller sees are `utf8_len` of the preceding text.

use crate::text::{
    byte_offsets, chars_eq, chars_of, is_alnum, is_alnum_exec, is_alpha, is_alpha_exec, is_ws, is_ws_exec,
    slice_vec, starts_at, starts_at_exec, string_of, utf8_len,
};
use std::ops::Range;
use vstd::prelude::*;

verus! {

/// Which of the three guicons macros a call site invokes.
#[derive(Clone, Copy, Debug, PartialEq, Eq, Structural)]
pub enum MacroKind {
    Icon,
    IconKey,
    IconData,
}

/// A located call: which macro, and the text and byte range of its
/// argument token tree, delimiters excluded.
#[derive(Debug, PartialEq, Eq)]
pub struct MacroCallSite {
    pub kind: MacroKind,
    pub arg_text: String,
    pub arg_range: Range<usize>,
}

impl Clone for MacroCallSite {
    fn clone(&self) -> (r: Self)
        ensures
            r == *self,
    {
        MacroCallSite {
            kind: self.kind,
            arg_text: self.arg_text.clone(),
            arg_range: Range { start: self.arg_range.start, end: self.arg_range.end },
        }
    }
}

/// The macro a name invokes, if it is one of ours.
pub open spec fn kind_of(name: Seq<char>) -> Option<MacroKind> {
    if name == seq!['i', 'c', 'o', 'n'] {
        Some(MacroKind::Icon)
    } else if name == seq!['i', 'c', 'o', 'n', '_', 'k', 'e', 'y'] {
        Some(MacroKind::IconKey)
    } else if name == seq!['i', 'c', 'o', 'n', '_', 'd', 'a', 't', 'a'] {
        Some(MacroKind::IconData)
    } else {
        None
    }
}

pub open spec fn is_ident_start(c: char) -> bool {
    c == '_' || is_alpha(c)
}

pub open spec fn is_ident_continue(c: char) -> bool {
    c == '_' || is_alnum(c)
}

pub open spec fn is_open(c: char) -> bool {
    c == '(' || c == '[' || c == '{'
}

pub open spec fn close_of(c: char) -> char {
    if c == '(' {
        ')'
    } else if c == '[' {
        ']'
    } else {
        '}'
    }
}

/// Position just past the first `\n` at or after `i` (or the end).
pub open spec fn line_end(t: Seq<char>, i: int) -> int
    decreases t.len() - i,
{
    if i >= t.len() {
        t.len() as int
    } else if t[i] == '\n' {
        i + 1
    } else {
        line_end(t, i + 1)
    }
}

/// Position just past a block comment whose body starts at `i`, with
/// `depth` comments still open (comments nest, as in Rust).
pub open spec fn block_end(t: Seq<char>, i: int, depth: nat) -> int
    decreases t.len() - i,
{
    if i >= t.len() || depth == 0 || i < 0 {
        i
    } else if starts_at(t, i, seq!['/', '*']) {
        block_end(t, i + 2, depth + 1)
    } else if starts_at(t, i, seq!['*', '/']) {
        block_end(t, i + 2, (depth - 1) as nat)
    } else {
        block_end(t, i + 1, depth)
    }
}

/// Position just past a string literal whose body starts at `i`; a
/// backslash escapes the character after it.
pub open spec fn string_end(t: Seq<char>, i: int) -> int
    decreases t.len() - i,
{
    if i >= t.len() || i < 0 {
        i
    } else if t[i] == '\\' {
        if i + 1 >= t.len() {
            i + 1
        } else {
            string_end(t, i + 2)
        }
    } else if t[i] == '"' {
        i + 1
    } else {
        string_end(t, i + 1)
    }
}

/// First position at or after `i` that does not continue an identifier.
pub open spec fn ident_end(t: Seq<char>, i: int) -> int
    decreases t.len() - i,
{
    if i >= t.len() || i < 0 || !is_ident_continue(t[i]) {
        i
    } else {
        ident_end(t, i + 1)
    }
}

/// First position at or after `i` that is not whitespace.
pub open spec fn ws_end(t: Seq<char>, i: int) -> int
    decreases t.len() - i,
{
    if i >= t.len() || i < 0 || !is_ws(t[i]) {
        i
    } else {
        ws_end(t, i + 1)
    }
}

pub open spec fn line_comment_at(t: Seq<char>, i: int) -> bool {
    starts_at(t, i, seq!['/', '/'])
}

pub open spec fn block_comment_at(t: Seq<char>, i: int) -> bool {
    starts_at(t, i, seq!['/', '*'])
}

pub proof fn lemma_line_end(t: Seq<char>, i: int)
    requires
        0 <= i,
    ensures
        i <= line_end(t, i) <= t.len() || (i > t.len() && line_end(t, i) == t.len()),
        i < t.len() ==> i < line_end(t, i) <= t.len(),
    decreases t.len() - i,
{
    if i < t.len() && t[i] != '\n' {
        lemma_line_end(t, i + 1);
    }
}

pub proof fn lemma_block_end(t: Seq<char>, i: int, depth: nat)
    requires
        0 <= i <= t.len(),
    ensures
        i <= block_end(t, i, depth) <= t.len(),
    decreases t.len() - i,
{
    if i >= t.len() || depth == 0 {
    } else if starts_at(t, i, seq!['/', '*']) {
        lemma_block_end(t, i + 2, depth + 1);
    } else if starts_at(t, i, seq!['*', '/']) {
        lemma_block_end(t, i + 2, (depth - 1) as nat);
    } else {
        lemma_block_end(t, i + 1, depth);
    }
}

pub proof fn lemma_string_end(t: Seq<char>, i: int)
    requires
        0 <= i <= t.len(),
    ensures
        i <= string_end(t, i) <= t.len(),
    decreases t.len() - i,
{
    if i >= t.len() {
    } else if t[i] == '\\' {
        if i + 1 < t.len() {
            lemma_string_end(t, i + 2);
        }
    } else if t[i] == '"' {
    } else {
        lemma_string_end(t, i + 1);
    }
}

pub proof fn lemma_ident_end(t: Seq<char>, i: int)
    requires
        0 <= i <= t.len(),
    ensures
        i <= ident_end(t, i) <= t.len(),
    decreases t.len() - i,
{
    if i < t.len() && is_ident_continue(t[i]) {
        lemma_ident_end(t, i + 1);
    }
}

pub proof fn lemma_ws_end(t: Seq<char>, i: int)
    requires
        0 <= i <= t.len(),
    ensures
        i <= ws_end(t, i) <= t.len(),
    decreases t.len() - i,
{
    if i < t.len() && is_ws(t[i]) {
        lemma_ws_end(t, i + 1);
    }
}

/// Position of the delimiter `close` that balances the `open` already
/// consumed, scanning from `i` with `depth` delimiters of the same kind
/// open; strings and comments are skipped. `None` if the text ends first.
pub open spec fn find_close(t: Seq<char>, i: int, open: char, close: char, depth: nat) -> Option<int>
    decreases t.len() - i,
{
    if i >= t.len() || i < 0 {
        None
    } else if line_comment_at(t, i) {
        let j = line_end(t, i);
        if i < j <= t.len() {
            find_close(t, j, open, close, depth)
        } else {
            None
        }
    } else if block_comment_at(t, i) {
        let j = block_end(t, i + 2, 1);
        if i < j <= t.len() {
            find_close(t, j, open, close, depth)
        } else {
            None
        }
    } else if t[i] == '"' {
        let j = string_end(t, i + 1);
        if i < j <= t.len() {
            find_close(t, j, open, close, depth)
        } else {
            None
        }
    } else if t[i] == open {
        find_close(t, i + 1, open, close, depth + 1)
    } else if t[i] == close {
        if depth <= 1 {
            Some(i)
        } else {
            find_close(t, i + 1, open, close, (depth - 1) as nat)
        }
    } else {
        find_close(t, i + 1, open, close, depth)
    }
}

/// A call site in character positions: the macro, and the start and end
/// of its argument text.
pub type SiteSpec = (MacroKind, int, int);

/// The call sites, in source order, found by scanning `t` from `i`.
pub open spec fn scan(t: Seq<char>, i: int) -> Seq<SiteSpec>
    decreases t.len() - i,
{
    if i >= t.len() || i < 0 {
        seq![]
    } else if line_comment_at(t, i) {
        let j = line_end(t, i);
        if i < j <= t.len() {
            scan(t, j)
        } else {
            seq![]
        }
    } else if block_comment_at(t, i) {
        let j = block_end(t, i + 2, 1);
        if i < j <= t.len() {
            scan(t, j)
        } else {
            seq![]
        }
    } else if t[i] == '"' {
        let j = string_end(t, i + 1);
        if i < j <= t.len() {
            scan(t, j)
        } else {
            seq![]
        }
    } else if is_ident_start(t[i]) {
        let e = ident_end(t, i + 1);
        if e <= i || e > t.len() {
            seq![]
        } else {
            match call_after(t, i, e) {
                Some(site) => if i <= site.2 < t.len() {
                    seq![site] + scan(t, site.2 + 1)
                } else {
                    seq![]
                },
                None => scan(t, e),
            }
        }
    } else {
        scan(t, i + 1)
    }
}

/// The call site whose name is `t[i..e]`, if `t[e..]` continues it with
/// optional whitespace, `!`, optional whitespace, an opening delimiter and
/// (eventually) its balancing close.
pub open spec fn call_after(t: Seq<char>, i: int, e: int) -> Option<SiteSpec> {
    let b = ws_end(t, e);
    if 0 <= b < t.len() && t[b] == '!' {
        let a = ws_end(t, b + 1);
        if 0 <= a < t.len() && is_open(t[a]) {
            match kind_of(t.subrange(i, e)) {
                Some(kind) => match find_close(t, a + 1, t[a], close_of(t[a]), 1) {
                    Some(c) => Some((kind, a + 1, c)),
                    None => None,
                },
                None => None,
            }
        } else {
            None
        }
    } else {
        None
    }
}

/// The exec view of a character-position site over `t`.
pub open spec fn site_matches(site: MacroCallSite, t: Seq<char>, s: SiteSpec) -> bool {
    &&& site.kind == s.0
    &&& site.arg_text@ == t.subrange(s.1, s.2)
    &&& site.arg_range.start == utf8_len(t.take(s.1))
    &&& site.arg_range.end == utf8_len(t.take(s.2))
}

/// `sites` are exactly the scanned call sites of `t`, in order.
pub open spec fn sites_match(sites: Seq<MacroCallSite>, t: Seq<char>, spec_sites: Seq<SiteSpec>) -> bool {
    &&& sites.len() == spec_sites.len()
    &&& forall|k: int| 0 <= k < sites.len() ==> site_matches(#[trigger] sites[k], t, spec_sites[k])
}

pub proof fn lemma_find_close(t: Seq<char>, i: int, open: char, close: char, depth: nat)
    requires
        0 <= i,
    ensures
        find_close(t, i, open, close, depth) matches Some(c) ==> i <= c < t.len() && t[c] == close,
    decreases t.len() - i,
{
    if i >= t.len() {
    } else if line_comment_at(t, i) {
        let j = line_end(t, i);
        if i < j <= t.len() {
            lemma_find_close(t, j, open, close, depth);
        }
    } else if block_comment_at(t, i) {
        let j = block_end(t, i + 2, 1);
        if i < j <= t.len() {
            lemma_find_close(t, j, open, close, depth);
        }
    } else if t[i] == '"' {
        let j = string_end(t, i + 1);
        if i < j <= t.len() {
            lemma_find_close(t, j, open, close, depth);
        }
    } else if t[i] == open {
        lemma_find_close(t, i + 1, open, close, depth + 1);
    } else if t[i] == close {
        if depth > 1 {
            lemma_find_close(t, i + 1, open, close, (depth - 1) as nat);
        }
    } else {
        lemma_find_close(t, i + 1, open, close, depth);
    }
}

// ---------------------------------------------------------------------------
// Executable scanner

fn from_name(name: &[char]) -> (r: Option<MacroKind>)
    ensures
        r == kind_of(name@),
{
    let icon = ['i', 'c', 'o', 'n'];
    let icon_key = ['i', 'c', 'o', 'n', '_', 'k', 'e', 'y'];
    let icon_data = ['i', 'c', 'o', 'n', '_', 'd', 'a', 't', 'a'];
    proof {
        assert(icon@ =~= seq!['i', 'c', 'o', 'n']);
        assert(icon_key@ =~= seq!['i', 'c', 'o', 'n', '_', 'k', 'e', 'y']);
        assert(icon_data@ =~= seq!['i', 'c', 'o', 'n', '_', 'd', 'a', 't', 'a']);
    }
    if chars_eq(name, icon.as_slice()) {
        Some(MacroKind::Icon)
    } else if chars_eq(name, icon_key.as_slice()) {
        Some(MacroKind::IconKey)
    } else if chars_eq(name, icon_data.as_slice()) {
        Some(MacroKind::IconData)
    } else {
        None
    }
}

fn is_ident_start_exec(c: char) -> (r: bool)
    ensures
        r == is_ident_start(c),
{
    c == '_' || is_alpha_exec(c)
}

fn is_ident_continue_exec(c: char) -> (r: bool)
    ensures
        r == is_ident_continue(c),
{
    c == '_' || is_alnum_exec(c)
}

fn two_at(t: &[char], i: usize, a: char, b: char) -> (r: bool)
    ensures
        r == starts_at(t@, i as int, seq![a, b]),
{
    let p = [a, b];
    proof {
        assert(p@ =~= seq![a, b]);
    }
    starts_at_exec(t, i, p.as_slice())
}

fn scan_ident_end(t: &[char], start: usize) -> (r: usize)
    requires
        start <= t@.len(),
    ensures
        r == ident_end(t@, start as int),
{
    let mut i = start;
    while i < t.len() && is_ident_continue_exec(t[i])
        invariant
            start <= i <= t@.len(),
            ident_end(t@, i as int) == ident_end(t@, start as int),
        decreases t@.len() - i,
    {
        i += 1;
    }
    i
}

fn skip_whitespace(t: &[char], start: usize) -> (r: usize)
    requires
        start <= t@.len(),
    ensures
        r == ws_end(t@, start as int),
{
    let mut i = start;
    while i < t.len() && is_ws_exec(t[i])
        invariant
            start <= i <= t@.len(),
            ws_end(t@, i as int) == ws_end(t@, start as int),
        decreases t@.len() - i,
    {
        i += 1;
    }
    i
}

fn skip_line_comment(t: &[char], start: usize) -> (r: usize)
    requires
        start <= t@.len(),
    ensures
        r == line_end(t@, start as int),
{
    let mut i = start;
    while i < t.len()
        invariant
            start <= i <= t@.len(),
            line_end(t@, i as int) == line_end(t@, start as int),
        decreases t@.len() - i,
    {
        if t[i] == '\n' {
            return i + 1;
        }
        i += 1;
    }
    i
}

/// `body` is just past the opening `/*`.
fn skip_block_comment(t: &[char], body: usize) -> (r: usize)
    requires
        body <= t@.len(),
    ensures
        r == block_end(t@, body as int, 1),
{
    let mut depth: usize = 1;
    let mut i = body;
    while i < t.len() && depth > 0
        invariant
            body <= i <= t@.len(),
            depth <= i - body + 1,
            block_end(t@, i as int, depth as nat) == block_end(t@, body as int, 1),
        decreases t@.len() - i,
    {
        if two_at(t, i, '/', '*') {
            depth += 1;
            i += 2;
        } else if two_at(t, i, '*', '/') {
            depth -= 1;
            i += 2;
        } else {
            i += 1;
        }
    }
    i
}

/// `body` is just past the opening `"`.
fn skip_string(t: &[char], body: usize) -> (r: usize)
    requires
        body <= t@.len(),
    ensures
        r == string_end(t@, body as int),
{
    let mut i = body;
    while i < t.len()
        invariant
            body <= i <= t@.len(),
            string_end(t@, i as int) == string_end(t@, body as int),
        decreases t@.len() - i,
    {
        if t[i] == '\\' {
            if i + 1 >= t.len() {
                return i + 1;
            }
            i += 2;
        } else if t[i] == '"' {
            return i + 1;
        } else {
            i += 1;
        }
    }
    i
}

/// `t[open_at]` is an opening delimiter.
fn find_matching_close(t: &[char], open_at: usize) -> (r: Option<usize>)
    requires
        open_at < t@.len(),
        is_open(t@[open_at as int]),
    ensures
        r matches Some(c) ==> find_close(t@, open_at + 1, t@[open_at as int], close_of(t@[open_at as int]), 1) == Some(c as int),
        r is None ==> find_close(t@, open_at + 1, t@[open_at as int], close_of(t@[open_at as int]), 1) is None,
{
    let open = t[open_at];
    let close = if open == '(' {
        ')'
    } else if open == '[' {
        ']'
    } else {
        '}'
    };
    assert(close == close_of(open));
    let ghost target = find_close(t@, open_at + 1, open, close, 1);
    assert(target == find_close(t@, open_at + 1, t@[open_at as int], close_of(t@[open_at as int]), 1));
    let mut depth: usize = 1;
    let mut i = open_at + 1;
    while i < t.len()
        invariant
            open_at < i <= t@.len(),
            1 <= depth <= i - open_at,
            find_close(t@, i as int, open, close, depth as nat) == target,
            target == find_close(t@, open_at + 1, t@[open_at as int], close_of(t@[open_at as int]), 1),
            open == t@[open_at as int],
            close == close_of(open),
            open != close,
        decreases t@.len() - i,
    {
        if two_at(t, i, '/', '/') {
            proof {
                lemma_line_end(t@, i as int);
            }
            i = skip_line_comment(t, i);
        } else if two_at(t, i, '/', '*') {
            proof {
                lemma_block_end(t@, i + 2, 1);
            }
            i = skip_block_comment(t, i + 2);
        } else if t[i] == '"' {
            proof {
                lemma_string_end(t@, i + 1);
            }
            i = skip_string(t, i + 1);
        } else if t[i] == open {
            depth += 1;
            i += 1;
        } else if t[i] == close {
            if depth <= 1 {
                proof {
                    assert(!line_comment_at(t@, i as int));
                    assert(!block_comment_at(t@, i as int));
                    assert(t@[i as int] != open);
                    assert(find_close(t@, i as int, open, close, depth as nat) == Some(i as int));
                    assert(target == Some(i as int));
                }
                return Some(i);
            }
            depth -= 1;
            i += 1;
        } else {
            i += 1;
        }
    }
    None
}

/// Character-position call sites of `t`, in source order.
fn scan_sites(t: &[char]) -> (r: Vec<(MacroKind, usize, usize)>)
    ensures
        r@.len() == scan(t@, 0).len(),
        forall|k: int|
            0 <= k < r@.len() ==> {
                let (kind, s, e) = #[trigger] r@[k];
                scan(t@, 0)[k] == (kind, s as int, e as int)
            },
{
    let ghost whole = scan(t@, 0);
    let mut found: Vec<(MacroKind, usize, usize)> = Vec::new();
    let ghost mut found_spec: Seq<SiteSpec> = seq![];
    let mut i: usize = 0;
    while i < t.len()
        invariant
            i <= t@.len(),
            whole == found_spec + scan(t@, i as int),
            found@.len() == found_spec.len(),
            forall|k: int|
                0 <= k < found@.len() ==> {
                    let (kind, s, e) = #[trigger] found@[k];
                    found_spec[k] == (kind, s as int, e as int)
                },
        decreases t@.len() - i,
    {
        if two_at(t, i, '/', '/') {
            proof {
                lemma_line_end(t@, i as int);
            }
            i = skip_line_comment(t, i);
        } else if two_at(t, i, '/', '*') {
            proof {
                lemma_block_end(t@, i + 2, 1);
            }
            i = skip_block_comment(t, i + 2);
        } else if t[i] == '"' {
            proof {
                lemma_string_end(t@, i + 1);
            }
            i = skip_string(t, i + 1);
        } else if is_ident_start_exec(t[i]) {
            let e = scan_ident_end(t, i + 1);
            proof {
                lemma_ident_end(t@, i + 1);
            }
            let mut next = e;
            let b = skip_whitespace(t, e);
            proof {
                lemma_ws_end(t@, e as int);
            }
            if b < t.len() && t[b] == '!' {
                let a = skip_whitespace(t, b + 1);
                proof {
                    lemma_ws_end(t@, b + 1);
                }
                if a < t.len() && (t[a] == '(' || t[a] == '[' || t[a] == '{') {
                    let name = slice_vec(t, i, e);
                    if let Some(kind) = from_name(name.as_slice()) {
                        if let Some(c) = find_matching_close(t, a) {
                            proof {
                                lemma_find_close(t@, a + 1, t@[a as int], close_of(t@[a as int]), 1);
                                let site: SiteSpec = (kind, a + 1, c as int);
                                assert(call_after(t@, i as int, e as int) == Some(site));
                                assert(scan(t@, i as int) == seq![site] + scan(t@, c + 1));
                                found_spec = found_spec + seq![site];
                            }
                            found.push((kind, a + 1, c));
                            next = c + 1;
                        }
                    }
                }
            }
            i = next;
        } else {
            i += 1;
        }
    }
    proof {
        assert(scan(t@, i as int) == Seq::<SiteSpec>::empty());
        assert(whole == found_spec);
    }
    found
}

/// Every guicons macro call in `text`, in source order: exactly the sites
/// `scan` finds, with byte ranges.
pub fn all_macro_calls(text: &str) -> (sites: Vec<MacroCallSite>)
    requires
        utf8_len(text@) <= usize::MAX,
    ensures
        sites_match(sites@, text@, scan(text@, 0)),
{
    let t = chars_of(text);
    let offs = byte_offsets(&t);
    let raw = scan_sites(t.as_slice());
    let mut sites: Vec<MacroCallSite> = Vec::new();
    let mut k: usize = 0;
    while k < raw.len()
        invariant
            t@ == text@,
            offs@.len() == t@.len() + 1,
            forall|j: int| 0 <= j <= t@.len() ==> #[trigger] offs@[j] == utf8_len(t@.take(j)),
            raw@.len() == scan(t@, 0).len(),
            forall|j: int|
                0 <= j < raw@.len() ==> {
                    let (kind, s, e) = #[trigger] raw@[j];
                    scan(t@, 0)[j] == (kind, s as int, e as int)
                },
            k <= raw@.len(),
            sites@.len() == k,
            forall|j: int| 0 <= j < k ==> site_matches(#[trigger] sites@[j], t@, scan(t@, 0)[j]),
        decreases raw@.len() - k,
    {
        let (kind, s, e) = raw[k];
        proof {
            lemma_scan_bounds(t@, 0);
            assert(scan(t@, 0)[k as int] == (kind, s as int, e as int));
        }
        let arg = slice_vec(t.as_slice(), s, e);
        let site = MacroCallSite { kind, arg_text: string_of(arg.as_slice()), arg_range: Range { start: offs[s], end: offs[e] } };
        sites.push(site);
        k += 1;
    }
    sites
}

/// Every site found from `i` lies within the text, after `i`, in order and
/// without overlap.
pub proof fn lemma_scan_bounds(t: Seq<char>, i: int)
    requires
        0 <= i,
    ensures
        forall|k: int| 0 <= k < scan(t, i).len() ==> i < (#[trigger] scan(t, i)[k]).1 <= scan(t, i)[k].2 < t.len(),
        forall|k: int| 0 < k < scan(t, i).len() ==> scan(t, i)[k - 1].2 < (#[trigger] scan(t, i)[k]).1,
    decreases t.len() - i,
{
    if i >= t.len() {
    } else if line_comment_at(t, i) {
        let j = line_end(t, i);
        if i < j <= t.len() {
            lemma_scan_bounds(t, j);
            assert(scan(t, i) == scan(t, j));
        }
    } else if block_comment_at(t, i) {
        let j = block_end(t, i + 2, 1);
        if i < j <= t.len() {
            lemma_scan_bounds(t, j);
            assert(scan(t, i) == scan(t, j));
        }
    } else if t[i] == '"' {
        let j = string_end(t, i + 1);
        if i < j <= t.len() {
            lemma_scan_bounds(t, j);
            assert(scan(t, i) == scan(t, j));
        }
    } else if is_ident_start(t[i]) {
        let e = ident_end(t, i + 1);
        lemma_ident_end(t, i + 1);
        if i < e <= t.len() {
            match call_after(t, i, e) {
                Some(site) => {
                    if i <= site.2 < t.len() {
                        let b = ws_end(t, e);
                        lemma_ws_end(t, e);
                        assert(0 <= b < t.len() && t[b] == '!');
                        let a = ws_end(t, b + 1);
                        lemma_ws_end(t, b + 1);
                        assert(0 <= a < t.len());
                        lemma_find_close(t, a + 1, t[a], close_of(t[a]), 1);
                        assert(site.1 == a + 1);
                        assert(site.1 <= site.2);
                        lemma_scan_bounds(t, site.2 + 1);
                        let rest = scan(t, site.2 + 1);
                        assert(scan(t, i) == seq![site] + rest);
                        assert forall|k: int| 0 < k < scan(t, i).len() implies scan(t, i)[k - 1].2 < (
                        #[trigger] scan(t, i)[k]).1 by {
                            if k > 1 {
                                assert(scan(t, i)[k - 1] == rest[k - 2]);
                            }
                            assert(scan(t, i)[k] == rest[k - 1]);
                        }
                        assert forall|k: int| 0 <= k < scan(t, i).len() implies i < (
                        #[trigger] scan(t, i)[k]).1 <= scan(t, i)[k].2 < t.len() by {
                            if k > 0 {
                                assert(scan(t, i)[k] == rest[k - 1]);
                            }
                        }
                    }
                },
                None => {
                    lemma_scan_bounds(t, e);
                    assert(scan(t, i) == scan(t, e));
                },
            }
        }
    } else {
        lemma_scan_bounds(t, i + 1);
        assert(scan(t, i) == scan(t, i + 1));
    }
}

proof fn lemma_scan_delimiters(t: Seq<char>, i: int)
    requires
        0 <= i,
    ensures
        forall|k: int|
            0 <= k < scan(t, i).len() ==> 0 < (#[trigger] scan(t, i)[k]).1 && is_open(t[scan(t, i)[k].1 - 1])
                && t[scan(t, i)[k].2] == close_of(t[scan(t, i)[k].1 - 1]),
    decreases t.len() - i,
{
    if i >= t.len() {
    } else if line_comment_at(t, i) {
        let j = line_end(t, i);
        if i < j <= t.len() {
            lemma_scan_delimiters(t, j);
            assert(scan(t, i) == scan(t, j));
        }
    } else if block_comment_at(t, i) {
        let j = block_end(t, i + 2, 1);
        if i < j <= t.len() {
            lemma_scan_delimiters(t, j);
            assert(scan(t, i) == scan(t, j));
        }
    } else if t[i] == '"' {
        let j = string_end(t, i + 1);
        if i < j <= t.len() {
            lemma_scan_delimiters(t, j);
            assert(scan(t, i) == scan(t, j));
        }
    } else if is_ident_start(t[i]) {
        let e = ident_end(t, i + 1);
        lemma_ident_end(t, i + 1);
        if i < e <= t.len() {
            match call_after(t, i, e) {
                Some(site) => {
                    if i <= site.2 < t.len() {
                        let b = ws_end(t, e);
                        lemma_ws_end(t, e);
                        let a = ws_end(t, b + 1);
                        lemma_ws_end(t, b + 1);
                        lemma_find_close(t, a + 1, t[a], close_of(t[a]), 1);
                        assert(site.1 == a + 1);
                        lemma_scan_delimiters(t, site.2 + 1);
                        let rest = scan(t, site.2 + 1);
                        assert(scan(t, i) == seq![site] + rest);
                        assert forall|k: int| 0 <= k < scan(t, i).len() implies 0 < (#[trigger] scan(t, i)[k]).1
                            && is_open(t[scan(t, i)[k].1 - 1]) && t[scan(t, i)[k].2] == close_of(t[scan(t, i)[k].1 - 1]) by {
                            if k > 0 {
                                assert(scan(t, i)[k] == rest[k - 1]);
                            }
                        }
                    }
                },
                None => {
                    lemma_scan_delimiters(t, e);
                    assert(scan(t, i) == scan(t, e));
                },
            }
        }
    } else {
        lemma_scan_delimiters(t, i + 1);
        assert(scan(t, i) == scan(t, i + 1));
    }
}

/// Whether site `s` of `t` is named: some name `t[n..e]` of its kind,
/// then (past whitespace) a `!`, then (past whitespace) the opening
/// delimiter just before its argument.
pub open spec fn named_call(t: Seq<char>, s: SiteSpec) -> bool {
    exists|n: int, e: int|
        0 <= n < e <= t.len() && kind_of(#[trigger] t.subrange(n, e)) == Some(s.0) && ws_end(t, e) < t.len() && t[ws_end(
            t,
            e,
        )] == '!' && ws_end(t, ws_end(t, e) + 1) == s.1 - 1
}

proof fn lemma_scan_names(t: Seq<char>, i: int)
    requires
        0 <= i,
    ensures
        forall|k: int| 0 <= k < scan(t, i).len() ==> named_call(t, #[trigger] scan(t, i)[k]),
    decreases t.len() - i,
{
    if i >= t.len() {
    } else if line_comment_at(t, i) {
        let j = line_end(t, i);
        if i < j <= t.len() {
            lemma_scan_names(t, j);
            assert(scan(t, i) == scan(t, j));
        }
    } else if block_comment_at(t, i) {
        let j = block_end(t, i + 2, 1);
        if i < j <= t.len() {
            lemma_scan_names(t, j);
            assert(scan(t, i) == scan(t, j));
        }
    } else if t[i] == '"' {
        let j = string_end(t, i + 1);
        if i < j <= t.len() {
            lemma_scan_names(t, j);
            assert(scan(t, i) == scan(t, j));
        }
    } else if is_ident_start(t[i]) {
        let e = ident_end(t, i + 1);
        lemma_ident_end(t, i + 1);
        if i < e <= t.len() {
            match call_after(t, i, e) {
                Some(site) => {
                    if i <= site.2 < t.len() {
                        let b = ws_end(t, e);
                        let a = ws_end(t, b + 1);
                        assert(site.1 == a + 1);
                        assert(kind_of(t.subrange(i, e)) == Some(site.0));
                        assert(named_call(t, site));
                        lemma_scan_names(t, site.2 + 1);
                        let rest = scan(t, site.2 + 1);
                        assert(scan(t, i) == seq![site] + rest);
                        assert forall|k: int| 0 <= k < scan(t, i).len() implies named_call(t, #[trigger] scan(t, i)[k]) by {
                            if k > 0 {
                                assert(scan(t, i)[k] == rest[k - 1]);
                            }
                        }
                    }
                },
                None => {
                    lemma_scan_names(t, e);
                    assert(scan(t, i) == scan(t, e));
                },
            }
        }
    } else {
        lemma_scan_names(t, i + 1);
        assert(scan(t, i) == scan(t, i + 1));
    }
}

/// Site `site` of `text` has its argument at characters `a..b`: the text
/// there, at those byte offsets, right after an opening delimiter that the
/// character at `b` closes, and called by a name of its kind.
pub open spec fn site_at(text: Seq<char>, site: MacroCallSite, a: int, b: int) -> bool {
    &&& 0 < a <= b < text.len()
    &&& site.arg_text@ == text.subrange(a, b)
    &&& site.arg_range.start == utf8_len(text.take(a))
    &&& site.arg_range.end == utf8_len(text.take(b))
    &&& is_open(text[a - 1])
    &&& text[b] == close_of(text[a - 1])
    &&& named_call(text, (site.kind, a, b))
}

/// Site `site` of `text` has its argument at some characters `a..b`.
pub open spec fn located(text: Seq<char>, site: MacroCallSite) -> bool {
    exists|a: int, b: int| #[trigger] site_at(text, site, a, b)
}

/// The law of what `all_macro_calls` returns for a text: each site's
/// argument is the text at its byte range, which lies inside the text; the
/// character before it opens a delimiter that the character at its end
/// closes; the macro's name of the site's kind stands before, followed by
/// `!`; and the sites come in source order without overlapping.
#[verifier::spinoff_prover]
pub proof fn lemma_macro_call_sites(text: Seq<char>, sites: Seq<MacroCallSite>)
    requires
        sites_match(sites, text, scan(text, 0)),
    ensures
        forall|k: int| 0 <= k < sites.len() ==> located(text, #[trigger] sites[k]),
        forall|k: int|
            0 <= k < sites.len() ==> (#[trigger] sites[k]).arg_range.start <= sites[k].arg_range.end < utf8_len(text),
        forall|j: int, k: int|
            0 <= j < k < sites.len() ==> (#[trigger] sites[j]).arg_range.end < (#[trigger] sites[k]).arg_range.start,
{
    assert forall|k: int| 0 <= k < sites.len() implies located(text, #[trigger] sites[k]) by {
        lemma_one_site(text, sites, k);
    }
    assert forall|k: int| 0 <= k < sites.len() implies (#[trigger] sites[k]).arg_range.start <= sites[k].arg_range.end
        < utf8_len(text) by {
        lemma_one_site(text, sites, k);
    }
    assert forall|j: int, k: int| 0 <= j < k < sites.len() implies (#[trigger] sites[j]).arg_range.end < (
    #[trigger] sites[k]).arg_range.start by {
        lemma_sites_pairwise(text, sites, j, k);
    }
}

proof fn lemma_sites_pairwise(text: Seq<char>, sites: Seq<MacroCallSite>, j: int, k: int)
    requires
        sites_match(sites, text, scan(text, 0)),
        0 <= j < k < sites.len(),
    ensures
        sites[j].arg_range.end < sites[k].arg_range.start,
    decreases k - j,
{
    lemma_sites_ordered(text, sites, k);
    if j + 1 < k {
        lemma_sites_pairwise(text, sites, j, k - 1);
        lemma_one_site(text, sites, k - 1);
    }
}

proof fn lemma_one_site(text: Seq<char>, sites: Seq<MacroCallSite>, k: int)
    requires
        sites_match(sites, text, scan(text, 0)),
        0 <= k < sites.len(),
    ensures
        site_at(text, sites[k], scan(text, 0)[k].1, scan(text, 0)[k].2),
        sites[k].arg_range.start <= sites[k].arg_range.end < utf8_len(text),
{
    let sc = scan(text, 0);
    lemma_call_sites(text);
    lemma_scan_names(text, 0);
    assert(site_matches(sites[k], text, sc[k]));
    assert(named_call(text, sc[k]));
    assert(sc[k] == (sites[k].kind, sc[k].1, sc[k].2));
    crate::text::lemma_utf8_len_take_mono(text, sc[k].1, sc[k].2);
    crate::text::lemma_utf8_len_take_mono(text, sc[k].2, text.len() as int);
    assert(text.take(text.len() as int) =~= text);
}

proof fn lemma_sites_ordered(text: Seq<char>, sites: Seq<MacroCallSite>, k: int)
    requires
        sites_match(sites, text, scan(text, 0)),
        0 < k < sites.len(),
    ensures
        sites[k - 1].arg_range.end < sites[k].arg_range.start,
{
    let sc = scan(text, 0);
    lemma_call_sites(text);
    assert(site_matches(sites[k], text, sc[k]));
    assert(site_matches(sites[k - 1], text, sc[k - 1]));
    assert(sc[k - 1].2 < sc[k].1);
    crate::text::lemma_utf8_len_take_mono(text, sc[k - 1].2, sc[k].1);
}

/// The call sites of a text (as `all_macro_calls` finds them): each
/// argument lies inside the text, right after an opening delimiter and
/// ending at its matching closer, and the sites come in source order
/// without overlapping.
pub proof fn lemma_call_sites(t: Seq<char>)
    ensures
        forall|k: int|
            0 <= k < scan(t, 0).len() ==> {
                let s = #[trigger] scan(t, 0)[k];
                &&& 0 < s.1 <= s.2 < t.len()
                &&& is_open(t[s.1 - 1])
                &&& t[s.2] == close_of(t[s.1 - 1])
            },
        forall|k: int| 0 < k < scan(t, 0).len() ==> scan(t, 0)[k - 1].2 < (#[trigger] scan(t, 0)[k]).1,
{
    lemma_scan_bounds(t, 0);
    lemma_scan_delimiters(t, 0);
}

pub open spec fn contains_offset(site: MacroCallSite, offset: usize) -> bool {
    site.arg_range.start <= offset <= site.arg_range.end
}

/// The call whose argument range contains `offset` (ends included): the
/// first such site of `all_macro_calls`, or `None` if there is none.
pub fn macro_call_at(text: &str, offset: usize) -> (r: Option<MacroCallSite>)
    requires
        utf8_len(text@) <= usize::MAX,
    ensures
        match r {
            Some(site) => exists|k: int|
                0 <= k < scan(text@, 0).len() && site_matches(site, text@, #[trigger] scan(text@, 0)[k])
                    && contains_offset(site, offset) && forall|j: int|
                    0 <= j < k ==> !(utf8_len(text@.take(#[trigger] scan(text@, 0)[j].1)) <= offset
                        <= utf8_len(text@.take(scan(text@, 0)[j].2))),
            None => forall|k: int|
                0 <= k < scan(text@, 0).len() ==> !(utf8_len(text@.take((#[trigger] scan(text@, 0)[k]).1))
                    <= offset <= utf8_len(text@.take(scan(text@, 0)[k].2))),
        },
{
    let sites = all_macro_calls(text);
    let mut k: usize = 0;
    while k < sites.len()
        invariant
            sites_match(sites@, text@, scan(text@, 0)),
            k <= sites@.len(),
            forall|j: int| 0 <= j < k ==> !contains_offset(#[trigger] sites@[j], offset),
        decreases sites@.len() - k,
    {
        let site = &sites[k];
        if site.arg_range.start <= offset && offset <= site.arg_range.end {
            let found = site.clone();
            proof {
                assert(site_matches(sites@[k as int], text@, scan(text@, 0)[k as int]));
                assert forall|j: int| 0 <= j < k implies !(utf8_len(text@.take(#[trigger] scan(text@, 0)[j].1))
                    <= offset <= utf8_len(text@.take(scan(text@, 0)[j].2))) by {
                    assert(site_matches(sites@[j], text@, scan(text@, 0)[j]));
                    assert(!contains_offset(sites@[j], offset));
                }
            }
            return Some(found);
        }
        k += 1;
    }
    proof {
        assert forall|j: int| 0 <= j < scan(text@, 0).len() implies !(utf8_len(text@.take((#[trigger] scan(text@, 0)[j]).1))
            <= offset <= utf8_len(text@.take(scan(text@, 0)[j].2))) by {
            assert(site_matches(sites@[j], text@, scan(text@, 0)[j]));
            assert(!contains_offset(sites@[j], offset));
        }
    }
    None
}

} // verus!
