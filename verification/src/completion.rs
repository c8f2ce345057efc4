//! What the language server offers to complete at a cursor in a manifest:
//! built-in providers in a `[providers.` header, files for a `file` or
//! `includes` value, providers and icon names for an `iconify` value,
//! variants after `variants.`, and the keys a section takes. The lookups
//! are line-based heuristics on the text, like those of `manifest_text`.

use crate::describe::{contains_text, contains_text_exec};
use crate::fields::{field, get_field, strings_view};
use crate::parse::{defaults_of, parse_defaults};
use crate::toml::{parse_toml, toml_root};
use crate::iconify_completion::{classify, IconifyContext};
use crate::manifest_text::{
    byte_pos, char_index, char_index_exec, header_inner, header_inner_exec, is_boundary, line_start,
    line_start_exec, starts_with, starts_with_exec,
};
use crate::model::{first_index, named, opt_chars, IconManifest};
use crate::order::{sorted_names, sorted_names_exec};
use crate::text::{
    byte_offsets, chars_eq, chars_of, find_char, find_char_exec, is_alnum, slice_vec, split_on,
    split_on_exec, string_of, trim, trim_exec, trim_start, utf8_len, ws_prefix_exec,
};
use std::ops::Range;
use vstd::prelude::*;

verus! {

/// The table the cursor's line belongs to.
#[derive(Debug, Clone, Copy, PartialEq, Eq, Structural)]
pub enum SectionKind {
    TopLevel,
    Defaults,
    Link,
    Provider,
    Entry,
}

/// A value that names files: an `includes` item (other manifests) or a
/// `file`/`windows-ico` value (images).
#[derive(Debug, Clone, Copy, PartialEq, Eq, Structural)]
pub enum PathFieldKind {
    Includes,
    File,
}

#[derive(Debug, Clone, Copy, PartialEq, Eq, Structural)]
pub enum ChoiceKind {
    Text,
    File,
    Folder,
}

/// One completion: its label (also the text it inserts), a detail line,
/// its kind and the byte range it replaces.
#[derive(Debug)]
pub struct CompletionChoice {
    pub label: String,
    pub detail: Option<String>,
    pub kind: ChoiceKind,
    pub start: usize,
    pub end: usize,
}

/// The completions offered at a cursor; `as_list` when they are sent as a
/// list that says whether more matches exist.
#[derive(Debug)]
pub struct CompletionAnswer {
    pub items: Vec<CompletionChoice>,
    pub is_incomplete: bool,
    pub as_list: bool,
}

pub type ChoiceView = (Seq<char>, Option<Seq<char>>, ChoiceKind, int, int);

pub type AnswerView = (Seq<ChoiceView>, bool, bool);

pub open spec fn choice_view(c: CompletionChoice) -> ChoiceView {
    (c.label@, opt_chars(c.detail), c.kind, c.start as int, c.end as int)
}

pub open spec fn choices_view(v: Seq<CompletionChoice>) -> Seq<ChoiceView> {
    v.map_values(|c: CompletionChoice| choice_view(c))
}

pub open spec fn answer_view(r: Option<CompletionAnswer>) -> Option<AnswerView> {
    match r {
        Some(a) => Some((choices_view(a.items@), a.is_incomplete, a.as_list)),
        None => None,
    }
}

pub open spec fn dir_view(d: Seq<(String, bool)>) -> Seq<(Seq<char>, bool)> {
    d.map_values(|e: (String, bool)| (e.0@, e.1))
}

pub open spec fn names_view(o: Option<Vec<String>>) -> Seq<Seq<char>> {
    match o {
        Some(v) => strings_view(v@),
        None => Seq::empty(),
    }
}

/// What `char::is_alphanumeric` answers for `c` (alphabetic or numeric
/// in Unicode's tables).
pub uninterp spec fn alphanumeric(c: char) -> bool;

/// `char::is_alphanumeric`. The contract claims its answer is
/// `alphanumeric(c)`, and that on ASCII it is true exactly for the
/// letters and digits, as its documentation gives.
#[verifier::external_body]
fn char_is_alphanumeric(c: char) -> (r: bool)
    ensures
        r == alphanumeric(c),
        (c as u32) < 128 ==> (r == is_alnum(c)),
{
    c.is_alphanumeric()
}

/// A character of a key being typed: alphanumeric, `-` or `_`.
pub open spec fn is_key_char(c: char) -> bool {
    alphanumeric(c) || c == '-' || c == '_'
}

/// Where the run of key characters that ends at position `k` starts.
pub open spec fn word_start(s: Seq<char>, k: int) -> int
    decreases k,
{
    if 0 < k <= s.len() && is_key_char(s[k - 1]) {
        word_start(s, k - 1)
    } else {
        k
    }
}

/// The cursor's line up to the cursor.
pub open spec fn raw_prefix(s: Seq<char>, k: int) -> Seq<char> {
    s.subrange(line_start(s, k), k)
}

/// The cursor's line up to the cursor, without leading whitespace.
pub open spec fn line_prefix(s: Seq<char>, k: int) -> Seq<char> {
    trim_start(raw_prefix(s, k))
}

/// How many `"` are in `p`.
pub open spec fn quote_count(p: Seq<char>) -> nat
    decreases p.len(),
{
    if p.len() == 0 {
        0
    } else {
        quote_count(p.drop_last()) + if p.last() == '"' {
            1nat
        } else {
            0nat
        }
    }
}

/// Where the last `"` of `p` is (-1 if none).
pub open spec fn last_quote(p: Seq<char>) -> int
    decreases p.len(),
{
    if p.len() == 0 {
        -1
    } else if p.last() == '"' {
        p.len() - 1
    } else {
        last_quote(p.drop_last())
    }
}

/// For a line typed up to the cursor that reads `key = ... "typed`, the
/// cursor inside a string value: the key, and where the typed text starts.
pub open spec fn open_value(p: Seq<char>) -> Option<(Seq<char>, int)> {
    match find_char(p, '=') {
        None => None,
        Some(e) => {
            let v = p.skip(e + 1);
            if quote_count(v) % 2 == 1 {
                Some((trim(p.take(e)), e + 1 + last_quote(v) + 1))
            } else {
                None
            }
        },
    }
}

pub open spec fn path_kind(key: Seq<char>) -> Option<PathFieldKind> {
    if key == "includes"@ {
        Some(PathFieldKind::Includes)
    } else if key == "file"@ || key == "windows-ico"@ {
        Some(PathFieldKind::File)
    } else {
        None
    }
}

/// The last of `lines` that is a `[...]` header, as what is inside it.
pub open spec fn last_header(lines: Seq<Seq<char>>) -> Option<Seq<char>>
    decreases lines.len(),
{
    if lines.len() == 0 {
        None
    } else {
        match header_inner(lines.last()) {
            Some(x) => Some(x),
            None => last_header(lines.drop_last()),
        }
    }
}

pub open spec fn section_kind_of(h: Option<Seq<char>>) -> SectionKind {
    match h {
        None => SectionKind::TopLevel,
        Some(x) => if x == "defaults"@ {
            SectionKind::Defaults
        } else if x == "link"@ {
            SectionKind::Link
        } else if starts_with(x, "providers"@) {
            SectionKind::Provider
        } else {
            SectionKind::Entry
        },
    }
}

/// The section of the line holding position `k`: that of the last header
/// on a line before it.
pub open spec fn section_at(s: Seq<char>, k: int) -> SectionKind {
    section_kind_of(last_header(split_on(s.take(line_start(s, k)), seq!['\n'])))
}

/// The keys a section takes.
pub open spec fn field_names(kind: SectionKind) -> Seq<Seq<char>> {
    match kind {
        SectionKind::TopLevel => seq!["defaults"@, "link"@, "providers"@],
        SectionKind::Defaults => seq!["root"@, "provider"@, "size"@],
        SectionKind::Link => seq!["includes"@],
        SectionKind::Provider => seq!["variants"@, "sizes"@],
        SectionKind::Entry => seq![
            "file"@,
            "iconify"@,
            "url"@,
            "glyph"@,
            "windows-ico"@,
            "dynamic"@,
            "root"@,
            "variants"@,
        ],
    }
}

/// Plain choices for `names`, each replacing `start..end`.
pub open spec fn plain_choices(names: Seq<Seq<char>>, detail: Seq<char>, start: int, end: int) -> Seq<ChoiceView> {
    names.map_values(|n: Seq<char>| (n, Some(detail), ChoiceKind::Text, start, end))
}

pub open spec fn ends_with(s: Seq<char>, e: Seq<char>) -> bool {
    s.len() >= e.len() && s.skip(s.len() - e.len()) == e
}

/// Whether a file of that name belongs in a value of that kind.
pub open spec fn path_allowed(kind: PathFieldKind, name: Seq<char>) -> bool {
    match kind {
        PathFieldKind::Includes => ends_with(name, ".toml"@),
        PathFieldKind::File => ends_with(name, ".svg"@) || ends_with(name, ".png"@),
    }
}

/// The directory entries offered in a path value: those whose names start
/// with what was typed, folders and files of the allowed kinds.
pub open spec fn path_choices(
    dir: Seq<(Seq<char>, bool)>,
    typed: Seq<char>,
    kind: PathFieldKind,
    start: int,
    end: int,
) -> Seq<ChoiceView>
    decreases dir.len(),
{
    if dir.len() == 0 {
        Seq::empty()
    } else {
        let rest = path_choices(dir.drop_last(), typed, kind, start, end);
        let (name, is_dir) = dir.last();
        if starts_with(name, typed) && (is_dir || path_allowed(kind, name)) {
            rest.push(
                (name, None, if is_dir {
                    ChoiceKind::Folder
                } else {
                    ChoiceKind::File
                }, start, end),
            )
        } else {
            rest
        }
    }
}

/// The names that start with `typed`, in order.
pub open spec fn with_prefix(names: Seq<Seq<char>>, typed: Seq<char>) -> Seq<Seq<char>>
    decreases names.len(),
{
    if names.len() == 0 {
        Seq::empty()
    } else if starts_with(names.last(), typed) {
        with_prefix(names.drop_last(), typed).push(names.last())
    } else {
        with_prefix(names.drop_last(), typed)
    }
}

/// The variants of the manifest's providers that carry built-in names.
pub open spec fn builtin_variants(builtin: Seq<Seq<char>>, providers: Seq<(String, crate::model::ProviderSchema)>) -> Seq<
    Seq<char>,
>
    decreases builtin.len(),
{
    if builtin.len() == 0 {
        Seq::empty()
    } else {
        builtin_variants(builtin.drop_last(), providers) + match first_index(providers, named(builtin.last())) {
            Some(i) => strings_view(providers[i].1.variants@),
            None => Seq::empty(),
        }
    }
}

pub open spec fn provider_names_view(providers: Seq<(String, crate::model::ProviderSchema)>) -> Seq<Seq<char>> {
    providers.map_values(|p: (String, crate::model::ProviderSchema)| p.0@)
}

/// At most this many icon names are offered at once.
pub open spec fn icon_choice_limit() -> int {
    200
}

/// The answer inside an `iconify` value whose typed text starts at byte
/// `start`: before a `:` the providers (built-in and the manifest's,
/// sorted) that start with it, after one the cached icon names that start
/// with the rest, at most the limit, and whether more matched.
pub open spec fn iconify_answer(
    typed: Seq<char>,
    start: int,
    end: int,
    builtin: Seq<Seq<char>>,
    providers: Seq<(String, crate::model::ProviderSchema)>,
    cached: Seq<Seq<char>>,
) -> AnswerView {
    match find_char(typed, ':') {
        None => (
            with_prefix(sorted_names(builtin + provider_names_view(providers)), typed).map_values(
                |n: Seq<char>| (n + ":"@, Some("provider"@), ChoiceKind::Text, start, end),
            ),
            false,
            true,
        ),
        Some(c) => {
            let matches = with_prefix(cached, typed.skip(c + 1));
            let shown = if matches.len() > icon_choice_limit() {
                matches.take(icon_choice_limit())
            } else {
                matches
            };
            (
                plain_choices(shown, "icon"@, start + utf8_len(typed.take(c)) + 1, end),
                matches.len() > icon_choice_limit(),
                true,
            )
        },
    }
}

/// What is offered at byte `offset` of a manifest's text `s`, given the
/// built-in provider names, the manifest's providers, the entries of the
/// directory a path value names and the cached icon names of the provider
/// an `iconify` value names.
pub open spec fn completion_spec(
    s: Seq<char>,
    offset: int,
    builtin: Seq<Seq<char>>,
    providers: Seq<(String, crate::model::ProviderSchema)>,
    dir: Seq<(Seq<char>, bool)>,
    cached: Seq<Seq<char>>,
) -> Option<AnswerView> {
    if !is_boundary(s, offset) {
        None
    } else {
        let k = char_index(s, offset);
        let ls = line_start(s, k);
        let raw = raw_prefix(s, k);
        let lp = line_prefix(s, k);
        let word = byte_pos(s, word_start(s, k));
        if starts_with(lp, "["@) && contains_text(lp, "providers."@) {
            Some((plain_choices(builtin, "built-in provider"@, word, offset), false, false))
        } else if open_value(raw) matches Some((key, q)) && path_kind(key) is Some {
            let (key, q) = open_value(raw).unwrap();
            Some(
                (
                    path_choices(dir, raw.skip(q), path_kind(key).unwrap(), byte_pos(s, ls + q), offset),
                    false,
                    false,
                ),
            )
        } else if open_value(raw) matches Some((key, q)) && key == "iconify"@ {
            let (key, q) = open_value(raw).unwrap();
            Some(iconify_answer(raw.skip(q), byte_pos(s, ls + q), offset, builtin, providers, cached))
        } else if starts_with(lp, "variants."@) {
            Some((plain_choices(sorted_names(builtin_variants(builtin, providers)), "variant"@, word, offset), false, false))
        } else if forall|i: int| 0 <= i < lp.len() ==> is_key_char(#[trigger] lp[i]) {
            Some((plain_choices(field_names(section_at(s, k)), "field"@, word, offset), false, false))
        } else {
            None
        }
    }
}

fn word_start_exec(s: &Vec<char>, k: usize) -> (r: usize)
    requires
        k <= s@.len(),
    ensures
        r == word_start(s@, k as int),
        r <= k,
{
    let mut a = k;
    while a > 0 && (char_is_alphanumeric(s[a - 1]) || s[a - 1] == '-' || s[a - 1] == '_')
        invariant
            a <= k <= s@.len(),
            word_start(s@, k as int) == word_start(s@, a as int),
        decreases a,
    {
        a -= 1;
    }
    a
}

fn quote_scan(v: &[char]) -> (r: (usize, Option<usize>))
    ensures
        r.0 == quote_count(v@),
        match r.1 {
            Some(j) => last_quote(v@) == j && j < v@.len(),
            None => last_quote(v@) == -1,
        },
{
    let mut count: usize = 0;
    let mut last: Option<usize> = None;
    let mut i: usize = 0;
    proof {
        assert(v@.take(0) =~= Seq::<char>::empty());
    }
    while i < v.len()
        invariant
            i <= v@.len(),
            count == quote_count(v@.take(i as int)),
            count <= i,
            match last {
                Some(j) => last_quote(v@.take(i as int)) == j && j < i,
                None => last_quote(v@.take(i as int)) == -1,
            },
        decreases v@.len() - i,
    {
        proof {
            assert(v@.take(i + 1).drop_last() =~= v@.take(i as int));
            assert(v@.take(i + 1).last() == v@[i as int]);
        }
        if v[i] == '"' {
            count += 1;
            last = Some(i);
        }
        i += 1;
    }
    proof {
        assert(v@.take(v@.len() as int) =~= v@);
    }
    (count, last)
}

fn open_value_exec(p: &Vec<char>) -> (r: Option<(Vec<char>, usize)>)
    ensures
        match r {
            Some((key, q)) => open_value(p@) == Some((key@, q as int)) && q <= p@.len(),
            None => open_value(p@) is None,
        },
{
    let found = find_char_exec(p.as_slice(), '=');
    let e = match found {
        Some(e) => e,
        None => return None,
    };
    let n = p.len();
    assert(e < n);
    let v = slice_vec(p.as_slice(), e + 1, n);
    proof {
        assert(v@ =~= p@.skip(e + 1));
    }
    let (count, last) = quote_scan(v.as_slice());
    if count % 2 == 1 {
        let j = match last {
            Some(j) => j,
            None => {
                proof {
                    assert(quote_count(v@) == 0) by {
                        lemma_no_quote(v@);
                    }
                }
                return None;
            },
        };
        let head = slice_vec(p.as_slice(), 0, e);
        proof {
            assert(head@ =~= p@.take(e as int));
        }
        let key = trim_exec(head.as_slice());
        Some((key, e + 1 + j + 1))
    } else {
        None
    }
}

proof fn lemma_no_quote(v: Seq<char>)
    requires
        last_quote(v) == -1,
    ensures
        quote_count(v) == 0,
    decreases v.len(),
{
    if v.len() > 0 {
        lemma_no_quote(v.drop_last());
    }
}

fn path_kind_exec(key: &Vec<char>) -> (r: Option<PathFieldKind>)
    ensures
        r == path_kind(key@),
{
    let a = chars_of("includes");
    let b = chars_of("file");
    let c = chars_of("windows-ico");
    if chars_eq(key.as_slice(), a.as_slice()) {
        Some(PathFieldKind::Includes)
    } else if chars_eq(key.as_slice(), b.as_slice()) || chars_eq(key.as_slice(), c.as_slice()) {
        Some(PathFieldKind::File)
    } else {
        None
    }
}

fn section_at_exec(s: &Vec<char>, ls: usize) -> (r: SectionKind)
    requires
        ls <= s@.len(),
    ensures
        r == section_kind_of(last_header(split_on(s@.take(ls as int), seq!['\n']))),
{
    let head = slice_vec(s.as_slice(), 0, ls);
    let mut nl: Vec<char> = Vec::new();
    nl.push('\n');
    proof {
        assert(head@ =~= s@.take(ls as int));
        assert(nl@ =~= seq!['\n']);
    }
    let lines = split_on_exec(head.as_slice(), nl.as_slice());
    let ghost lv = split_on(s@.take(ls as int), seq!['\n']);
    let mut found: Option<Vec<char>> = None;
    let mut i: usize = 0;
    proof {
        assert(lv.take(0) =~= Seq::<Seq<char>>::empty());
    }
    while i < lines.len()
        invariant
            i <= lines@.len() == lv.len(),
            forall|j: int| 0 <= j < lv.len() ==> #[trigger] lines@[j]@ == lv[j],
            match found {
                Some(x) => last_header(lv.take(i as int)) == Some(x@),
                None => last_header(lv.take(i as int)) is None,
            },
        decreases lines@.len() - i,
    {
        proof {
            assert(lv.take(i + 1).drop_last() =~= lv.take(i as int));
            assert(lv.take(i + 1).last() == lv[i as int]);
        }
        match header_inner_exec(&lines[i]) {
            Some(x) => {
                found = Some(x);
            },
            None => {},
        }
        i += 1;
    }
    proof {
        assert(lv.take(lv.len() as int) =~= lv);
    }
    match found {
        None => SectionKind::TopLevel,
        Some(x) => {
            let d = chars_of("defaults");
            let l = chars_of("link");
            if chars_eq(x.as_slice(), d.as_slice()) {
                SectionKind::Defaults
            } else if chars_eq(x.as_slice(), l.as_slice()) {
                SectionKind::Link
            } else if starts_with_exec(x.as_slice(), "providers") {
                SectionKind::Provider
            } else {
                SectionKind::Entry
            }
        },
    }
}

fn field_names_exec(kind: SectionKind) -> (r: Vec<String>)
    ensures
        strings_view(r@) == field_names(kind),
{
    let mut r: Vec<String> = Vec::new();
    match kind {
        SectionKind::TopLevel => {
            r.push("defaults".to_owned());
            r.push("link".to_owned());
            r.push("providers".to_owned());
        },
        SectionKind::Defaults => {
            r.push("root".to_owned());
            r.push("provider".to_owned());
            r.push("size".to_owned());
        },
        SectionKind::Link => {
            r.push("includes".to_owned());
        },
        SectionKind::Provider => {
            r.push("variants".to_owned());
            r.push("sizes".to_owned());
        },
        SectionKind::Entry => {
            r.push("file".to_owned());
            r.push("iconify".to_owned());
            r.push("url".to_owned());
            r.push("glyph".to_owned());
            r.push("windows-ico".to_owned());
            r.push("dynamic".to_owned());
            r.push("root".to_owned());
            r.push("variants".to_owned());
        },
    }
    proof {
        assert(strings_view(r@) =~= field_names(kind));
    }
    r
}


fn plain_choices_exec(names: &Vec<String>, detail: &str, start: usize, end: usize) -> (r: Vec<CompletionChoice>)
    ensures
        choices_view(r@) == plain_choices(strings_view(names@), detail@, start as int, end as int),
{
    let mut r: Vec<CompletionChoice> = Vec::new();
    let mut i: usize = 0;
    while i < names.len()
        invariant
            i <= names@.len(),
            choices_view(r@) == plain_choices(strings_view(names@.take(i as int)), detail@, start as int, end as int),
        decreases names@.len() - i,
    {
        let ghost before = choices_view(r@);
        let label = names[i].clone();
        let d = detail.to_owned();
        assert(label@ == names@[i as int]@);
        assert(d@ == detail@);
        r.push(CompletionChoice { label, detail: Some(d), kind: ChoiceKind::Text, start, end });
        proof {
            assert(choices_view(r@) =~= before.push((names@[i as int]@, Some(detail@), ChoiceKind::Text, start as int, end as int)));
            assert(strings_view(names@.take(i + 1)) =~= strings_view(names@.take(i as int)).push(names@[i as int]@));
            assert(choices_view(r@) =~= plain_choices(strings_view(names@.take(i + 1)), detail@, start as int, end as int));
        }
        i += 1;
    }
    proof {
        assert(names@.take(names@.len() as int) =~= names@);
    }
    r
}

fn with_prefix_exec(names: &Vec<String>, typed: &[char]) -> (r: Vec<String>)
    ensures
        strings_view(r@) == with_prefix(strings_view(names@), typed@),
{
    let mut r: Vec<String> = Vec::new();
    let mut i: usize = 0;
    proof {
        assert(strings_view(names@).take(0) =~= Seq::<Seq<char>>::empty());
    }
    while i < names.len()
        invariant
            i <= names@.len(),
            strings_view(r@) == with_prefix(strings_view(names@).take(i as int), typed@),
        decreases names@.len() - i,
    {
        proof {
            assert(strings_view(names@).take(i + 1).drop_last() =~= strings_view(names@).take(i as int));
            assert(strings_view(names@).take(i + 1).last() == names@[i as int]@);
        }
        let c = chars_of(names[i].as_str());
        let t = string_of(typed);
        if starts_with_exec(c.as_slice(), t.as_str()) {
            r.push(names[i].clone());
            proof {
                assert(strings_view(r@) =~= with_prefix(strings_view(names@).take(i as int), typed@).push(names@[i as int]@));
            }
        }
        i += 1;
    }
    proof {
        assert(strings_view(names@).take(names@.len() as int) =~= strings_view(names@));
    }
    r
}

fn ends_with_exec(s: &[char], e: &str) -> (r: bool)
    ensures
        r == ends_with(s@, e@),
{
    let ec = chars_of(e);
    let n = s.len();
    if n < ec.len() {
        return false;
    }
    let tail = slice_vec(s, n - ec.len(), n);
    proof {
        assert(tail@ =~= s@.skip(s@.len() - e@.len()));
    }
    chars_eq(tail.as_slice(), ec.as_slice())
}

fn path_allowed_exec(kind: PathFieldKind, name: &[char]) -> (r: bool)
    ensures
        r == path_allowed(kind, name@),
{
    match kind {
        PathFieldKind::Includes => ends_with_exec(name, ".toml"),
        PathFieldKind::File => ends_with_exec(name, ".svg") || ends_with_exec(name, ".png"),
    }
}

fn path_choices_exec(dir: &Vec<(String, bool)>, typed: &[char], kind: PathFieldKind, start: usize, end: usize) -> (r: Vec<
    CompletionChoice,
>)
    ensures
        choices_view(r@) == path_choices(dir_view(dir@), typed@, kind, start as int, end as int),
{
    let mut r: Vec<CompletionChoice> = Vec::new();
    let mut i: usize = 0;
    let ghost dv = dir_view(dir@);
    proof {
        assert(dv.take(0) =~= Seq::<(Seq<char>, bool)>::empty());
        assert(choices_view(r@) =~= Seq::<ChoiceView>::empty());
    }
    let t = string_of(typed);
    while i < dir.len()
        invariant
            dv == dir_view(dir@),
            t@ == typed@,
            i <= dir@.len(),
            choices_view(r@) == path_choices(dv.take(i as int), typed@, kind, start as int, end as int),
        decreases dir@.len() - i,
    {
        proof {
            assert(dv.take(i + 1).drop_last() =~= dv.take(i as int));
            assert(dv.take(i + 1).last() == (dir@[i as int].0@, dir@[i as int].1));
        }
        let name = chars_of(dir[i].0.as_str());
        let is_dir = dir[i].1;
        if starts_with_exec(name.as_slice(), t.as_str()) && (is_dir || path_allowed_exec(kind, name.as_slice())) {
            let ghost before = choices_view(r@);
            r.push(CompletionChoice {
                label: dir[i].0.clone(),
                detail: None,
                kind: if is_dir {
                    ChoiceKind::Folder
                } else {
                    ChoiceKind::File
                },
                start,
                end,
            });
            proof {
                assert(choices_view(r@) =~= before.push(choice_view(r@.last())));
            }
        }
        i += 1;
    }
    proof {
        assert(dv.take(dir@.len() as int) =~= dv);
    }
    r
}

fn builtin_variants_exec(builtin: &Vec<String>, manifest: &IconManifest) -> (r: Vec<String>)
    ensures
        strings_view(r@) == builtin_variants(strings_view(builtin@), manifest.providers@),
{
    let mut r: Vec<String> = Vec::new();
    let mut i: usize = 0;
    let ghost bv = strings_view(builtin@);
    proof {
        assert(bv.take(0) =~= Seq::<Seq<char>>::empty());
        assert(strings_view(r@) =~= Seq::<Seq<char>>::empty());
    }
    while i < builtin.len()
        invariant
            bv == strings_view(builtin@),
            i <= builtin@.len(),
            strings_view(r@) == builtin_variants(bv.take(i as int), manifest.providers@),
        decreases builtin@.len() - i,
    {
        proof {
            assert(bv.take(i + 1).drop_last() =~= bv.take(i as int));
            assert(bv.take(i + 1).last() == builtin@[i as int]@);
        }
        let ghost before = strings_view(r@);
        match manifest.provider(builtin[i].as_str()) {
            Some(schema) => {
                let mut j: usize = 0;
                while j < schema.variants.len()
                    invariant
                        j <= schema.variants@.len(),
                        strings_view(r@) == before + strings_view(schema.variants@.take(j as int)),
                    decreases schema.variants@.len() - j,
                {
                    let ghost mid = strings_view(r@);
                    let v = schema.variants[j].clone();
                    assert(v@ == schema.variants@[j as int]@);
                    r.push(v);
                    proof {
                        assert(strings_view(r@) =~= mid.push(schema.variants@[j as int]@));
                        assert(strings_view(schema.variants@.take(j + 1)) =~= strings_view(schema.variants@.take(j as int)).push(schema.variants@[j as int]@));
                        assert(strings_view(r@) =~= before + strings_view(schema.variants@.take(j + 1)));
                    }
                    j += 1;
                }
                proof {
                    assert(schema.variants@.take(schema.variants@.len() as int) =~= schema.variants@);
                }
            },
            None => {
                proof {
                    assert(strings_view(r@) =~= before + Seq::<Seq<char>>::empty());
                }
            },
        }
        i += 1;
    }
    proof {
        assert(bv.take(builtin@.len() as int) =~= bv);
    }
    r
}


fn provider_choices_exec(names: &Vec<String>, start: usize, end: usize) -> (r: Vec<CompletionChoice>)
    ensures
        choices_view(r@) == strings_view(names@).map_values(
            |n: Seq<char>| (n + ":"@, Some("provider"@), ChoiceKind::Text, start as int, end as int),
        ),
{
    let mut r: Vec<CompletionChoice> = Vec::new();
    let mut i: usize = 0;
    while i < names.len()
        invariant
            i <= names@.len(),
            choices_view(r@) == strings_view(names@.take(i as int)).map_values(
                |n: Seq<char>| (n + ":"@, Some("provider"@), ChoiceKind::Text, start as int, end as int),
            ),
        decreases names@.len() - i,
    {
        let ghost before = choices_view(r@);
        let mut l = chars_of(names[i].as_str());
        l.push(':');
        let label = string_of(l.as_slice());
        let d = "provider".to_owned();
        proof {
            reveal_strlit(":");
            assert(label@ =~= names@[i as int]@ + ":"@);
        }
        r.push(CompletionChoice { label, detail: Some(d), kind: ChoiceKind::Text, start, end });
        proof {
            assert(choices_view(r@) =~= before.push(
                (names@[i as int]@ + ":"@, Some("provider"@), ChoiceKind::Text, start as int, end as int),
            ));
            assert(strings_view(names@.take(i + 1)) =~= strings_view(names@.take(i as int)).push(names@[i as int]@));
            assert(choices_view(r@) =~= strings_view(names@.take(i + 1)).map_values(
                |n: Seq<char>| (n + ":"@, Some("provider"@), ChoiceKind::Text, start as int, end as int),
            ));
        }
        i += 1;
    }
    proof {
        assert(names@.take(names@.len() as int) =~= names@);
    }
    r
}

fn take_names(v: &Vec<String>, n: usize) -> (r: Vec<String>)
    requires
        n <= v@.len(),
    ensures
        strings_view(r@) == strings_view(v@).take(n as int),
{
    let mut r: Vec<String> = Vec::new();
    let mut i: usize = 0;
    while i < n
        invariant
            n <= v@.len(),
            i <= n,
            strings_view(r@) == strings_view(v@).take(i as int),
        decreases n - i,
    {
        let x = v[i].clone();
        assert(x@ == v@[i as int]@);
        let ghost mid = strings_view(r@);
        r.push(x);
        proof {
            assert(strings_view(r@) =~= mid.push(v@[i as int]@));
            assert(strings_view(r@) =~= strings_view(v@).take(i + 1));
        }
        i += 1;
    }
    r
}

/// `iconify_answer`, computed.
fn iconify_answer_exec(
    typed: &Vec<char>,
    start: usize,
    end: usize,
    builtin: &Vec<String>,
    manifest: &IconManifest,
    cached: &Option<Vec<String>>,
) -> (r: CompletionAnswer)
    requires
        start + utf8_len(typed@) <= usize::MAX,
    ensures
        (choices_view(r.items@), r.is_incomplete, r.as_list) == iconify_answer(
            typed@,
            start as int,
            end as int,
            strings_view(builtin@),
            manifest.providers@,
            names_view(*cached),
        ),
{
    let t = string_of(typed.as_slice());
    match classify(Range { start, end }, t.as_str()) {
        IconifyContext::Provider { range, typed: p } => {
            let mut all = crate::model::clone_strings(builtin);
            let own = manifest.provider_names();
            let ghost b = all@;
            let mut j: usize = 0;
            while j < own.len()
                invariant
                    b == builtin@,
                    j <= own@.len() == manifest.providers@.len(),
                    forall|x: int| 0 <= x < own@.len() ==> #[trigger] own@[x] == manifest.providers@[x].0,
                    strings_view(all@) == strings_view(b) + provider_names_view(manifest.providers@.take(j as int)),
                decreases own@.len() - j,
            {
                let x = own[j].clone();
                assert(x@ == manifest.providers@[j as int].0@);
                let ghost mid = strings_view(all@);
                all.push(x);
                proof {
                    assert(strings_view(all@) =~= mid.push(manifest.providers@[j as int].0@));
                    assert(provider_names_view(manifest.providers@.take(j + 1)) =~= provider_names_view(
                        manifest.providers@.take(j as int),
                    ).push(manifest.providers@[j as int].0@));
                }
                j += 1;
            }
            proof {
                assert(manifest.providers@.take(manifest.providers@.len() as int) =~= manifest.providers@);
            }
            let sorted = sorted_names_exec(&all);
            let pc = chars_of(p.as_str());
            let shown = with_prefix_exec(&sorted, pc.as_slice());
            let items = provider_choices_exec(&shown, range.start, range.end);
            CompletionAnswer { items, is_incomplete: false, as_list: true }
        },
        IconifyContext::Name { provider, range, typed: rest } => {
            let empty: Vec<String> = Vec::new();
            let names = match cached {
                Some(v) => v,
                None => &empty,
            };
            assert(strings_view(names@) == names_view(*cached)) by {
                if cached.is_none() {
                    assert(strings_view(empty@) =~= Seq::<Seq<char>>::empty());
                }
            }
            let rc = chars_of(rest.as_str());
            let matches = with_prefix_exec(names, rc.as_slice());
            let more = matches.len() > 200;
            let shown = if more {
                take_names(&matches, 200)
            } else {
                proof {
                    assert(strings_view(matches@).take(matches@.len() as int) =~= strings_view(matches@));
                }
                take_names(&matches, matches.len())
            };
            let items = plain_choices_exec(&shown, "icon", range.start, range.end);
            CompletionAnswer { items, is_incomplete: more, as_list: true }
        },
    }
}

/// What the language server offers at byte `offset` of a manifest's text
/// (see `completion_spec`), given the built-in provider names, the
/// manifest read from that text, the entries (name, whether a folder) of
/// the directory a path value at the cursor names, and the cached icon
/// names of the provider an `iconify` value at the cursor names.
pub fn completion_answer(
    text: &str,
    offset: usize,
    builtin: &Vec<String>,
    manifest: &IconManifest,
    dir_entries: &Vec<(String, bool)>,
    cached_names: &Option<Vec<String>>,
) -> (r: Option<CompletionAnswer>)
    requires
        utf8_len(text@) <= usize::MAX,
    ensures
        answer_view(r) == completion_spec(
            text@,
            offset as int,
            strings_view(builtin@),
            manifest.providers@,
            dir_view(dir_entries@),
            names_view(*cached_names),
        ),
{
    let s = chars_of(text);
    let offs = byte_offsets(&s);
    let k = match char_index_exec(&s, &offs, offset) {
        Some(k) => k,
        None => return None,
    };
    proof {
        crate::manifest_text::lemma_line_bounds(s@, k as int);
        assert(byte_pos(s@, k as int) == offset);
    }
    let ls = line_start_exec(&s, k);
    let raw = slice_vec(s.as_slice(), ls, k);
    let w = ws_prefix_exec(raw.as_slice());
    proof {
        crate::text::lemma_ws_prefix(raw@);
    }
    let lp = slice_vec(raw.as_slice(), w, raw.len());
    let ws = word_start_exec(&s, k);
    let word = offs[ws];
    proof {
        assert(raw@ == raw_prefix(s@, k as int));
        assert(lp@ =~= line_prefix(s@, k as int));
        assert(word == byte_pos(s@, word_start(s@, k as int)));
    }
    if starts_with_exec(lp.as_slice(), "[") && contains_text_exec(lp.as_slice(), chars_of("providers.").as_slice()) {
        let items = plain_choices_exec(builtin, "built-in provider", word, offset);
        return Some(CompletionAnswer { items, is_incomplete: false, as_list: false });
    }
    match open_value_exec(&raw) {
        Some((key, q)) => {
            let typed = slice_vec(raw.as_slice(), q, raw.len());
            let start = offs[ls + q];
            proof {
                assert(typed@ == raw@.skip(q as int));
                assert(start == byte_pos(s@, ls + q));
            }
            match path_kind_exec(&key) {
                Some(kind) => {
                    let items = path_choices_exec(dir_entries, typed.as_slice(), kind, start, offset);
                    return Some(CompletionAnswer { items, is_incomplete: false, as_list: false });
                },
                None => {},
            }
            let ic = chars_of("iconify");
            if chars_eq(key.as_slice(), ic.as_slice()) {
                proof {
                    assert(s@.take(k as int) =~= s@.take(ls + q) + typed@);
                    crate::text::lemma_utf8_len_concat(s@.take(ls + q), typed@);
                    crate::text::lemma_utf8_len_take_mono(s@, k as int, s@.len() as int);
                    assert(s@.take(s@.len() as int) =~= s@);
                }
                return Some(iconify_answer_exec(&typed, start, offset, builtin, manifest, cached_names));
            }
        },
        None => {},
    }
    if starts_with_exec(lp.as_slice(), "variants.") {
        let vs = builtin_variants_exec(builtin, manifest);
        let sorted = sorted_names_exec(&vs);
        let items = plain_choices_exec(&sorted, "variant", word, offset);
        return Some(CompletionAnswer { items, is_incomplete: false, as_list: false });
    }
    let mut i: usize = 0;
    let mut all_key = true;
    while i < lp.len()
        invariant
            i <= lp@.len(),
            all_key == (forall|j: int| 0 <= j < i ==> is_key_char(#[trigger] lp@[j])),
        decreases lp@.len() - i,
    {
        let c = lp[i];
        if !(char_is_alphanumeric(c) || c == '-' || c == '_') {
            all_key = false;
        }
        i += 1;
    }
    if !all_key {
        return None;
    }
    let kind = section_at_exec(&s, ls);
    let names = field_names_exec(kind);
    let items = plain_choices_exec(&names, "field", word, offset);
    Some(CompletionAnswer { items, is_incomplete: false, as_list: false })
}


/// The key and typed text of the string value the cursor at byte
/// `offset` is inside, outside a `[providers.` header.
pub open spec fn cursor_value(s: Seq<char>, offset: int) -> Option<(Seq<char>, Seq<char>)> {
    if !is_boundary(s, offset) {
        None
    } else {
        let k = char_index(s, offset);
        let lp = line_prefix(s, k);
        if starts_with(lp, "["@) && contains_text(lp, "providers."@) {
            None
        } else {
            match open_value(raw_prefix(s, k)) {
                Some((key, q)) => Some((key, raw_prefix(s, k).skip(q))),
                None => None,
            }
        }
    }
}

/// What `completion_answer` needs read from outside at a cursor: the kind
/// of path value it is in (whose directory the entries come from), and the
/// provider named before the `:` of an `iconify` value it is in (whose
/// cached names are completed).
pub open spec fn completion_inputs_spec(s: Seq<char>, offset: int) -> (Option<PathFieldKind>, Option<Seq<char>>) {
    match cursor_value(s, offset) {
        None => (None, None),
        Some((key, typed)) => match path_kind(key) {
            Some(kind) => (Some(kind), None),
            None => if key == "iconify"@ {
                match find_char(typed, ':') {
                    Some(c) => (None, Some(typed.take(c))),
                    None => (None, None),
                }
            } else {
                (None, None)
            },
        },
    }
}

/// See `completion_inputs_spec`.
pub fn completion_inputs(text: &str, offset: usize) -> (r: (Option<PathFieldKind>, Option<String>))
    requires
        utf8_len(text@) <= usize::MAX,
    ensures
        (r.0, opt_chars(r.1)) == completion_inputs_spec(text@, offset as int),
{
    let s = chars_of(text);
    let offs = byte_offsets(&s);
    let k = match char_index_exec(&s, &offs, offset) {
        Some(k) => k,
        None => return (None, None),
    };
    proof {
        crate::manifest_text::lemma_line_bounds(s@, k as int);
    }
    let ls = line_start_exec(&s, k);
    let raw = slice_vec(s.as_slice(), ls, k);
    let w = ws_prefix_exec(raw.as_slice());
    proof {
        crate::text::lemma_ws_prefix(raw@);
    }
    let lp = slice_vec(raw.as_slice(), w, raw.len());
    proof {
        assert(raw@ == raw_prefix(s@, k as int));
        assert(lp@ =~= line_prefix(s@, k as int));
    }
    if starts_with_exec(lp.as_slice(), "[") && contains_text_exec(lp.as_slice(), chars_of("providers.").as_slice()) {
        return (None, None);
    }
    let (key, q) = match open_value_exec(&raw) {
        Some(x) => x,
        None => return (None, None),
    };
    let typed = slice_vec(raw.as_slice(), q, raw.len());
    proof {
        assert(typed@ == raw@.skip(q as int));
    }
    match path_kind_exec(&key) {
        Some(kind) => return (Some(kind), None),
        None => {},
    }
    let ic = chars_of("iconify");
    if !chars_eq(key.as_slice(), ic.as_slice()) {
        return (None, None);
    }
    match find_char_exec(typed.as_slice(), ':') {
        Some(c) => {
            let p = slice_vec(typed.as_slice(), 0, c);
            proof {
                assert(p@ =~= typed@.take(c as int));
            }
            (None, Some(string_of(p.as_slice())))
        },
        None => (None, None),
    }
}


/// The directory whose entries a path value offers: the manifest's own
/// (`dir`) for `includes`; for a file value the first root `[defaults]`
/// gives against the workspace root `ws`, or `dir` when the text reads as
/// no TOML table or has no `[defaults]`.
pub open spec fn completion_dir_spec(kind: PathFieldKind, s: Seq<char>, ws: Seq<char>, dir: Seq<char>) -> Seq<char> {
    match kind {
        PathFieldKind::Includes => dir,
        PathFieldKind::File => match toml_root(s) {
            Ok(root) => match field(root, "defaults"@) {
                Some(item) => defaults_of(Some(item), ws, dir).roots[0],
                None => dir,
            },
            Err(_) => dir,
        },
    }
}

/// See `completion_dir_spec`.
pub fn completion_dir(kind: PathFieldKind, text: &str, workspace_root: &String, manifest_dir: &String) -> (r: String)
    ensures
        r@ == completion_dir_spec(kind, text@, workspace_root@, manifest_dir@),
{
    if kind == PathFieldKind::Includes {
        return manifest_dir.clone();
    }
    let root = match parse_toml(text) {
        Ok(root) => root,
        Err(_) => return manifest_dir.clone(),
    };
    match get_field(&root, "defaults") {
        Some(item) => {
            let mut issues: Vec<crate::fields::Issue> = Vec::new();
            let d = parse_defaults(Some(item), workspace_root, manifest_dir, &mut issues);
            let ghost dv = defaults_of(Some(*item), workspace_root@, manifest_dir@);
            assert(dv.roots.len() > 0) by {
                match item.value {
                    crate::toml::TomlValue::Table(_) => {},
                    _ => {},
                }
            }
            assert(d@.roots.len() == d.roots@.len());
            let first = d.roots[0].clone();
            assert(first@ == dv.roots[0]);
            first
        },
        None => manifest_dir.clone(),
    }
}


} // verus!
