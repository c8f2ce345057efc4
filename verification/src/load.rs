//! Compiling a discovered file graph into one manifest: each file's
//! `[defaults]`, `[providers]` and entries, merged bottom-up, plus the
//! checks that span files.

use crate::fields::{field, issues_view, strings_view, Issue};
use crate::graph::{children_in_order, edge_view, file_at, graph_nodes, graph_wf, include_order, ManifestFile};
use crate::model::{first_index, has_key, lemma_first_index_is, IconEntry, IconManifest};
use crate::parse::{collect_table, defaults_issues, defaults_of, realizes, DefaultsView, EntryContext, EntryPlan};
use crate::providers::{
    lemma_own_providers_win, lemma_resolved_distinct, lookup, names_distinct, provider_decls, provider_decls_issues, resolve_issues, resolved, schemas_view, upsert_all, SchemaView,
};
use crate::text::{chars_of, decimal, decimal_exec, push_all, push_str, string_of};
use crate::toml::{keys_distinct, parse_toml, toml_root, TomlEntry, TomlError, TomlItem, TomlValue};
use std::ops::Range;
use vstd::prelude::*;

verus! {

/// A single problem found while loading a manifest, with the file and the
/// byte span it is about.
#[derive(Debug)]
pub struct ManifestError {
    pub file: String,
    pub span: Option<Range<usize>>,
    pub message: String,
}

/// A problem as plain values: file, span and message.
pub open spec fn error_view(e: ManifestError) -> (Seq<char>, Option<(int, int)>, Seq<char>) {
    (
        e.file@,
        match e.span {
            Some(r) => Some((r.start as int, r.end as int)),
            None => None,
        },
        e.message@,
    )
}

pub open spec fn errors_view(v: Seq<ManifestError>) -> Seq<(Seq<char>, Option<(int, int)>, Seq<char>)> {
    v.map_values(|e: ManifestError| error_view(e))
}

/// The issues of one file as problems of that file.
pub open spec fn issues_in(file: Seq<char>, issues: Seq<(Seq<char>, int, int)>) -> Seq<
    (Seq<char>, Option<(int, int)>, Seq<char>),
> {
    issues.map_values(|i: (Seq<char>, int, int)| (file, Some((i.1, i.2)), i.0))
}

/// How a problem reads: `file:start..end: message`, or `file: message`.
pub open spec fn rendered(e: (Seq<char>, Option<(int, int)>, Seq<char>)) -> Seq<char> {
    match e.1 {
        Some((s, t)) => e.0 + ":"@ + decimal(s as nat) + ".."@ + decimal(t as nat) + ": "@ + e.2,
        None => e.0 + ": "@ + e.2,
    }
}

impl ManifestError {
    /// The problem as one line: `file:start..end: message`, or
    /// `file: message` without a span.
    pub fn render(&self) -> (r: String)
        ensures
            r@ == rendered(error_view(*self)),
    {
        let mut m: Vec<char> = Vec::new();
        push_str(&mut m, self.file.as_str());
        match &self.span {
            Some(span) => {
                push_str(&mut m, ":");
                push_all(&mut m, decimal_exec(span.start as u64).as_slice());
                push_str(&mut m, "..");
                push_all(&mut m, decimal_exec(span.end as u64).as_slice());
                push_str(&mut m, ": ");
            },
            None => {
                push_str(&mut m, ": ");
            },
        }
        push_str(&mut m, self.message.as_str());
        string_of(m.as_slice())
    }
}

/// Appends the issues of `file` as problems of it.
pub fn push_issues(errors: &mut Vec<ManifestError>, file: &String, issues: Vec<Issue>)
    ensures
        errors_view(final(errors)@) == errors_view(old(errors)@) + issues_in(file@, issues_view(issues@)),
        final(errors)@.take(old(errors)@.len() as int) == old(errors)@,
{
    let mut i: usize = 0;
    while i < issues.len()
        invariant
            i <= issues@.len(),
            errors@.take(old(errors)@.len() as int) == old(errors)@,
            errors@.len() >= old(errors)@.len(),
            errors_view(errors@) == errors_view(old(errors)@) + issues_in(file@, issues_view(issues@.take(i as int))),
        decreases issues@.len() - i,
    {
        let ghost prev = errors@;
        let it = &issues[i];
        errors.push(
            ManifestError {
                file: file.clone(),
                span: Some(Range { start: it.start, end: it.end }),
                message: it.message.clone(),
            },
        );
        proof {
            assert(issues_view(issues@.take(i + 1)) =~= issues_view(issues@.take(i as int)).push(issues@[i as int]@));
            assert(errors_view(errors@) =~= errors_view(prev).push(
                (file@, Some((it.start as int, it.end as int)), it.message@),
            ));
            assert(issues_in(file@, issues_view(issues@.take(i + 1))) =~= issues_in(
                file@,
                issues_view(issues@.take(i as int)),
            ).push((file@, Some((it.start as int, it.end as int)), it.message@)));
            assert(errors@.take(old(errors)@.len() as int) =~= prev.take(old(errors)@.len() as int));
        }
        i += 1;
    }
    proof {
        assert(issues@.take(issues@.len() as int) =~= issues@);
    }
}

// Line endings

/// `\r\n` and a bare `\r` both become `\n`.
pub open spec fn normalized(s: Seq<char>) -> Seq<char>
    decreases s.len(),
{
    if s.len() == 0 {
        s
    } else if s[0] == '\r' && s.len() >= 2 && s[1] == '\n' {
        seq!['\n'] + normalized(s.skip(2))
    } else if s[0] == '\r' {
        seq!['\n'] + normalized(s.skip(1))
    } else {
        seq![s[0]] + normalized(s.skip(1))
    }
}

proof fn lemma_normalized_has_no_cr(s: Seq<char>)
    ensures
        forall|i: int| 0 <= i < normalized(s).len() ==> #[trigger] normalized(s)[i] != '\r',
    decreases s.len(),
{
    if s.len() > 0 {
        if s[0] == '\r' && s.len() >= 2 && s[1] == '\n' {
            lemma_normalized_has_no_cr(s.skip(2));
        } else {
            lemma_normalized_has_no_cr(s.skip(1));
        }
        assert forall|i: int| 0 <= i < normalized(s).len() implies #[trigger] normalized(s)[i] != '\r' by {
            if i > 0 {
                if s[0] == '\r' && s.len() >= 2 && s[1] == '\n' {
                    assert(normalized(s)[i] == normalized(s.skip(2))[i - 1]);
                } else {
                    assert(normalized(s)[i] == normalized(s.skip(1))[i - 1]);
                }
            }
        }
    }
}

proof fn lemma_normalized_keeps_plain(s: Seq<char>)
    requires
        forall|i: int| 0 <= i < s.len() ==> #[trigger] s[i] != '\r',
    ensures
        normalized(s) == s,
    decreases s.len(),
{
    if s.len() > 0 {
        assert(s[0] != '\r');
        assert forall|i: int| 0 <= i < s.skip(1).len() implies #[trigger] s.skip(1)[i] != '\r' by {
            assert(s.skip(1)[i] == s[i + 1]);
        }
        lemma_normalized_keeps_plain(s.skip(1));
        assert(seq![s[0]] + s.skip(1) =~= s);
    }
}

/// Normalising line endings a second time changes nothing: text already
/// in the normalised form (an editor's own buffer) is kept as it is.
pub proof fn lemma_normalized_idempotent(s: Seq<char>)
    ensures
        normalized(normalized(s)) == normalized(s),
{
    lemma_normalized_has_no_cr(s);
    lemma_normalized_keeps_plain(normalized(s));
}

/// `\r\n` -> `\n`, and a bare `\r` -> `\n`, so that byte offsets match an
/// editor's own, which always uses bare `\n`.
pub fn normalize_line_endings(content: &str) -> (r: String)
    ensures
        r@ == normalized(content@),
{
    let s = chars_of(content);
    let mut out: Vec<char> = Vec::new();
    let mut i: usize = 0;
    proof {
        assert(s@.skip(0) =~= s@);
        assert(out@ + normalized(s@) =~= normalized(s@));
    }
    while i < s.len()
        invariant
            s@ == content@,
            i <= s@.len(),
            out@ + normalized(s@.skip(i as int)) == normalized(s@),
        decreases s@.len() - i,
    {
        let ghost before = out@;
        let ghost rest = s@.skip(i as int);
        if s[i] == '\r' && i + 1 < s.len() && s[i + 1] == '\n' {
            out.push('\n');
            proof {
                assert(rest.skip(2) =~= s@.skip(i + 2));
                assert(before + (seq!['\n'] + normalized(rest.skip(2))) =~= before.push('\n') + normalized(rest.skip(2)));
            }
            i += 2;
        } else {
            out.push(if s[i] == '\r' { '\n' } else { s[i] });
            proof {
                assert(rest.skip(1) =~= s@.skip(i + 1));
                assert(before + (seq![out@.last()] + normalized(rest.skip(1))) =~= out@ + normalized(rest.skip(1)));
            }
            i += 1;
        }
    }
    proof {
        assert(s@.skip(i as int) =~= Seq::<char>::empty());
        assert(out@ + Seq::<char>::empty() =~= out@);
    }
    string_of(out.as_slice())
}

// `[link]`

/// The includes `[link]` of the root table `root` names, each with the span
/// of its string: none without `[link]`, when it is not a table, or when
/// `includes` is not an array of strings.
pub open spec fn includes_of(root: Seq<TomlEntry>) -> Seq<(Seq<char>, int, int)> {
    match field(root, "link"@) {
        Some(l) => match l.value {
            TomlValue::Table(lt) => match field(lt@, "includes"@) {
                Some(inc) => match inc.value {
                    TomlValue::Array(items) => if crate::fields::text_items_issues(items@).len() == 0 {
                        items@.map_values(
                            |x: TomlItem| (crate::fields::text_of(x).unwrap(), x.start as int, x.end as int),
                        )
                    } else {
                        Seq::empty()
                    },
                    _ => Seq::empty(),
                },
                None => Seq::empty(),
            },
            _ => Seq::empty(),
        },
        None => Seq::empty(),
    }
}

pub open spec fn link_fields() -> Seq<(Seq<char>, crate::fields::FieldKind)> {
    seq![("includes"@, crate::fields::FieldKind::Texts)]
}

/// The issues of `[link]` in the root table `root`.
pub open spec fn link_issues(root: Seq<TomlEntry>) -> Seq<(Seq<char>, int, int)> {
    match field(root, "link"@) {
        Some(l) => match l.value {
            TomlValue::Table(lt) => crate::fields::table_issues(lt@, link_fields(), l.start as int, l.end as int),
            _ => seq![("`[link]` must be a table"@, l.start as int, l.end as int)],
        },
        None => Seq::empty(),
    }
}

pub open spec fn include_view(v: Seq<(String, usize, usize)>) -> Seq<(Seq<char>, int, int)> {
    v.map_values(|x: (String, usize, usize)| (x.0@, x.1 as int, x.2 as int))
}

/// Reads `[link].includes` of a parsed root table: the included paths with
/// their spans, and the issues of `[link]`.
pub fn includes_of_root(root: &Vec<TomlEntry>, issues: &mut Vec<Issue>) -> (r: Vec<(String, usize, usize)>)
    ensures
        include_view(r@) == includes_of(root@),
        issues_view(final(issues)@) == issues_view(old(issues)@) + link_issues(root@),
{
    let mut out: Vec<(String, usize, usize)> = Vec::new();
    let l = match crate::fields::get_field(root, "link") {
        Some(l) => l,
        None => {
            proof {
                assert(include_view(out@) =~= Seq::empty());
                assert(issues_view(issues@) =~= issues_view(old(issues)@) + Seq::empty());
            }
            return out;
        },
    };
    let lt = match &l.value {
        TomlValue::Table(lt) => lt,
        _ => {
            let mut m: Vec<char> = Vec::new();
            push_str(&mut m, "`[link]` must be a table");
            let ghost prev = issues@;
            issues.push(Issue { message: string_of(m.as_slice()), start: l.start, end: l.end });
            proof {
                assert(issues_view(issues@) =~= issues_view(prev) + link_issues(root@));
                assert(include_view(out@) =~= Seq::empty());
            }
            return out;
        },
    };
    let mut fields: Vec<(String, crate::fields::FieldKind)> = Vec::new();
    fields.push(("includes".to_owned(), crate::fields::FieldKind::Texts));
    proof {
        assert(crate::fields::fields_view(fields@) =~= link_fields());
    }
    let values = crate::fields::read_fields(lt, &fields, l.start, l.end, issues);
    proof {
        assert(values@[0]@ == crate::fields::field_view(lt@, "includes"@, crate::fields::FieldKind::Texts));
    }
    let is_ok = match &values[0] {
        crate::fields::FieldValue::Texts(_) => true,
        _ => false,
    };
    if is_ok {
        if let Some(inc) = crate::fields::get_field(lt, "includes") {
            if let TomlValue::Array(items) = &inc.value {
                let mut i: usize = 0;
                while i < items.len()
                    invariant
                        i <= items@.len(),
                        crate::fields::text_items_issues(items@).len() == 0,
                        include_view(out@) == items@.take(i as int).map_values(
                            |x: TomlItem| (crate::fields::text_of(x).unwrap(), x.start as int, x.end as int),
                        ),
                    decreases items@.len() - i,
                {
                    proof {
                        lemma_text_items(items@, i as int);
                    }
                    let ghost prev = out@;
                    if let TomlValue::Str(s) = &items[i].value {
                        let c = s.clone();
                        out.push((c, items[i].start, items[i].end));
                        proof {
                            assert(include_view(out@) =~= include_view(prev).push((s@, items[i as int].start as int, items[i as int].end as int)));
                        }
                    }
                    proof {
                        assert(include_view(out@) =~= items@.take(i + 1).map_values(
                            |x: TomlItem| (crate::fields::text_of(x).unwrap(), x.start as int, x.end as int),
                        ));
                    }
                    i += 1;
                }
                proof {
                    assert(items@.take(items@.len() as int) =~= items@);
                }
            }
        }
    }
    proof {
        if !is_ok {
            assert(include_view(out@) =~= Seq::empty());
        }
    }
    out
}

/// Every item of a string array without issues is a string.
pub proof fn lemma_text_items(items: Seq<TomlItem>, i: int)
    requires
        crate::fields::text_items_issues(items).len() == 0,
        0 <= i < items.len(),
    ensures
        crate::fields::text_of(items[i]) is Some,
    decreases items.len(),
{
    if i < items.len() - 1 {
        assert(items.drop_last()[i] == items[i]);
        lemma_text_items(items.drop_last(), i);
    }
}

/// The problem a TOML syntax error of file `path` gives.
pub open spec fn syntax_error(path: Seq<char>, e: TomlError) -> (Seq<char>, Option<(int, int)>, Seq<char>) {
    (path, Some((e.start as int, e.end as int)), "TOML syntax error: "@ + e.message@)
}

/// Reads `[link].includes` from what parsing file `path` gave: the
/// included paths with their spans, the issues of `[link]` reported; or
/// `None` for text that is no TOML document, the syntax error reported.
pub fn includes_from(path: &String, parsed: &Result<Vec<TomlEntry>, TomlError>, errors: &mut Vec<ManifestError>) -> (r:
    Option<Vec<(String, usize, usize)>>)
    ensures
        match parsed {
            Ok(root) => r matches Some(v) && include_view(v@) == includes_of(root@) && errors_view(final(errors)@)
                == errors_view(old(errors)@) + issues_in(path@, link_issues(root@)),
            Err(e) => r is None && errors_view(final(errors)@) == errors_view(old(errors)@).push(syntax_error(path@, *e)),
        },
        final(errors)@.take(old(errors)@.len() as int) == old(errors)@,
{
    match parsed {
        Ok(root) => {
            let mut issues: Vec<Issue> = Vec::new();
            let includes = includes_of_root(root, &mut issues);
            push_issues(errors, path, issues);
            Some(includes)
        },
        Err(e) => {
            let mut m: Vec<char> = Vec::new();
            push_str(&mut m, "TOML syntax error: ");
            push_str(&mut m, e.message.as_str());
            let ghost prev = errors@;
            errors.push(
                ManifestError {
                    file: path.clone(),
                    span: Some(Range { start: e.start, end: e.end }),
                    message: string_of(m.as_slice()),
                },
            );
            proof {
                assert(errors_view(errors@) =~= errors_view(prev).push(syntax_error(path@, *e)));
                assert(errors@.take(prev.len() as int) =~= prev);
            }
            None
        },
    }
}

/// The problem a TOML syntax error (message, span) of file `path` gives.
pub open spec fn syntax_problem(path: Seq<char>, e: (Seq<char>, int, int)) -> (Seq<char>, Option<(int, int)>, Seq<char>) {
    (path, Some((e.1, e.2)), "TOML syntax error: "@ + e.0)
}

/// Parses a manifest's text just far enough to read `[link].includes`:
/// `None` when the text is no TOML document (the syntax error is reported),
/// else the included paths with their spans, the issues of `[link]`
/// reported.
pub fn extract_includes(path: &String, content: &str, errors: &mut Vec<ManifestError>) -> (r: Option<
    Vec<(String, usize, usize)>,
>)
    ensures
        final(errors)@.len() >= old(errors)@.len(),
        final(errors)@.take(old(errors)@.len() as int) == old(errors)@,
        match toml_root(content@) {
            Ok(root) => r matches Some(v) && include_view(v@) == includes_of(root) && errors_view(final(errors)@)
                == errors_view(old(errors)@) + issues_in(path@, link_issues(root)),
            Err(e) => r is None && errors_view(final(errors)@) == errors_view(old(errors)@).push(syntax_problem(path@, e)),
        },
{
    let parsed = parse_toml(content);
    let r = includes_from(path, &parsed, errors);
    proof {
        assert(errors_view(old(errors)@).len() == old(errors)@.len());
        assert(errors_view(errors@).len() == errors@.len());
    }
    r
}

/// Whether `s` ends with `suffix`.
pub open spec fn ends_with(s: Seq<char>, suffix: Seq<char>) -> bool {
    s.len() >= suffix.len() && s.skip(s.len() - suffix.len()) == suffix
}

/// The directory of a `/`-separated path: everything before its last `/`
/// (`/` itself for a top-level path, empty without any `/`).
pub open spec fn dir_of(p: Seq<char>) -> Seq<char> {
    match last_slash(p) {
        Some(k) => if k == 0 {
            seq!['/']
        } else {
            p.take(k)
        },
        None => Seq::empty(),
    }
}

pub open spec fn last_slash(p: Seq<char>) -> Option<int>
    decreases p.len(),
{
    if p.len() == 0 {
        None
    } else if p.last() == '/' {
        Some(p.len() - 1)
    } else {
        last_slash(p.drop_last())
    }
}

pub proof fn lemma_last_slash(p: Seq<char>)
    ensures
        last_slash(p) matches Some(k) ==> 0 <= k < p.len() && p[k] == '/' && forall|j: int| k < j < p.len() ==> p[j] != '/',
        last_slash(p) is None ==> forall|j: int| 0 <= j < p.len() ==> p[j] != '/',
    decreases p.len(),
{
    if p.len() > 0 && p.last() != '/' {
        lemma_last_slash(p.drop_last());
        assert forall|j: int| 0 <= j < p.len() - 1 implies p[j] == p.drop_last()[j] by {}
        assert(p[p.len() - 1] == p.last());
    }
}

/// The directory of a `/`-separated path.
pub fn dir_of_exec(p: &str) -> (r: String)
    ensures
        r@ == dir_of(p@),
{
    let s = chars_of(p);
    let mut k = s.len();
    proof {
        assert(s@.take(k as int) =~= s@);
    }
    while k > 0 && s[k - 1] != '/'
        invariant
            s@ == p@,
            k <= s@.len(),
            last_slash(s@) == last_slash(s@.take(k as int)),
        decreases k,
    {
        proof {
            assert(s@.take(k as int).drop_last() =~= s@.take(k - 1));
        }
        k -= 1;
    }
    if k == 0 {
        proof {
            assert(s@.take(0) =~= Seq::<char>::empty());
        }
        return String::new();
    }
    proof {
        assert(s@.take(k as int).last() == '/');
    }
    if k == 1 {
        let mut root: Vec<char> = Vec::new();
        root.push('/');
        proof {
            assert(root@ =~= seq!['/']);
        }
        return string_of(root.as_slice());
    }
    string_of(crate::text::slice_vec(s.as_slice(), 0, k - 1).as_slice())
}

/// Where an `includes = [...]` value leads from the including file's
/// directory, or the message for one that names no `.gui.toml` file.
pub fn include_target(base_dir: &str, value: &str) -> (r: Result<String, String>)
    ensures
        match r {
            Ok(p) => ends_with(value@, ".gui.toml"@) && p@ == crate::paths::join_path(base_dir@, value@),
            Err(m) => !ends_with(value@, ".gui.toml"@) && m@ == "`[link]` includes a file that isn't a `.gui.toml` manifest: `"@
                + value@ + "`"@,
        },
{
    let v = chars_of(value);
    let suffix = chars_of(".gui.toml");
    let ok = if v.len() >= suffix.len() {
        let tail = crate::text::slice_vec(v.as_slice(), v.len() - suffix.len(), v.len());
        proof {
            assert(tail@ =~= value@.skip(value@.len() - ".gui.toml"@.len()));
        }
        crate::text::chars_eq(tail.as_slice(), suffix.as_slice())
    } else {
        false
    };
    if ok {
        Ok(crate::paths::join_path_exec(base_dir, value))
    } else {
        let mut m: Vec<char> = Vec::new();
        push_str(&mut m, "`[link]` includes a file that isn't a `.gui.toml` manifest: `");
        push_str(&mut m, value);
        push_str(&mut m, "`");
        Err(string_of(m.as_slice()))
    }
}

/// The message for an include that does not exist.
pub fn missing_include_message(value: &str, resolved: &str) -> (r: String)
    ensures
        r@ == "`[link]` includes a file that doesn't exist: `"@ + value@ + "` (resolved to "@ + resolved@ + ")"@,
{
    let mut m: Vec<char> = Vec::new();
    push_str(&mut m, "`[link]` includes a file that doesn't exist: `");
    push_str(&mut m, value);
    push_str(&mut m, "` (resolved to ");
    push_str(&mut m, resolved);
    push_str(&mut m, ")");
    string_of(m.as_slice())
}

// Ordering entries by key

/// `str` ordering: lexicographic by character.
pub open spec fn key_le(a: Seq<char>, b: Seq<char>) -> bool
    decreases a.len(),
{
    if a.len() == 0 {
        true
    } else if b.len() == 0 {
        false
    } else if a[0] != b[0] {
        a[0] < b[0]
    } else {
        key_le(a.skip(1), b.skip(1))
    }
}

pub proof fn lemma_key_le_total(a: Seq<char>, b: Seq<char>)
    ensures
        key_le(a, b) || key_le(b, a),
    decreases a.len(),
{
    if a.len() > 0 && b.len() > 0 && a[0] == b[0] {
        lemma_key_le_total(a.skip(1), b.skip(1));
    }
}

/// Whether each entry's key is at most the next one's.
pub open spec fn sorted_by_key(v: Seq<IconEntry>) -> bool {
    forall|i: int| 0 <= i < v.len() - 1 ==> key_le((#[trigger] v[i]).key@, v[i + 1].key@)
}

proof fn lemma_key_le_trans(a: Seq<char>, b: Seq<char>, c: Seq<char>)
    requires
        key_le(a, b),
        key_le(b, c),
    ensures
        key_le(a, c),
    decreases a.len(),
{
    if a.len() > 0 && b.len() > 0 && c.len() > 0 && a[0] == b[0] && b[0] == c[0] {
        lemma_key_le_trans(a.skip(1), b.skip(1), c.skip(1));
    }
}

/// Entries sorted by key are in key order pairwise, not only neighbour by
/// neighbour: each key is at most every later one.
pub proof fn lemma_sorted_by_key_pairwise(v: Seq<IconEntry>, i: int, j: int)
    requires
        sorted_by_key(v),
        0 <= i <= j < v.len(),
    ensures
        key_le(v[i].key@, v[j].key@),
    decreases j - i,
{
    if i == j {
        lemma_key_le_refl(v[i].key@);
    } else {
        lemma_sorted_by_key_pairwise(v, i, j - 1);
        assert(key_le(v[j - 1].key@, v[j].key@));
        lemma_key_le_trans(v[i].key@, v[j - 1].key@, v[j].key@);
    }
}

proof fn lemma_key_le_refl(a: Seq<char>)
    ensures
        key_le(a, a),
    decreases a.len(),
{
    if a.len() > 0 {
        lemma_key_le_refl(a.skip(1));
    }
}

pub fn key_le_exec(a: &String, b: &String) -> (r: bool)
    ensures
        r == key_le(a@, b@),
{
    let x = chars_of(a.as_str());
    let y = chars_of(b.as_str());
    let mut i: usize = 0;
    proof {
        assert(a@.skip(0) =~= a@);
        assert(b@.skip(0) =~= b@);
    }
    while i < x.len() && i < y.len() && x[i] == y[i]
        invariant
            x@ == a@,
            y@ == b@,
            i <= x@.len(),
            i <= y@.len(),
            key_le(a@, b@) == key_le(a@.skip(i as int), b@.skip(i as int)),
        decreases x@.len() - i,
    {
        proof {
            assert(a@.skip(i as int).skip(1) =~= a@.skip(i + 1));
            assert(b@.skip(i as int).skip(1) =~= b@.skip(i + 1));
        }
        i += 1;
    }
    if i == x.len() {
        true
    } else if i == y.len() {
        false
    } else {
        x[i] < y[i]
    }
}

proof fn lemma_insert_sorted(before: Seq<IconEntry>, k: int, e: IconEntry)
    requires
        sorted_by_key(before),
        0 <= k <= before.len(),
        k > 0 ==> key_le(before[k - 1].key@, e.key@),
        forall|j: int| k <= j < before.len() ==> !key_le(#[trigger] before[j].key@, e.key@),
    ensures
        sorted_by_key(before.insert(k, e)),
{
    let after = before.insert(k, e);
    assert forall|x: int| 0 <= x < after.len() - 1 implies key_le((#[trigger] after[x]).key@, after[x + 1].key@) by {
        if x + 1 < k {
            assert(after[x] == before[x] && after[x + 1] == before[x + 1]);
        } else if x + 1 == k {
            assert(after[x] == before[x]);
        } else if x == k {
            assert(after[x + 1] == before[x]);
            lemma_key_le_total(before[x].key@, e.key@);
        } else {
            assert(after[x] == before[x - 1] && after[x + 1] == before[x]);
        }
    }
}

/// Where a stable insertion puts an item of key `k` into `r`: just after
/// the last item whose key is at most `k` (at the front if none is).
pub open spec fn insert_pos<T>(r: Seq<T>, key: spec_fn(T) -> Seq<char>, k: Seq<char>) -> int
    decreases r.len(),
{
    if r.len() == 0 {
        0
    } else if key_le(key(r.last()), k) {
        r.len() as int
    } else {
        insert_pos(r.drop_last(), key, k)
    }
}

/// `s` stably sorted by `key`: each item inserted, in order, after every
/// earlier one whose key is at most its own, so items of equal keys keep
/// their order.
pub open spec fn stable_sorted<T>(s: Seq<T>, key: spec_fn(T) -> Seq<char>) -> Seq<T>
    decreases s.len(),
{
    if s.len() == 0 {
        Seq::empty()
    } else {
        let r = stable_sorted(s.drop_last(), key);
        r.insert(insert_pos(r, key, key(s.last())), s.last())
    }
}

pub open spec fn entry_key() -> spec_fn(IconEntry) -> Seq<char> {
    |e: IconEntry| e.key@
}

pub open spec fn plan_key() -> spec_fn((EntryPlan, Seq<char>)) -> Seq<char> {
    |p: (EntryPlan, Seq<char>)| p.0.key
}

proof fn lemma_insert_pos_found<T>(r: Seq<T>, key: spec_fn(T) -> Seq<char>, k: Seq<char>, pos: int)
    requires
        0 <= pos <= r.len(),
        pos > 0 ==> key_le(key(r[pos - 1]), k),
        forall|j: int| pos <= j < r.len() ==> !key_le(#[trigger] key(r[j]), k),
    ensures
        insert_pos(r, key, k) == pos,
        0 <= insert_pos(r, key, k) <= r.len(),
    decreases r.len(),
{
    if pos < r.len() {
        assert(!key_le(key(r[r.len() - 1]), k));
        lemma_insert_pos_found(r.drop_last(), key, k, pos);
    }
}

proof fn lemma_insert_pos_same<A, B>(a: Seq<A>, ka: spec_fn(A) -> Seq<char>, b: Seq<B>, kb: spec_fn(B) -> Seq<char>, k: Seq<char>)
    requires
        a.len() == b.len(),
        forall|i: int| 0 <= i < a.len() ==> #[trigger] ka(a[i]) == kb(b[i]),
    ensures
        insert_pos(a, ka, k) == insert_pos(b, kb, k),
        0 <= insert_pos(a, ka, k) <= a.len(),
    decreases a.len(),
{
    if a.len() > 0 {
        assert(ka(a[a.len() - 1]) == kb(b[b.len() - 1]));
        lemma_insert_pos_same(a.drop_last(), ka, b.drop_last(), kb, k);
    }
}

/// Entries that realize plans one by one, stably sorted by key, realize the
/// plans stably sorted by key: the order depends on the keys alone.
proof fn lemma_realizes_sorted(a: Seq<IconEntry>, p: Seq<(EntryPlan, Seq<char>)>)
    requires
        realizes_each(a, p),
    ensures
        realizes_each(stable_sorted(a, entry_key()), stable_sorted(p, plan_key())),
    decreases a.len(),
{
    if a.len() > 0 {
        let a0 = a.drop_last();
        let p0 = p.drop_last();
        assert(realizes_each(a0, p0)) by {
            assert forall|i: int| 0 <= i < a0.len() implies realizes(#[trigger] a0[i], p0[i].0) && a0[i].file@ == p0[i].1 by {
                assert(a0[i] == a[i] && p0[i] == p[i]);
            }
        }
        lemma_realizes_sorted(a0, p0);
        let sa = stable_sorted(a0, entry_key());
        let sp = stable_sorted(p0, plan_key());
        assert forall|i: int| 0 <= i < sa.len() implies #[trigger] entry_key()(sa[i]) == plan_key()(sp[i]) by {
            assert(realizes(sa[i], sp[i].0));
        }
        assert(realizes(a[a.len() - 1], p[p.len() - 1].0));
        lemma_insert_pos_same(sa, entry_key(), sp, plan_key(), a.last().key@);
        let k = insert_pos(sa, entry_key(), a.last().key@);
        let ra = sa.insert(k, a.last());
        let rp = sp.insert(k, p.last());
        assert(stable_sorted(a, entry_key()) == ra);
        assert(stable_sorted(p, plan_key()) == rp);
        assert forall|i: int| 0 <= i < ra.len() implies realizes(#[trigger] ra[i], rp[i].0) && ra[i].file@ == rp[i].1 by {
            if i < k {
                assert(ra[i] == sa[i] && rp[i] == sp[i]);
            } else if i == k {
                assert(ra[i] == a[a.len() - 1] && rp[i] == p[p.len() - 1]);
            } else {
                assert(ra[i] == sa[i - 1] && rp[i] == sp[i - 1]);
            }
        }
    }
}

/// The entries, stably sorted by key.
pub fn sort_by_key(entries: &Vec<IconEntry>) -> (r: Vec<IconEntry>)
    ensures
        r@ == stable_sorted(entries@, entry_key()),
        r@.to_multiset() == entries@.to_multiset(),
        sorted_by_key(r@),
{
    let mut sorted: Vec<IconEntry> = Vec::new();
    let mut i: usize = 0;
    proof {
        assert(entries@.take(0) =~= Seq::<IconEntry>::empty());
        assert(sorted@ =~= Seq::<IconEntry>::empty());
    }
    while i < entries.len()
        invariant
            i <= entries@.len(),
            sorted@ == stable_sorted(entries@.take(i as int), entry_key()),
            sorted@.to_multiset() == entries@.take(i as int).to_multiset(),
            sorted_by_key(sorted@),
        decreases entries@.len() - i,
    {
        let e = entries[i].clone();
        let mut k: usize = sorted.len();
        while k > 0 && !key_le_exec(&sorted[k - 1].key, &e.key)
            invariant
                k <= sorted@.len(),
                forall|j: int| k <= j < sorted@.len() ==> !key_le(#[trigger] sorted@[j].key@, e.key@),
            decreases k,
        {
            k -= 1;
        }
        let ghost before = sorted@;
        proof {
            lemma_insert_sorted(before, k as int, e);
            lemma_insert_pos_found(before, entry_key(), e.key@, k as int);
            assert(entries@.take(i + 1).drop_last() =~= entries@.take(i as int));
            assert(entries@.take(i + 1).last() == e);
            vstd::seq_lib::to_multiset_insert(before, k as int, e);
            assert(entries@.take(i + 1) =~= entries@.take(i as int).push(e));
            vstd::seq_lib::to_multiset_build(entries@.take(i as int), e);
        }
        sorted.insert(k, e);
        i += 1;
    }
    proof {
        assert(entries@.take(entries@.len() as int) =~= entries@);
    }
    sorted
}

// Keys defined twice

pub open spec fn duplicate_message(key: Seq<char>, first_file: Seq<char>) -> Seq<char> {
    "duplicate icon key `"@ + key + "` - already defined in "@ + first_file
}

/// One problem per entry whose key an earlier entry already has, at that
/// entry, naming the file of the first one.
pub open spec fn duplicate_errors(entries: Seq<IconEntry>) -> Seq<(Seq<char>, Option<(int, int)>, Seq<char>)>
    decreases entries.len(),
{
    if entries.len() == 0 {
        Seq::empty()
    } else {
        let last = entries.last();
        duplicate_errors(entries.drop_last()) + match first_index(entries, has_key(last.key@)) {
            Some(j) => if j < entries.len() - 1 {
                seq![
                    (
                        last.file@,
                        Some((last.span.start as int, last.span.end as int)),
                        duplicate_message(last.key@, entries[j].file@),
                    ),
                ]
            } else {
                Seq::empty()
            },
            None => Seq::empty(),
        }
    }
}

/// Whether no two of `entries` share a key.
pub open spec fn keys_unique(entries: Seq<IconEntry>) -> bool {
    forall|i: int, j: int| 0 <= i < j < entries.len() ==> #[trigger] entries[i].key@ != #[trigger] entries[j].key@
}

/// Entries raise no duplicate-key problem exactly when no two of them
/// share a key.
pub proof fn lemma_no_duplicates_iff_keys_unique(entries: Seq<IconEntry>)
    ensures
        duplicate_errors(entries).len() == 0 <==> keys_unique(entries),
    decreases entries.len(),
{
    if entries.len() > 0 {
        let d = entries.drop_last();
        let n = entries.len() - 1;
        let last = entries.last();
        lemma_no_duplicates_iff_keys_unique(d);
        crate::model::lemma_first_index(entries, has_key(last.key@));
        assert(has_key(last.key@)(entries[n]));
        let fresh = forall|i: int| 0 <= i < n ==> #[trigger] entries[i].key@ != last.key@;
        assert(first_index(entries, has_key(last.key@)) == Some(n) <==> fresh) by {
            match first_index(entries, has_key(last.key@)) {
                Some(j) => {
                    if j < n {
                        assert(entries[j].key@ == last.key@);
                    } else {
                        assert forall|i: int| 0 <= i < n implies #[trigger] entries[i].key@ != last.key@ by {
                            assert(!has_key(last.key@)(entries[i]));
                        }
                    }
                },
                None => {},
            }
        }
        assert(keys_unique(entries) <==> keys_unique(d) && fresh) by {
            if keys_unique(entries) {
                assert forall|i: int, j: int| 0 <= i < j < d.len() implies #[trigger] d[i].key@ != #[trigger] d[j].key@ by {
                    assert(d[i] == entries[i] && d[j] == entries[j]);
                }
                assert forall|i: int| 0 <= i < n implies #[trigger] entries[i].key@ != last.key@ by {
                    assert(entries[i].key@ != entries[n].key@);
                }
            }
            if keys_unique(d) && fresh {
                assert forall|i: int, j: int| 0 <= i < j < entries.len() implies #[trigger] entries[i].key@
                    != #[trigger] entries[j].key@ by {
                    if j < n {
                        assert(d[i] == entries[i] && d[j] == entries[j]);
                    } else {
                        assert(entries[i].key@ != last.key@);
                    }
                }
            }
        }
    }
}

/// The keys of `entries`, as a set.
pub open spec fn key_set(entries: Seq<IconEntry>) -> Set<Seq<char>> {
    entries.map_values(|e: IconEntry| e.key@).to_set()
}

/// There is one duplicate-key problem per entry beyond the first of each
/// key: as many as there are entries, less the number of distinct keys.
pub proof fn lemma_duplicate_count(entries: Seq<IconEntry>)
    ensures
        duplicate_errors(entries).len() + key_set(entries).len() == entries.len(),
    decreases entries.len(),
{
    let keys = entries.map_values(|e: IconEntry| e.key@);
    if entries.len() == 0 {
        assert(keys.to_set() =~= Set::<Seq<char>>::empty());
    } else {
        let d = entries.drop_last();
        let n = entries.len() - 1;
        let last = entries.last();
        lemma_duplicate_count(d);
        let dkeys = d.map_values(|e: IconEntry| e.key@);
        assert(keys =~= dkeys.push(last.key@));
        dkeys.lemma_push_to_set_commute(last.key@);
        vstd::seq_lib::seq_to_set_is_finite(dkeys);
        crate::model::lemma_first_index(entries, has_key(last.key@));
        assert(has_key(last.key@)(entries[n]));
        match first_index(entries, has_key(last.key@)) {
            Some(j) => {
                if j < n {
                    assert(dkeys[j] == last.key@);
                    assert(dkeys.to_set().contains(last.key@));
                    assert(keys.to_set() =~= dkeys.to_set());
                } else {
                    assert(!dkeys.to_set().contains(last.key@)) by {
                        if dkeys.to_set().contains(last.key@) {
                            let k = choose|k: int| 0 <= k < dkeys.len() && dkeys[k] == last.key@;
                            assert(!has_key(last.key@)(entries[k]));
                        }
                    }
                }
            },
            None => {},
        }
    }
}

/// Reports every entry whose key an earlier entry already has - across all
/// the linked files, since entries are only ever concatenated.
pub fn check_duplicate_keys(entries: &Vec<IconEntry>, errors: &mut Vec<ManifestError>)
    ensures
        errors_view(final(errors)@) == errors_view(old(errors)@) + duplicate_errors(entries@),
{
    let mut i: usize = 0;
    while i < entries.len()
        invariant
            i <= entries@.len(),
            errors_view(errors@) == errors_view(old(errors)@) + duplicate_errors(entries@.take(i as int)),
        decreases entries@.len() - i,
    {
        let ghost pre = entries@.take(i + 1);
        proof {
            assert(pre.drop_last() =~= entries@.take(i as int));
            assert(pre.last() == entries@[i as int]);
        }
        let key = &entries[i].key;
        let mut j: usize = 0;
        while j < i && entries[j].key != *key
            invariant
                i < entries@.len(),
                pre == entries@.take(i + 1),
                *key == entries@[i as int].key,
                j <= i,
                forall|m: int| 0 <= m < j ==> !has_key(key@)(#[trigger] pre[m]),
            decreases i - j,
        {
            j += 1;
        }
        proof {
            lemma_first_index_is(pre, has_key(key@), j as int);
            assert(pre[j as int] == entries@[j as int]);
        }
        let ghost prev = errors@;
        if j < i {
            let e = &entries[i];
            let mut m: Vec<char> = Vec::new();
            push_str(&mut m, "duplicate icon key `");
            push_str(&mut m, e.key.as_str());
            push_str(&mut m, "` - already defined in ");
            push_str(&mut m, entries[j].file.as_str());
            errors.push(
                ManifestError {
                    file: e.file.clone(),
                    span: Some(Range { start: e.span.start, end: e.span.end }),
                    message: string_of(m.as_slice()),
                },
            );
            proof {
                assert(errors_view(errors@) =~= errors_view(prev).push(
                    (e.file@, Some((e.span.start as int, e.span.end as int)), duplicate_message(e.key@, entries@[j as int].file@)),
                ));
            }
        }
        proof {
            assert(errors_view(errors@) =~= errors_view(old(errors)@) + duplicate_errors(pre));
        }
        i += 1;
    }
    proof {
        assert(entries@.take(entries@.len() as int) =~= entries@);
    }
}

// Compiling the graph

/// A manifest with nothing but its own path, for a file that could not be
/// read or parsed.
pub fn empty_manifest(manifest_path: &String, source_paths: &Vec<String>) -> (r: IconManifest)
    ensures
        r.manifest_path@ == manifest_path@,
        r.workspace_root@ == dir_of(manifest_path@),
        r.source_paths@ == source_paths@,
        r.entries@.len() == 0,
        r.providers@.len() == 0,
        r.default_paint is None,
{
    IconManifest {
        manifest_path: manifest_path.clone(),
        workspace_root: dir_of_exec(manifest_path.as_str()),
        source_paths: crate::model::clone_strings(source_paths),
        entries: Vec::new(),
        providers: Vec::new(),
        default_paint: None,
    }
}

/// Each file's root table, as plain values: `None` for a file that is
/// empty or could not be parsed.
pub open spec fn docs_view(docs: Seq<Option<Vec<TomlEntry>>>) -> Seq<Option<Seq<TomlEntry>>> {
    docs.map_values(
        |d: Option<Vec<TomlEntry>>|
            match d {
                Some(t) => Some(t@),
                None => None,
            },
    )
}

/// The root table of a file with text `text`: none for an empty text or
/// one that is no TOML document.
pub open spec fn doc_of(text: Seq<char>) -> Option<Seq<TomlEntry>> {
    if text.len() == 0 {
        None
    } else {
        match toml_root(text) {
            Ok(t) => Some(t),
            Err(_) => None,
        }
    }
}

/// Whether `docs` is what parsing each file of `g` gives: one per file,
/// each the root table `doc_of` its text, with no key twice.
pub open spec fn parsed_docs(g: petgraph::graph::Graph<ManifestFile, u32>, docs: Seq<Option<Seq<TomlEntry>>>) -> bool {
    &&& docs.len() == graph_nodes(g).len()
    &&& forall|n: int|
        0 <= n < docs.len() ==> #[trigger] docs[n] == doc_of(graph_nodes(g)[n].1) && (docs[n] matches Some(t)
            ==> keys_distinct(t))
}

/// What compiling a file gives, as plain values: its entries (each as the
/// plan it realizes and the file it is stamped with), its providers, and
/// the problems found on the way.
pub ghost struct Compiled {
    pub entries: Seq<(EntryPlan, Seq<char>)>,
    pub providers: Seq<(Seq<char>, SchemaView)>,
    pub errors: Seq<(Seq<char>, Option<(int, int)>, Seq<char>)>,
}

pub open spec fn nothing_compiled() -> Compiled {
    Compiled { entries: Seq::empty(), providers: Seq::empty(), errors: Seq::empty() }
}

/// The workspace root of file `n`: the one found for it, else its own
/// directory.
pub open spec fn node_root(g: petgraph::graph::Graph<ManifestFile, u32>, n: int) -> Seq<char> {
    if graph_nodes(g)[n].2.len() == 0 {
        dir_of(graph_nodes(g)[n].0)
    } else {
        graph_nodes(g)[n].2
    }
}

/// The `[defaults]` of file `n`, whose root table is `t`.
pub open spec fn node_defaults(g: petgraph::graph::Graph<ManifestFile, u32>, t: Seq<TomlEntry>, n: int) -> DefaultsView {
    defaults_of(field(t, "defaults"@), node_root(g, n), dir_of(graph_nodes(g)[n].0))
}

/// The providers a root table `t` declares itself.
pub open spec fn own_providers(t: Seq<TomlEntry>) -> Seq<(Seq<char>, SchemaView)> {
    resolved(provider_decls(field(t, "providers"@)))
}

/// The problems of a file's `[defaults]` and `[providers.*]`.
pub open spec fn setup_errors(path: Seq<char>, t: Seq<TomlEntry>) -> Seq<(Seq<char>, Option<(int, int)>, Seq<char>)> {
    issues_in(
        path,
        defaults_issues(field(t, "defaults"@)) + provider_decls_issues(field(t, "providers"@)) + resolve_issues(
            provider_decls(field(t, "providers"@)),
        ),
    )
}

/// Compiling file `n` of `g`, whose root tables are `docs`: the files it
/// includes first, in `includes` order, then its own providers over
/// theirs, then its own entries read against all of them.
pub open spec fn compiled(g: petgraph::graph::Graph<ManifestFile, u32>, docs: Seq<Option<Seq<TomlEntry>>>, n: int) -> Compiled
    decreases graph_nodes(g).len() - n, 1int, 0int,
{
    if !(0 <= n < graph_nodes(g).len() && n < docs.len()) || docs[n] is None {
        nothing_compiled()
    } else {
        let t = docs[n].unwrap();
        let path = graph_nodes(g)[n].0;
        let kids = include_order(g, n);
        let before = children_compiled(g, docs, n, kids, kids.len() as int);
        let providers = upsert_all(before.providers, own_providers(t));
        let own = collect_table(
            Seq::empty(),
            t,
            EntryContext { workspace_root: node_root(g, n), defaults: node_defaults(g, t, n), providers },
        );
        Compiled {
            entries: stable_sorted(before.entries + own.0.map_values(|p: EntryPlan| (p, path)), plan_key()),
            providers,
            errors: setup_errors(path, t) + before.errors + issues_in(path, own.1),
        }
    }
}

/// The first `i` of the files `kids` that file `n` includes, compiled and
/// merged in order.
pub open spec fn children_compiled(
    g: petgraph::graph::Graph<ManifestFile, u32>,
    docs: Seq<Option<Seq<TomlEntry>>>,
    n: int,
    kids: Seq<(u32, int)>,
    i: int,
) -> Compiled
    decreases graph_nodes(g).len() - n, 0int, i,
{
    if i <= 0 || i > kids.len() {
        nothing_compiled()
    } else {
        let prev = children_compiled(g, docs, n, kids, i - 1);
        let c = kids[i - 1].1;
        let sub = if n < c < graph_nodes(g).len() {
            compiled(g, docs, c)
        } else {
            nothing_compiled()
        };
        Compiled {
            entries: prev.entries + sub.entries,
            providers: upsert_all(prev.providers, sub.providers),
            errors: prev.errors + sub.errors,
        }
    }
}

/// A file's own provider declarations win over those of the files it
/// includes: compiling it gives every name it declares its own schema, and
/// every other name the schema it had from the included files.
pub proof fn lemma_compiled_own_providers_win(
    g: petgraph::graph::Graph<ManifestFile, u32>,
    docs: Seq<Option<Seq<TomlEntry>>>,
    n: int,
    name: Seq<char>,
)
    requires
        0 <= n < graph_nodes(g).len(),
        n < docs.len(),
        docs[n] is Some,
    ensures
        lookup(compiled(g, docs, n).providers, name) == (match lookup(own_providers(docs[n].unwrap()), name) {
            Some(s) => Some(s),
            None => lookup(
                children_compiled(g, docs, n, include_order(g, n), include_order(g, n).len() as int).providers,
                name,
            ),
        }),
{
    let t = docs[n].unwrap();
    lemma_resolved_distinct(provider_decls(field(t, "providers"@)));
    lemma_own_providers_win(
        children_compiled(g, docs, n, include_order(g, n), include_order(g, n).len() as int).providers,
        own_providers(t),
        name,
    );
}

/// Whether each entry of `pre` realizes the plan at its place and carries
/// its file.
pub open spec fn realizes_each(pre: Seq<IconEntry>, plans: Seq<(EntryPlan, Seq<char>)>) -> bool {
    &&& pre.len() == plans.len()
    &&& forall|i: int| 0 <= i < pre.len() ==> realizes(#[trigger] pre[i], plans[i].0) && pre[i].file@ == plans[i].1
}

proof fn lemma_realizes_concat(a: Seq<IconEntry>, pa: Seq<(EntryPlan, Seq<char>)>, b: Seq<IconEntry>, pb: Seq<(EntryPlan, Seq<char>)>)
    requires
        realizes_each(a, pa),
        realizes_each(b, pb),
    ensures
        realizes_each(a + b, pa + pb),
{
    assert forall|i: int| 0 <= i < (a + b).len() implies realizes(#[trigger] (a + b)[i], (pa + pb)[i].0) && (a
        + b)[i].file@ == (pa + pb)[i].1 by {
        if i < a.len() {
            assert((a + b)[i] == a[i]);
            assert((pa + pb)[i] == pa[i]);
        } else {
            assert((a + b)[i] == b[i - a.len()]);
            assert((pa + pb)[i] == pb[i - a.len()]);
        }
    }
}

/// `e` with its file set to `file`.
pub open spec fn with_file(e: IconEntry, file: String) -> IconEntry {
    IconEntry { file, ..e }
}

/// `entries` with the file of each from `from` on set to `file`.
fn stamp_from(entries: &Vec<IconEntry>, from: usize, file: &String) -> (r: Vec<IconEntry>)
    requires
        from <= entries@.len(),
    ensures
        r@ == entries@.take(from as int) + entries@.skip(from as int).map_values(|e: IconEntry| with_file(e, *file)),
{
    let mut stamped: Vec<IconEntry> = Vec::new();
    let mut m: usize = 0;
    while m < entries.len()
        invariant
            from <= entries@.len(),
            m <= entries@.len(),
            stamped@.len() == m,
            forall|j: int| 0 <= j < m && j < from ==> #[trigger] stamped@[j] == entries@[j],
            forall|j: int| 0 <= j < m && j >= from ==> #[trigger] stamped@[j] == with_file(entries@[j], *file),
        decreases entries@.len() - m,
    {
        let mut e = entries[m].clone();
        if m >= from {
            e.file = file.clone();
        }
        stamped.push(e);
        m += 1;
    }
    proof {
        let want = entries@.take(from as int) + entries@.skip(from as int).map_values(|e: IconEntry| with_file(e, *file));
        assert forall|j: int| 0 <= j < want.len() implies stamped@[j] == want[j] by {
            if j >= from {
                assert(want[j] == entries@.skip(from as int).map_values(|e: IconEntry| with_file(e, *file))[j - from]);
            }
        }
        assert(stamped@ =~= want);
    }
    stamped
}

/// Compiles file `node` of `g`, whose root tables are `docs`: the files it
/// includes are compiled first, in `includes` order, and their entries and
/// providers merged in before the file's own, whose providers replace any
/// of the same name. Entries end sorted by key; no provider is named twice.
#[verifier::rlimit(60)]
#[verifier::spinoff_prover]
pub fn compile_parsed(
    g: &petgraph::graph::Graph<ManifestFile, u32>,
    docs: &Vec<Option<Vec<TomlEntry>>>,
    node: usize,
    source_paths: &Vec<String>,
    errors: &mut Vec<ManifestError>,
) -> (r: IconManifest)
    requires
        graph_wf(*g),
        node < graph_nodes(*g).len(),
        docs@.len() == graph_nodes(*g).len(),
    ensures
        r.manifest_path@ == graph_nodes(*g)[node as int].0,
        r.source_paths@ == source_paths@,
        sorted_by_key(r.entries@),
        realizes_each(r.entries@, compiled(*g, docs_view(docs@), node as int).entries),
        schemas_view(r.providers@) == compiled(*g, docs_view(docs@), node as int).providers,
        names_distinct(schemas_view(r.providers@)),
        errors_view(final(errors)@) == errors_view(old(errors)@) + compiled(*g, docs_view(docs@), node as int).errors,
        r.workspace_root@ == (if docs@[node as int] is None {
            dir_of(graph_nodes(*g)[node as int].0)
        } else {
            node_root(*g, node as int)
        }),
        r.default_paint == (match docs@[node as int] {
            Some(t) => node_defaults(*g, t@, node as int).paint,
            None => None,
        }),
    decreases graph_nodes(*g).len() - node,
{
    let ghost dv = docs_view(docs@);
    let ghost path = graph_nodes(*g)[node as int].0;
    let file = file_at(g, node);
    let root = match &docs[node] {
        None => {
            let r = empty_manifest(&file.path, source_paths);
            proof {
                assert(dv[node as int] is None);
                assert(compiled(*g, dv, node as int) == nothing_compiled());
                assert(realizes_each(Seq::<IconEntry>::empty(), compiled(*g, dv, node as int).entries));
                assert(r.entries@ =~= Seq::<IconEntry>::empty());
                assert(errors_view(errors@) =~= errors_view(old(errors)@) + Seq::empty());
            }
            return r;
        },
        Some(root) => root,
    };
    proof {
        assert(dv[node as int] == Some(root@));
    }
    let manifest_dir = dir_of_exec(file.path.as_str());
    let workspace_root = if file.workspace_root.as_str().is_empty() {
        manifest_dir.clone()
    } else {
        file.workspace_root.clone()
    };
    let mut issues: Vec<Issue> = Vec::new();
    let defaults = crate::parse::parse_defaults(
        crate::fields::get_field(root, "defaults"),
        &workspace_root,
        &manifest_dir,
        &mut issues,
    );
    let decls = crate::providers::parse_providers(crate::fields::get_field(root, "providers"), &mut issues);
    let own = crate::providers::resolve_providers(decls, &mut issues);
    proof {
        assert(issues_view(issues@) =~= defaults_issues(field(root@, "defaults"@)) + provider_decls_issues(
            field(root@, "providers"@),
        ) + resolve_issues(provider_decls(field(root@, "providers"@))));
    }
    push_issues(errors, &file.path, issues);
    let ghost e0 = errors@;

    let children = children_in_order(g, node);
    let ghost kids = edge_view(children@);
    let mut entries: Vec<IconEntry> = Vec::new();
    let mut providers: Vec<(String, crate::model::ProviderSchema)> = Vec::new();
    let mut c: usize = 0;
    proof {
        assert(errors_view(e0) =~= errors_view(e0) + children_compiled(*g, dv, node as int, kids, 0).errors);
        assert(schemas_view(providers@) =~= Seq::empty());
    }
    while c < children.len()
        invariant
            graph_wf(*g),
            node < graph_nodes(*g).len(),
            docs@.len() == graph_nodes(*g).len(),
            dv == docs_view(docs@),
            kids == edge_view(children@),
            kids.to_multiset() == crate::graph::out_edges(crate::graph::graph_edges(*g), node as int).to_multiset(),
            c <= children@.len(),
            names_distinct(schemas_view(providers@)),
            schemas_view(providers@) == children_compiled(*g, dv, node as int, kids, c as int).providers,
            errors_view(errors@) == errors_view(e0) + children_compiled(*g, dv, node as int, kids, c as int).errors,
            realizes_each(entries@, children_compiled(*g, dv, node as int, kids, c as int).entries),
        decreases children@.len() - c,
    {
        let child = children[c].1;
        proof {
            lemma_out_edges_later(*g, node as int, kids, c as int);
            assert(kids[c as int].1 == child as int);
        }
        let ghost errs_before = errors@;
        let sub = compile_parsed(g, docs, child, source_paths, errors);
        let ghost sub_plans = compiled(*g, dv, child as int).entries;
        let ghost before = entries@;
        let mut k: usize = 0;
        while k < sub.entries.len()
            invariant
                k <= sub.entries@.len(),
                entries@ == before + sub.entries@.take(k as int),
            decreases sub.entries@.len() - k,
        {
            entries.push(sub.entries[k].clone());
            proof {
                assert(sub.entries@.take(k + 1) =~= sub.entries@.take(k as int).push(sub.entries@[k as int]));
            }
            k += 1;
        }
        proof {
            assert(sub.entries@.take(sub.entries@.len() as int) =~= sub.entries@);
            lemma_realizes_concat(before, children_compiled(*g, dv, node as int, kids, c as int).entries, sub.entries@, sub_plans);
        }
        crate::providers::merge_providers(&mut providers, &sub.providers);
        proof {
            assert(errors_view(errors@) =~= errors_view(e0) + children_compiled(*g, dv, node as int, kids, c + 1).errors);
        }
        c += 1;
    }
    crate::providers::merge_providers(&mut providers, &own);
    let ghost cc = children_compiled(*g, dv, node as int, kids, kids.len() as int);
    let own_start = entries.len();
    let ghost before_own = entries@;
    let mut issues: Vec<Issue> = Vec::new();
    let no_path: Vec<String> = Vec::new();
    proof {
        assert(strings_view(no_path@) =~= Seq::<Seq<char>>::empty());
    }
    crate::parse::collect_entries(&no_path, root, &workspace_root, &defaults, &providers, &mut issues, &mut entries);
    let ghost own_plans = collect_table(
        Seq::empty(),
        root@,
        EntryContext { workspace_root: node_root(*g, node as int), defaults: node_defaults(*g, root@, node as int), providers: schemas_view(providers@) },
    );
    proof {
        assert(crate::parse::context(workspace_root, defaults, providers@) == EntryContext {
            workspace_root: node_root(*g, node as int),
            defaults: node_defaults(*g, root@, node as int),
            providers: schemas_view(providers@),
        });
        assert(issues_view(issues@) =~= own_plans.1);
    }
    push_issues(errors, &file.path, issues);
    let stamped = stamp_from(&entries, own_start, &file.path);
    let ghost own_part = stamped@.skip(own_start as int);
    proof {
        let plans_own = own_plans.0.map_values(|p: EntryPlan| (p, path));
        assert(realizes_each(own_part, plans_own)) by {
            assert forall|i: int| 0 <= i < own_part.len() implies realizes(#[trigger] own_part[i], plans_own[i].0) && own_part[i].file@ == plans_own[i].1 by {
                assert(own_part[i] == stamped@[own_start + i]);
                assert(entries@[before_own.len() + i] == entries@[own_start + i]);
                assert(realizes(entries@[before_own.len() + i], own_plans.0[i]));
            }
        }
        assert(stamped@.take(own_start as int) =~= before_own);
        assert(stamped@ =~= before_own + own_part);
        lemma_realizes_concat(before_own, cc.entries, own_part, plans_own);
        lemma_realizes_sorted(stamped@, cc.entries + plans_own);
        assert(compiled(*g, dv, node as int).entries == stable_sorted(cc.entries + plans_own, plan_key()));
    }
    let sorted = sort_by_key(&stamped);
    IconManifest {
        manifest_path: file.path.clone(),
        workspace_root,
        source_paths: crate::model::clone_strings(source_paths),
        entries: sorted,
        providers,
        default_paint: defaults.paint,
    }
}

/// Each file's root table: `None` for a file that is empty or could not be
/// parsed.
pub fn parse_files(g: &petgraph::graph::Graph<ManifestFile, u32>) -> (r: Vec<Option<Vec<TomlEntry>>>)
    ensures
        parsed_docs(*g, docs_view(r@)),
{
    let count = crate::graph::file_count(g);
    let mut docs: Vec<Option<Vec<TomlEntry>>> = Vec::new();
    let mut i: usize = 0;
    while i < count
        invariant
            count == graph_nodes(*g).len(),
            i <= count,
            docs@.len() == i,
            forall|n: int|
                0 <= n < i ==> match #[trigger] docs@[n] {
                    Some(t) => doc_of(graph_nodes(*g)[n].1) == Some(t@) && keys_distinct(t@),
                    None => doc_of(graph_nodes(*g)[n].1) is None,
                },
        decreases count - i,
    {
        let file = file_at(g, i);
        if file.content.as_str().is_empty() {
            docs.push(None);
        } else {
            match parse_toml(file.content.as_str()) {
                Ok(t) => docs.push(Some(t)),
                Err(_) => docs.push(None),
            }
        }
        i += 1;
    }
    proof {
        let dv = docs_view(docs@);
        assert forall|n: int| 0 <= n < dv.len() implies #[trigger] dv[n] == doc_of(graph_nodes(*g)[n].1) && (dv[n] matches Some(t)
            ==> keys_distinct(t)) by {
            assert(dv[n] == match docs@[n] {
                Some(t) => Some(t@),
                None => None,
            });
        }
    }
    docs
}

/// Compiles file `node` of `g` from every file's parsed text, as
/// `compile_parsed` states for what parsing gave.
pub fn compile(
    g: &petgraph::graph::Graph<ManifestFile, u32>,
    node: usize,
    source_paths: &Vec<String>,
    errors: &mut Vec<ManifestError>,
) -> (r: IconManifest)
    requires
        graph_wf(*g),
        node < graph_nodes(*g).len(),
    ensures
        r.manifest_path@ == graph_nodes(*g)[node as int].0,
        r.source_paths@ == source_paths@,
        sorted_by_key(r.entries@),
        names_distinct(schemas_view(r.providers@)),
        exists|d: Seq<Option<Seq<TomlEntry>>>|
            #[trigger] parsed_docs(*g, d) && realizes_each(r.entries@, compiled(*g, d, node as int).entries)
                && schemas_view(r.providers@) == compiled(*g, d, node as int).providers && errors_view(final(errors)@)
                == errors_view(old(errors)@) + compiled(*g, d, node as int).errors,
{
    let docs = parse_files(g);
    let r = compile_parsed(g, &docs, node, source_paths, errors);
    proof {
        assert(parsed_docs(*g, docs_view(docs@)));
    }
    r
}

/// An out-edge of `node` leads to a later node.
proof fn lemma_out_edges_later(
    g: petgraph::graph::Graph<ManifestFile, u32>,
    node: int,
    children: Seq<(u32, int)>,
    c: int,
)
    requires
        graph_wf(g),
        children.to_multiset() == crate::graph::out_edges(crate::graph::graph_edges(g), node).to_multiset(),
        0 <= c < children.len(),
    ensures
        node < children[c].1 < graph_nodes(g).len(),
{
    let edges = crate::graph::graph_edges(g);
    assert(children.to_multiset().count(children[c]) > 0) by {
        vstd::seq_lib::to_multiset_contains(children, children[c]);
    }
    vstd::seq_lib::to_multiset_contains(crate::graph::out_edges(edges, node), children[c]);
    lemma_out_edge_source(edges, node, children[c], graph_nodes(g).len() as int);
}

proof fn lemma_out_edge_source(edges: Seq<(int, int, u32)>, node: int, e: (u32, int), n: int)
    requires
        crate::graph::out_edges(edges, node).contains(e),
        forall|i: int| 0 <= i < edges.len() ==> 0 <= (#[trigger] edges[i]).0 < edges[i].1 < n,
    ensures
        node < e.1 < n,
    decreases edges.len(),
{
    let rest = crate::graph::out_edges(edges.drop_last(), node);
    assert forall|i: int| 0 <= i < edges.drop_last().len() implies 0 <= (#[trigger] edges.drop_last()[i]).0 < edges.drop_last()[i].1 < n by {
        assert(edges.drop_last()[i] == edges[i]);
    }
    if edges.last().0 == node && e == (edges.last().2, edges.last().1) {
        assert(edges[edges.len() - 1] == edges.last());
    } else if rest.contains(e) {
        lemma_out_edge_source(edges.drop_last(), node, e, n);
    } else {
        if edges.last().0 == node {
            let j = choose|j: int| 0 <= j < rest.push((edges.last().2, edges.last().1)).len() && rest.push((edges.last().2, edges.last().1))[j] == e;
            if j < rest.len() {
                assert(rest[j] == e);
            }
        }
    }
}

/// Compiles the file graph from `root` and checks keys across every file:
/// the manifest, and every problem found (those found while discovering
/// the graph are the caller's). A graph with an edge that does not lead to
/// a later file, or a root it does not have, gives an empty manifest.
pub fn load_from_graph(
    g: &petgraph::graph::Graph<ManifestFile, u32>,
    root: usize,
    manifest_path: &String,
    errors: &mut Vec<ManifestError>,
) -> (r: IconManifest)
    ensures
        strings_view(r.source_paths@) == graph_nodes(*g).map_values(|f: (Seq<char>, Seq<char>, Seq<char>)| f.0),
        graph_wf(*g) && root < graph_nodes(*g).len() ==> {
            &&& r.manifest_path@ == graph_nodes(*g)[root as int].0
            &&& sorted_by_key(r.entries@)
            &&& names_distinct(schemas_view(r.providers@))
            &&& exists|d: Seq<Option<Seq<TomlEntry>>>|
                #[trigger] parsed_docs(*g, d) && realizes_each(r.entries@, compiled(*g, d, root as int).entries)
                    && schemas_view(r.providers@) == compiled(*g, d, root as int).providers && errors_view(
                    final(errors)@,
                ) == errors_view(old(errors)@) + compiled(*g, d, root as int).errors + duplicate_errors(r.entries@)
        },
        !(graph_wf(*g) && root < graph_nodes(*g).len()) ==> {
            &&& r.manifest_path@ == manifest_path@
            &&& r.entries@.len() == 0
            &&& r.providers@.len() == 0
            &&& errors_view(final(errors)@) == errors_view(old(errors)@)
        },
{
    let count = crate::graph::file_count(g);
    let mut source_paths: Vec<String> = Vec::new();
    let mut i: usize = 0;
    while i < count
        invariant
            count == graph_nodes(*g).len(),
            i <= count,
            strings_view(source_paths@) == graph_nodes(*g).take(i as int).map_values(
                |f: (Seq<char>, Seq<char>, Seq<char>)| f.0,
            ),
        decreases count - i,
    {
        let ghost prev = source_paths@;
        source_paths.push(file_at(g, i).path.clone());
        proof {
            assert(graph_nodes(*g).take(i + 1) =~= graph_nodes(*g).take(i as int).push(graph_nodes(*g)[i as int]));
            assert(strings_view(source_paths@) =~= strings_view(prev).push(graph_nodes(*g)[i as int].0));
            assert(graph_nodes(*g).take(i + 1).map_values(|f: (Seq<char>, Seq<char>, Seq<char>)| f.0) =~= graph_nodes(
                *g,
            ).take(i as int).map_values(|f: (Seq<char>, Seq<char>, Seq<char>)| f.0).push(graph_nodes(*g)[i as int].0));
        }
        i += 1;
    }
    proof {
        assert(graph_nodes(*g).take(count as int) =~= graph_nodes(*g));
    }
    if !crate::graph::check_graph(g) || root >= count {
        return empty_manifest(manifest_path, &source_paths);
    }
    let ghost e0 = errors@;
    let manifest = compile(g, root, &source_paths, errors);
    let ghost d = choose|d: Seq<Option<Seq<TomlEntry>>>|
        #[trigger] parsed_docs(*g, d) && realizes_each(manifest.entries@, compiled(*g, d, root as int).entries)
            && schemas_view(manifest.providers@) == compiled(*g, d, root as int).providers && errors_view(errors@)
            == errors_view(e0) + compiled(*g, d, root as int).errors;
    check_duplicate_keys(&manifest.entries, errors);
    proof {
        assert(parsed_docs(*g, d));
    }
    manifest
}

} // verus!
