//! How an entry, a family, a provider or a bare iconify id is described to
//! a reader: the markdown an editor shows on hover, and the one-line
//! source description the IDE bindings hand out.

use crate::fields::strings_view;
use crate::model::{displayed_path, IconEntry, IconEntrySource, IconManifest, ProviderSchema};
use crate::providers::{builtin_provider_names, builtin_view, SchemaView};
use crate::text::{decimal, decimal_exec, find_char, find_char_exec, join, join_exec, push_all, push_str, slice_vec, chars_of, string_of, starts_at, starts_at_exec};
use vstd::prelude::*;

verus! {

/// `` kind `text` ``.
pub open spec fn ticked(kind: Seq<char>, text: Seq<char>) -> Seq<char> {
    kind + " `"@ + text + "`"@
}

/// The one-line description of where an entry's image comes from.
pub open spec fn source_text(m: IconManifest, src: IconEntrySource) -> Seq<char> {
    match src {
        IconEntrySource::File(p) => ticked("file"@, displayed_path(m, p@)),
        IconEntrySource::Iconify(id) => ticked("iconify"@, id@),
        IconEntrySource::Url(u) => ticked("url"@, u@),
        IconEntrySource::Glyph(g) => ticked("glyph"@, g@),
    }
}

fn ticked_exec(kind: &str, text: &str) -> (r: String)
    ensures
        r@ == ticked(kind@, text@),
{
    let mut out: Vec<char> = Vec::new();
    push_str(&mut out, kind);
    push_str(&mut out, " `");
    push_str(&mut out, text);
    push_str(&mut out, "`");
    proof {
        assert(out@ =~= ticked(kind@, text@));
    }
    string_of(out.as_slice())
}

/// Where an entry's image comes from, in words: `` file `icons/a.svg` ``,
/// `` iconify `mdi:home` ``, `` url `...` `` or `` glyph `...` ``; a file is
/// shown the way the manifest displays paths.
pub fn describe_source(source: &IconEntrySource, manifest: &IconManifest) -> (r: String)
    ensures
        r@ == source_text(*manifest, *source),
{
    match source {
        IconEntrySource::File(path) => {
            let shown = manifest.display_path(path.as_str());
            ticked_exec("file", shown.as_str())
        },
        IconEntrySource::Iconify(id) => ticked_exec("iconify", id.as_str()),
        IconEntrySource::Url(url) => ticked_exec("url", url.as_str()),
        IconEntrySource::Glyph(spec) => ticked_exec("glyph", spec.as_str()),
    }
}

/// Hover text for a raw `"provider:name"` iconify literal: a link to the
/// icon's own page on Iconify's site, or a warning when the id lacks the
/// `provider:name` form.
pub open spec fn iconify_hover(id: Seq<char>) -> Seq<char> {
    match find_char(id, ':') {
        Some(i) => "**"@ + id + "** - [view on Iconify](https://icon-sets.iconify.design/"@ + id.take(i) + "/"@
            + id.skip(i + 1) + "/)"@,
        None => "**"@ + id + "** - not in `provider:name` form, will never resolve"@,
    }
}

/// Hover text for a raw `"provider:name"` iconify literal in an `icon!`
/// call: links to the icon's page on Iconify's site rather than restating
/// the id.
pub fn iconify_literal_hover(id: &str) -> (r: String)
    ensures
        r@ == iconify_hover(id@),
{
    let s = chars_of(id);
    let mut out: Vec<char> = Vec::new();
    push_str(&mut out, "**");
    push_str(&mut out, id);
    match find_char_exec(s.as_slice(), ':') {
        Some(i) => {
            let n = s.len();
            push_str(&mut out, "** - [view on Iconify](https://icon-sets.iconify.design/");
            let prefix = slice_vec(s.as_slice(), 0, i);
            push_all(&mut out, prefix.as_slice());
            push_str(&mut out, "/");
            let name = slice_vec(s.as_slice(), i + 1, n);
            push_all(&mut out, name.as_slice());
            push_str(&mut out, "/)");
            proof {
                assert(out@ =~= iconify_hover(id@));
            }
        },
        None => {
            push_str(&mut out, "** - not in `provider:name` form, will never resolve");
            proof {
                assert(out@ =~= iconify_hover(id@));
            }
        },
    }
    string_of(out.as_slice())
}

pub open spec fn entry_head(e: IconEntry) -> Seq<Seq<char>> {
    seq!["**"@ + e.key@ + "**"@, "- family: `"@ + e.family@ + "`"@]
}

pub open spec fn entry_with_variant(e: IconEntry) -> Seq<Seq<char>> {
    match e.variant {
        Some(v) => entry_head(e).push("- variant: `"@ + v@ + "`"@),
        None => entry_head(e),
    }
}

pub open spec fn entry_with_size(e: IconEntry) -> Seq<Seq<char>> {
    match e.size {
        Some(n) => entry_with_variant(e).push("- size: `"@ + decimal(n as nat) + "`"@),
        None => entry_with_variant(e),
    }
}

/// The markdown lines that describe one entry: its key, family, variant and
/// size when it has them, and its source.
pub open spec fn entry_lines(m: IconManifest, e: IconEntry) -> Seq<Seq<char>> {
    entry_with_size(e).push("- source: "@ + source_text(m, e.source))
}

fn wrapped(before: &str, middle: &str, after: &str) -> (r: String)
    ensures
        r@ == before@ + middle@ + after@,
{
    let mut out: Vec<char> = Vec::new();
    push_str(&mut out, before);
    push_str(&mut out, middle);
    push_str(&mut out, after);
    string_of(out.as_slice())
}

/// Key, family, variant, size and source of an entry as markdown lines,
/// shared by the hover on an `icon!` call and the one inside a manifest.
pub fn entry_hover_lines(entry: &IconEntry, manifest: &IconManifest) -> (r: Vec<String>)
    ensures
        r@.map_values(|l: String| l@) == entry_lines(*manifest, *entry),
{
    let mut lines: Vec<String> = Vec::new();
    lines.push(wrapped("**", entry.key.as_str(), "**"));
    lines.push(wrapped("- family: `", entry.family.as_str(), "`"));
    proof {
        assert(lines@.map_values(|l: String| l@) =~= entry_head(*entry));
    }
    if let Some(v) = &entry.variant {
        lines.push(wrapped("- variant: `", v.as_str(), "`"));
    }
    proof {
        assert(lines@.map_values(|l: String| l@) =~= entry_with_variant(*entry));
    }
    if let Some(n) = entry.size {
        let digits = string_of(decimal_exec(n as u64).as_slice());
        lines.push(wrapped("- size: `", digits.as_str(), "`"));
    }
    proof {
        assert(lines@.map_values(|l: String| l@) =~= entry_with_size(*entry));
    }
    let source = describe_source(&entry.source, manifest);
    let mut last: Vec<char> = Vec::new();
    push_str(&mut last, "- source: ");
    push_str(&mut last, source.as_str());
    lines.push(string_of(last.as_slice()));
    proof {
        assert(lines@.map_values(|l: String| l@) =~= entry_lines(*manifest, *entry));
    }
    lines
}

/// The size suffix of a family hover line: ` @ 24`, or nothing.
pub open spec fn size_suffix(size: Option<u16>) -> Seq<char> {
    match size {
        Some(n) => " @ "@ + decimal(n as nat),
        None => Seq::empty(),
    }
}

/// The hover line for one variant of a family.
pub open spec fn family_entry_line(m: IconManifest, e: IconEntry) -> Seq<char> {
    "- `"@ + (match e.variant {
        Some(v) => v@,
        None => "(no variant)"@,
    }) + "`"@ + size_suffix(e.size) + ": "@ + source_text(m, e.source)
}

/// Whether an entry belongs to the family header being hovered: declared
/// in `path`, of `family`, and at `size` when the header names one.
pub open spec fn in_family_header(e: IconEntry, path: Seq<char>, family: Seq<char>, size: Option<u16>) -> bool {
    e.file@ == path && e.family@ == family && (size is None || e.size == size)
}

/// The hover lines of the entries of `es` that a family header covers.
pub open spec fn family_lines(
    m: IconManifest,
    es: Seq<IconEntry>,
    path: Seq<char>,
    family: Seq<char>,
    size: Option<u16>,
) -> Seq<Seq<char>>
    decreases es.len(),
{
    if es.len() == 0 {
        seq![]
    } else {
        let rest = family_lines(m, es.drop_last(), path, family, size);
        if in_family_header(es.last(), path, family, size) {
            rest.push(family_entry_line(m, es.last()))
        } else {
            rest
        }
    }
}

fn family_entry_line_exec(m: &IconManifest, e: &IconEntry) -> (r: String)
    ensures
        r@ == family_entry_line(*m, *e),
{
    let mut out: Vec<char> = Vec::new();
    push_str(&mut out, "- `");
    match &e.variant {
        Some(v) => push_str(&mut out, v.as_str()),
        None => push_str(&mut out, "(no variant)"),
    }
    push_str(&mut out, "`");
    match e.size {
        Some(n) => {
            push_str(&mut out, " @ ");
            let d = decimal_exec(n as u64);
            push_all(&mut out, d.as_slice());
        },
        None => {},
    }
    push_str(&mut out, ": ");
    let src = describe_source(&e.source, m);
    push_str(&mut out, src.as_str());
    proof {
        assert(out@ =~= family_entry_line(*m, *e));
    }
    string_of(out.as_slice())
}

/// Hover lines for a `[family]`/`[family.N]` header of the manifest file
/// `path`: the family's name, then one line per variant declared there
/// (at that size, when the header names one); `None` when no entry
/// matches.
pub fn family_hover_lines(manifest: &IconManifest, path: &str, family: &str, size: Option<u16>) -> (r: Option<
    Vec<String>,
>)
    ensures
        ({
            let lines = family_lines(*manifest, manifest.entries@, path@, family@, size);
            match r {
                Some(v) => lines.len() > 0 && v@.map_values(|l: String| l@) == seq!["**"@ + family@ + "**"@] + lines,
                None => lines.len() == 0,
            }
        }),
{
    let mut out: Vec<String> = Vec::new();
    out.push(wrapped("**", family, "**"));
    let ghost head = seq!["**"@ + family@ + "**"@];
    let mut found = false;
    let wanted_path = path.to_owned();
    let wanted_family = family.to_owned();
    let mut i: usize = 0;
    while i < manifest.entries.len()
        invariant
            wanted_path@ == path@,
            wanted_family@ == family@,
            i <= manifest.entries@.len(),
            out@.map_values(|l: String| l@) == head + family_lines(
                *manifest,
                manifest.entries@.take(i as int),
                path@,
                family@,
                size,
            ),
            found == (family_lines(*manifest, manifest.entries@.take(i as int), path@, family@, size).len() > 0),
        decreases manifest.entries@.len() - i,
    {
        let e = &manifest.entries[i];
        proof {
            assert(manifest.entries@.take(i + 1).drop_last() =~= manifest.entries@.take(i as int));
            assert(manifest.entries@.take(i + 1).last() == manifest.entries@[i as int]);
        }
        let wanted_size = match size {
            Some(n) => e.size == Some(n),
            None => true,
        };
        if e.file == wanted_path && e.family == wanted_family && wanted_size {
            let line = family_entry_line_exec(manifest, e);
            let ghost before = out@.map_values(|l: String| l@);
            out.push(line);
            found = true;
            proof {
                assert(out@.map_values(|l: String| l@) =~= before.push(line@));
            }
        }
        i += 1;
    }
    proof {
        assert(manifest.entries@.take(manifest.entries@.len() as int) =~= manifest.entries@);
    }
    if found {
        Some(out)
    } else {
        None
    }
}

/// Whether `needle` occurs anywhere in `hay`.
pub open spec fn contains_text(hay: Seq<char>, needle: Seq<char>) -> bool {
    exists|i: int| starts_at(hay, i, needle)
}

pub fn contains_text_exec(hay: &[char], needle: &[char]) -> (r: bool)
    ensures
        r == contains_text(hay@, needle@),
{
    let mut i: usize = 0;
    while i < hay.len()
        invariant
            i <= hay@.len(),
            forall|j: int| 0 <= j < i ==> !starts_at(hay@, j, needle@),
        decreases hay@.len() - i,
    {
        if starts_at_exec(hay, i, needle) {
            return true;
        }
        i += 1;
    }
    let last = starts_at_exec(hay, hay.len(), needle);
    proof {
        if !last {
            assert forall|j: int| !starts_at(hay@, j, needle@) by {
                if 0 <= j < i {
                }
            }
        }
    }
    last
}

/// `(none)` for an empty list, else its items joined with `, `.
pub open spec fn listed_or_none(items: Seq<Seq<char>>) -> Seq<char> {
    if items.len() == 0 {
        "(none)"@
    } else {
        join(items, ", "@)
    }
}

/// Where a provider comes from, as the hover says it.
pub open spec fn provider_origin(builtin: bool, overridden: bool) -> Seq<char> {
    if builtin {
        if overridden {
            "built-in provider, overridden in this file"@
        } else {
            "built-in provider"@
        }
    } else {
        "custom provider"@
    }
}

/// Hover text for a provider name in the manifest `text`: whether it is
/// built in (and overridden by a `[providers.<name>.override]` table of
/// this text) or custom, and its variants and sizes.
pub open spec fn provider_hover_text(text: Seq<char>, name: Seq<char>, variants: Seq<Seq<char>>, sizes: Seq<u16>) -> Seq<char> {
    let builtin = builtin_view().map_values(|p: (Seq<char>, SchemaView)| p.0).contains(name);
    let overridden = contains_text(text, "[providers."@ + name + ".override]"@);
    "**"@ + name + "** - "@ + provider_origin(builtin, overridden) + "\n\n- variants: "@ + listed_or_none(variants)
        + "\n- sizes: "@ + listed_or_none(sizes.map_values(|n: u16| decimal(n as nat)))
}

fn listed_or_none_exec(items: &Vec<Vec<char>>) -> (r: Vec<char>)
    ensures
        r@ == listed_or_none(items@.map_values(|p: Vec<char>| p@)),
{
    if items.len() == 0 {
        chars_of("(none)")
    } else {
        let sep = chars_of(", ");
        join_exec(items, sep.as_slice())
    }
}

/// Hover text for a provider named in a manifest (`text` being that
/// manifest's source): built-in or custom, overridden or not, and its
/// variants and sizes.
pub fn provider_hover(text: &str, name: &str, schema: &ProviderSchema) -> (r: String)
    ensures
        r@ == provider_hover_text(text@, name@, strings_view(schema.variants@), schema.sizes@),
{
    let names = builtin_provider_names();
    let wanted = name.to_owned();
    let mut builtin = false;
    let mut i: usize = 0;
    let ghost nv = builtin_view().map_values(|p: (Seq<char>, SchemaView)| p.0);
    while i < names.len()
        invariant
            strings_view(names@) == nv,
            wanted@ == name@,
            i <= names@.len(),
            builtin == (exists|j: int| 0 <= j < i && nv[j] == name@),
        decreases names@.len() - i,
    {
        if names[i] == wanted {
            builtin = true;
        }
        proof {
            assert(nv[i as int] == names@[i as int]@);
        }
        i += 1;
    }
    proof {
        if builtin {
            let j = choose|j: int| 0 <= j < i && nv[j] == name@;
            assert(nv.contains(name@));
        } else {
            assert(!nv.contains(name@));
        }
    }
    let mut pattern: Vec<char> = Vec::new();
    push_str(&mut pattern, "[providers.");
    push_str(&mut pattern, name);
    push_str(&mut pattern, ".override]");
    let hay = chars_of(text);
    let overridden = contains_text_exec(hay.as_slice(), pattern.as_slice());
    let mut out: Vec<char> = Vec::new();
    push_str(&mut out, "**");
    push_str(&mut out, name);
    push_str(&mut out, "** - ");
    if builtin {
        if overridden {
            push_str(&mut out, "built-in provider, overridden in this file");
        } else {
            push_str(&mut out, "built-in provider");
        }
    } else {
        push_str(&mut out, "custom provider");
    }
    push_str(&mut out, "\n\n- variants: ");
    let mut variants: Vec<Vec<char>> = Vec::new();
    let mut k: usize = 0;
    while k < schema.variants.len()
        invariant
            k <= schema.variants@.len(),
            variants@.map_values(|p: Vec<char>| p@) == strings_view(schema.variants@).take(k as int),
        decreases schema.variants@.len() - k,
    {
        let ghost before = variants@.map_values(|p: Vec<char>| p@);
        let item = chars_of(schema.variants[k].as_str());
        variants.push(item);
        proof {
            assert(variants@.map_values(|p: Vec<char>| p@) =~= before.push(item@));
            assert(strings_view(schema.variants@).take(k + 1) =~= strings_view(schema.variants@).take(k as int).push(
                schema.variants@[k as int]@,
            ));
        }
        k += 1;
    }
    proof {
        assert(strings_view(schema.variants@).take(schema.variants@.len() as int) =~= strings_view(schema.variants@));
    }
    let v = listed_or_none_exec(&variants);
    push_all(&mut out, v.as_slice());
    push_str(&mut out, "\n- sizes: ");
    let mut sizes: Vec<Vec<char>> = Vec::new();
    let ghost sv = schema.sizes@.map_values(|n: u16| decimal(n as nat));
    let mut k: usize = 0;
    while k < schema.sizes.len()
        invariant
            k <= schema.sizes@.len(),
            sv == schema.sizes@.map_values(|n: u16| decimal(n as nat)),
            sizes@.map_values(|p: Vec<char>| p@) == sv.take(k as int),
        decreases schema.sizes@.len() - k,
    {
        let ghost before = sizes@.map_values(|p: Vec<char>| p@);
        let item = decimal_exec(schema.sizes[k] as u64);
        sizes.push(item);
        proof {
            assert(sizes@.map_values(|p: Vec<char>| p@) =~= before.push(item@));
            assert(sv.take(k + 1) =~= sv.take(k as int).push(sv[k as int]));
        }
        k += 1;
    }
    proof {
        assert(sv.take(schema.sizes@.len() as int) =~= sv);
    }
    let z = listed_or_none_exec(&sizes);
    push_all(&mut out, z.as_slice());
    proof {
        assert(out@ =~= provider_hover_text(text@, name@, strings_view(schema.variants@), schema.sizes@));
    }
    string_of(out.as_slice())
}

/// Whether entry `e`, declared in file `here`, spans byte `offset`.
pub open spec fn entry_spans(e: IconEntry, here: Seq<char>, offset: int) -> bool {
    e.file@ == here && e.span.start <= offset < e.span.end
}

/// The first entry of the manifest declared in file `here` whose span
/// holds byte `offset`.
pub fn entry_at<'a>(manifest: &'a IconManifest, here: &str, offset: usize) -> (r: Option<&'a IconEntry>)
    ensures
        match r {
            Some(e) => exists|k: int|
                0 <= k < manifest.entries@.len() && manifest.entries@[k] == *e && entry_spans(*e, here@, offset as int)
                    && forall|j: int| 0 <= j < k ==> !entry_spans(#[trigger] manifest.entries@[j], here@, offset as int),
            None => forall|j: int|
                0 <= j < manifest.entries@.len() ==> !entry_spans(#[trigger] manifest.entries@[j], here@, offset as int),
        },
{
    let h = here.to_owned();
    let mut k: usize = 0;
    while k < manifest.entries.len()
        invariant
            h@ == here@,
            k <= manifest.entries@.len(),
            forall|j: int| 0 <= j < k ==> !entry_spans(#[trigger] manifest.entries@[j], here@, offset as int),
        decreases manifest.entries@.len() - k,
    {
        let e = &manifest.entries[k];
        if e.file == h && e.span.start <= offset && offset < e.span.end {
            return Some(e);
        }
        k += 1;
    }
    None
}

} // verus!
