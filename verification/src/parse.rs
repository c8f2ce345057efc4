//! Turns one manifest document's tables into icon entries, defaults and
//! provider declarations, reporting every problem found.

use crate::fields::{
    field, field_view, issues_view, read_fields, strings_view, table_issues, FieldKind, FieldValue, FieldView,
    Issue,
};
use crate::model::{first_index, named, paint_colors, IconEntry, IconEntrySource, IconManifest, Paint, ProviderSchema, ThemePaint};
use crate::paths::{file_candidate, join_path, join_path_exec, resolve_file_from_roots};
use crate::text::{
    chars_of, decimal, decimal_exec, find_char, find_char_exec, join, join_exec, parse_u16, parse_u16_exec,
    push_all, push_str, slice_vec, split_on, string_of, free_of,
};
use crate::toml::{TomlEntry, TomlItem, TomlValue};
use crate::providers::{lemma_first_index_view, named_view, schemas_view, SchemaView};
use std::ops::Range;
use vstd::prelude::*;

verus! {

/// What a manifest's `[defaults]` table gives every entry.
#[derive(Debug)]
pub struct ManifestDefaults {
    pub roots: Vec<String>,
    pub provider: Option<String>,
    pub size: Option<u16>,
    pub paint: Option<Paint>,
}

/// The view of the defaults.
pub ghost struct DefaultsView {
    pub roots: Seq<Seq<char>>,
    pub provider: Option<Seq<char>>,
    pub size: Option<u16>,
    pub paint: Option<Paint>,
}

impl View for ManifestDefaults {
    type V = DefaultsView;

    open spec fn view(&self) -> DefaultsView {
        DefaultsView {
            roots: strings_view(self.roots@),
            provider: match self.provider {
                Some(p) => Some(p@),
                None => None,
            },
            size: self.size,
            paint: self.paint,
        }
    }
}

/// The fields an entry table may hold, in the order they are read.
pub open spec fn entry_fields() -> Seq<(Seq<char>, FieldKind)> {
    seq![
        ("root"@, FieldKind::Text),
        ("file"@, FieldKind::Text),
        ("iconify"@, FieldKind::Text),
        ("url"@, FieldKind::Text),
        ("glyph"@, FieldKind::Text),
        ("windows-ico"@, FieldKind::Text),
        ("dynamic"@, FieldKind::Flag),
        ("paint"@, FieldKind::PaintValue),
    ]
}

/// The keys that make a table an entry rather than a group.
pub open spec fn is_entry_key(k: Seq<char>) -> bool {
    k == "file"@ || k == "iconify"@ || k == "url"@ || k == "glyph"@ || k == "windows-ico"@ || k == "dynamic"@
        || k == "root"@
}

pub open spec fn text_field(t: Seq<TomlEntry>, name: Seq<char>) -> Option<Seq<char>> {
    match field_view(t, name, FieldKind::Text) {
        FieldView::Text(s) => Some(s),
        _ => None,
    }
}

pub open spec fn paint_field(t: Seq<TomlEntry>, name: Seq<char>) -> Option<Paint> {
    match field_view(t, name, FieldKind::PaintValue) {
        FieldView::Painted(p) => Some(p),
        _ => None,
    }
}

pub open spec fn has_field(t: Seq<TomlEntry>, name: Seq<char>) -> bool {
    field(t, name) is Some
}

/// `path.join("-")`.
pub open spec fn dashed(path: Seq<Seq<char>>) -> Seq<char> {
    join(path, "-"@)
}

/// A trailing numeric path segment is a size, not part of the family.
pub open spec fn family_and_size(path: Seq<Seq<char>>) -> (Seq<char>, Option<u16>) {
    if path.len() > 0 && parse_u16(path.last()) is Some {
        (dashed(path.drop_last()), parse_u16(path.last()))
    } else {
        (dashed(path), None)
    }
}

/// The iconify id an entry gets from `defaults.provider`:
/// `provider:family[-size][-variant]`.
pub open spec fn default_iconify_id(
    family: Seq<char>,
    variant: Option<Seq<char>>,
    size: Option<u16>,
    provider: Option<Seq<char>>,
) -> Option<Seq<char>> {
    match provider {
        None => None,
        Some(p) => {
            let with_size = match size {
                Some(n) => family + "-"@ + decimal(n as nat),
                None => family,
            };
            let name = match variant {
                Some(v) => with_size + "-"@ + v,
                None => with_size,
            };
            Some(p + ":"@ + name)
        },
    }
}

pub open spec fn bool_count(b: bool) -> nat {
    if b {
        1
    } else {
        0
    }
}

/// How many sources an entry table gives, the default iconify id included.
pub open spec fn source_count(t: Seq<TomlEntry>, default_id: Option<Seq<char>>) -> nat {
    bool_count(has_field(t, "file"@)) + bool_count(has_field(t, "iconify"@)) + bool_count(has_field(t, "url"@))
        + bool_count(has_field(t, "glyph"@)) + bool_count(default_id is Some)
}

/// The message for an entry without exactly one source.
pub open spec fn source_count_error(key: Seq<char>, count: nat) -> Seq<char> {
    "icon manifest entry `"@ + key + "` must define exactly one source (file/iconify/url/glyph), found "@
        + decimal(count)
}

/// Where an entry's image comes from, before its file is looked up.
pub ghost enum SourcePlan {
    File(Seq<char>),
    Iconify(Seq<char>),
    Url(Seq<char>),
    Glyph(Seq<char>),
}

/// An entry as the manifest states it: everything but where on disk its
/// files are found among `roots`.
pub ghost struct EntryPlan {
    pub key: Seq<char>,
    pub family: Seq<char>,
    pub variant: Option<Seq<char>>,
    pub size: Option<u16>,
    pub roots: Seq<Seq<char>>,
    pub source: SourcePlan,
    pub dynamic: bool,
    pub windows_ico: Option<Seq<char>>,
    pub paint: Option<ThemePaint>,
    pub start: int,
    pub end: int,
}

/// Everything a manifest file's entries are read against.
pub ghost struct EntryContext {
    pub workspace_root: Seq<char>,
    pub defaults: DefaultsView,
    pub providers: Seq<(Seq<char>, SchemaView)>,
}

/// The paint the provider of an iconify source declares.
pub open spec fn provider_paint(source: SourcePlan, providers: Seq<(Seq<char>, SchemaView)>) -> Option<Paint> {
    match source {
        SourcePlan::Iconify(id) => match find_char(id, ':') {
            Some(k) => match first_index(providers, named_view(id.take(k))) {
                Some(i) => providers[i].1.paint,
                None => None,
            },
            None => None,
        },
        _ => None,
    }
}

pub open spec fn or_else<T>(a: Option<T>, b: Option<T>) -> Option<T> {
    match a {
        Some(x) => Some(x),
        None => b,
    }
}

pub open spec fn unknown_provider_error(key: Seq<char>, provider: Seq<char>) -> Seq<char> {
    "icon manifest entry `"@ + key + "` builds its iconify id from `defaults.provider` `"@ + provider
        + "`, which isn't a known provider"@
}

pub open spec fn unknown_variant_error(key: Seq<char>, variant: Seq<char>, provider: Seq<char>) -> Seq<char> {
    "icon manifest entry `"@ + key + "`: variant `"@ + variant + "` isn't one of provider `"@ + provider
        + "`'s variants"@
}

pub open spec fn unknown_size_error(key: Seq<char>, size: u16, provider: Seq<char>) -> Seq<char> {
    "icon manifest entry `"@ + key + "`: size `"@ + decimal(size as nat) + "` isn't one of provider `"@ + provider
        + "`'s sizes"@
}

pub open spec fn glyph_entry_error(key: Seq<char>, glyph: Seq<char>) -> Seq<char> {
    "icon manifest entry `"@ + key + "`: "@ + crate::glyph::glyph_error(glyph)
}

/// The issues of an entry's one source: an iconify id built from
/// `defaults.provider` must name a known provider, and its variant and
/// size must be among that provider's; a glyph spec must name a glyph.
pub open spec fn source_issues(
    key: Seq<char>,
    variant: Option<Seq<char>>,
    size: Option<u16>,
    t: Seq<TomlEntry>,
    start: int,
    end: int,
    ctx: EntryContext,
    default_id: Option<Seq<char>>,
) -> Seq<(Seq<char>, int, int)> {
    if default_id is Some {
        let p = ctx.defaults.provider.unwrap();
        match first_index(ctx.providers, named_view(p)) {
            None => seq![(unknown_provider_error(key, p), start, end)],
            Some(i) => {
                let schema = ctx.providers[i].1;
                (match variant {
                    Some(v) => if schema.variants.contains(v) {
                        Seq::empty()
                    } else {
                        seq![(unknown_variant_error(key, v, p), start, end)]
                    },
                    None => Seq::empty(),
                }) + (match size {
                    Some(n) => if schema.sizes.contains(n) {
                        Seq::empty()
                    } else {
                        seq![(unknown_size_error(key, n, p), start, end)]
                    },
                    None => Seq::empty(),
                })
            },
        }
    } else if has_field(t, "glyph"@) && crate::glyph::glyph_parts(text_field(t, "glyph"@).unwrap()) is None {
        seq![(glyph_entry_error(key, text_field(t, "glyph"@).unwrap()), start, end)]
    } else {
        Seq::empty()
    }
}

/// The entry table `t`, spanning `start..end`, read as the entry `key` of
/// `family` and `variant`, or `None` if it has any issue.
pub open spec fn entry_plan(
    key: Seq<char>,
    family: Seq<char>,
    variant: Option<Seq<char>>,
    t: Seq<TomlEntry>,
    start: int,
    end: int,
    ctx: EntryContext,
    explicit_size: Option<u16>,
    inherited_paint: Option<Paint>,
) -> Option<EntryPlan> {
    if table_issues(t, entry_fields(), start, end).len() > 0 {
        None
    } else {
        let size = or_else(explicit_size, ctx.defaults.size);
        let default_id = if has_field(t, "iconify"@) {
            None
        } else {
            default_iconify_id(family, variant, size, ctx.defaults.provider)
        };
        if source_count(t, default_id) != 1 {
            None
        } else if source_issues(key, variant, size, t, start, end, ctx, default_id).len() > 0 {
            None
        } else {
            let roots = match text_field(t, "root"@) {
                Some(r) => seq![join_path(ctx.workspace_root, r)],
                None => ctx.defaults.roots,
            };
            let source = if has_field(t, "file"@) {
                SourcePlan::File(text_field(t, "file"@).unwrap())
            } else if has_field(t, "iconify"@) {
                SourcePlan::Iconify(text_field(t, "iconify"@).unwrap())
            } else if default_id is Some {
                SourcePlan::Iconify(default_id.unwrap())
            } else if has_field(t, "url"@) {
                SourcePlan::Url(text_field(t, "url"@).unwrap())
            } else {
                SourcePlan::Glyph(text_field(t, "glyph"@).unwrap())
            };
            let chosen = or_else(
                paint_field(t, "paint"@),
                or_else(inherited_paint, or_else(provider_paint(source, ctx.providers), ctx.defaults.paint)),
            );
            Some(
                EntryPlan {
                    key,
                    family,
                    variant,
                    size,
                    roots,
                    source,
                    dynamic: field_view(t, "dynamic"@, FieldKind::Flag) == FieldView::Flag(true),
                    windows_ico: text_field(t, "windows-ico"@),
                    paint: match chosen {
                        Some(p) => paint_colors(p),
                        None => None,
                    },
                    start,
                    end,
                },
            )
        }
    }
}

/// The issues of reading the entry table `t`.
pub open spec fn entry_issues(
    key: Seq<char>,
    family: Seq<char>,
    variant: Option<Seq<char>>,
    t: Seq<TomlEntry>,
    start: int,
    end: int,
    ctx: EntryContext,
    explicit_size: Option<u16>,
) -> Seq<(Seq<char>, int, int)> {
    let fields = table_issues(t, entry_fields(), start, end);
    if fields.len() > 0 {
        fields
    } else {
        let size = or_else(explicit_size, ctx.defaults.size);
        let default_id = if has_field(t, "iconify"@) {
            None
        } else {
            default_iconify_id(family, variant, size, ctx.defaults.provider)
        };
        let count = source_count(t, default_id);
        if count != 1 {
            seq![(source_count_error(key, count), start, end)]
        } else {
            source_issues(key, variant, size, t, start, end, ctx, default_id)
        }
    }
}

pub open spec fn opt_view(s: Option<String>) -> Option<Seq<char>> {
    match s {
        Some(v) => Some(v@),
        None => None,
    }
}

/// The default iconify id an entry table would build: none when it names
/// `iconify` itself.
pub open spec fn entry_default_id(
    family: Seq<char>,
    variant: Option<Seq<char>>,
    t: Seq<TomlEntry>,
    ctx: EntryContext,
    explicit_size: Option<u16>,
) -> Option<Seq<char>> {
    if has_field(t, "iconify"@) {
        None
    } else {
        default_iconify_id(family, variant, or_else(explicit_size, ctx.defaults.size), ctx.defaults.provider)
    }
}

/// An entry table becomes an entry only when it has no field issue and
/// names exactly one source (its default iconify id counted); an issue,
/// or a source count other than one, gives no entry and at least one
/// issue, and a count other than one (with no field issue) gives exactly
/// the issue naming the count. An entry, when there is one, has no issue.
pub proof fn lemma_entry_has_one_source(
    key: Seq<char>,
    family: Seq<char>,
    variant: Option<Seq<char>>,
    t: Seq<TomlEntry>,
    start: int,
    end: int,
    ctx: EntryContext,
    explicit_size: Option<u16>,
    inherited_paint: Option<Paint>,
)
    ensures
        entry_plan(key, family, variant, t, start, end, ctx, explicit_size, inherited_paint) is Some <==> {
            &&& table_issues(t, entry_fields(), start, end).len() == 0
            &&& source_count(t, entry_default_id(family, variant, t, ctx, explicit_size)) == 1
            &&& source_issues(
                key,
                variant,
                or_else(explicit_size, ctx.defaults.size),
                t,
                start,
                end,
                ctx,
                entry_default_id(family, variant, t, ctx, explicit_size),
            ).len() == 0
        },
        entry_plan(key, family, variant, t, start, end, ctx, explicit_size, inherited_paint) is Some <==> entry_issues(
            key,
            family,
            variant,
            t,
            start,
            end,
            ctx,
            explicit_size,
        ).len() == 0,
        table_issues(t, entry_fields(), start, end).len() == 0 && source_count(
            t,
            entry_default_id(family, variant, t, ctx, explicit_size),
        ) != 1 ==> entry_issues(key, family, variant, t, start, end, ctx, explicit_size) == seq![
            (
                source_count_error(key, source_count(t, entry_default_id(family, variant, t, ctx, explicit_size))),
                start,
                end,
            ),
        ],
{
}

/// Whether `e` is `plan` with its files found among the plan's roots.
pub open spec fn realizes(e: IconEntry, plan: EntryPlan) -> bool {
    &&& e.key@ == plan.key
    &&& e.family@ == plan.family
    &&& opt_view(e.variant) == plan.variant
    &&& e.size == plan.size
    &&& e.dynamic == plan.dynamic
    &&& e.paint == plan.paint
    &&& e.span.start == plan.start
    &&& e.span.end == plan.end
    &&& match (e.source, plan.source) {
        (IconEntrySource::File(p), SourcePlan::File(v)) => file_candidate(plan.roots, v, p@),
        (IconEntrySource::Iconify(a), SourcePlan::Iconify(b)) => a@ == b,
        (IconEntrySource::Url(a), SourcePlan::Url(b)) => a@ == b,
        (IconEntrySource::Glyph(a), SourcePlan::Glyph(b)) => a@ == b,
        _ => false,
    }
    &&& match (e.windows_ico, plan.windows_ico) {
        (Some(p), Some(v)) => file_candidate(plan.roots, v, p@),
        (None, None) => true,
        _ => false,
    }
}

fn entry_fields_exec() -> (r: Vec<(String, FieldKind)>)
    ensures
        crate::fields::fields_view(r@) == entry_fields(),
{
    let mut r: Vec<(String, FieldKind)> = Vec::new();
    r.push(("root".to_owned(), FieldKind::Text));
    r.push(("file".to_owned(), FieldKind::Text));
    r.push(("iconify".to_owned(), FieldKind::Text));
    r.push(("url".to_owned(), FieldKind::Text));
    r.push(("glyph".to_owned(), FieldKind::Text));
    r.push(("windows-ico".to_owned(), FieldKind::Text));
    r.push(("dynamic".to_owned(), FieldKind::Flag));
    r.push(("paint".to_owned(), FieldKind::PaintValue));
    proof {
        assert(crate::fields::fields_view(r@) =~= entry_fields());
    }
    r
}

fn is_entry_key_exec(k: &String) -> (r: bool)
    ensures
        r == is_entry_key(k@),
{
    let c = chars_of(k.as_str());
    let names = ["file", "iconify", "url", "glyph", "windows-ico", "dynamic", "root"];
    let mut i: usize = 0;
    while i < 7
        invariant
            c@ == k@,
            i <= 7,
            names@ == seq!["file", "iconify", "url", "glyph", "windows-ico", "dynamic", "root"],
            forall|j: int| 0 <= j < i ==> names@[j]@ != k@,
        decreases 7 - i,
    {
        let n = chars_of(names[i]);
        if crate::text::chars_eq(c.as_slice(), n.as_slice()) {
            return true;
        }
        i += 1;
    }
    false
}

/// `path.join("-")`.
pub fn dashed_exec(path: &Vec<String>) -> (r: String)
    ensures
        r@ == dashed(strings_view(path@)),
{
    let mut parts: Vec<Vec<char>> = Vec::new();
    let mut i: usize = 0;
    while i < path.len()
        invariant
            i <= path@.len(),
            parts@.len() == i,
            forall|j: int| 0 <= j < i ==> #[trigger] parts@[j]@ == path@[j]@,
        decreases path@.len() - i,
    {
        parts.push(chars_of(path[i].as_str()));
        i += 1;
    }
    let sep = chars_of("-");
    let r = join_exec(&parts, sep.as_slice());
    proof {
        assert(parts@.map_values(|p: Vec<char>| p@) =~= strings_view(path@));
    }
    string_of(r.as_slice())
}

/// Splits a group path into its family name and, if its last segment is a
/// number, the size it names.
pub fn split_family_and_size(path: &Vec<String>) -> (r: (String, Option<u16>))
    ensures
        (r.0@, r.1) == family_and_size(strings_view(path@)),
{
    let n = path.len();
    if n > 0 {
        let last = chars_of(path[n - 1].as_str());
        if let Some(size) = parse_u16_exec(last.as_slice()) {
            let mut rest: Vec<String> = Vec::new();
            let mut i: usize = 0;
            while i + 1 < n
                invariant
                    n == path@.len(),
                    n > 0,
                    i + 1 <= n,
                    rest@.len() == i,
                    strings_view(rest@) == strings_view(path@).take(i as int),
                decreases n - i,
            {
                let ghost prev = rest@;
                let s = path[i].clone();
                rest.push(s);
                proof {
                    assert(strings_view(rest@) =~= strings_view(path@).take(i + 1)) by {
                        assert forall|k: int| 0 <= k < i + 1 implies strings_view(rest@)[k]
                            == strings_view(path@).take(i + 1)[k] by {
                            if k < i {
                                assert(rest@[k] == prev[k]);
                                assert(strings_view(prev)[k] == strings_view(path@).take(i as int)[k]);
                            }
                        }
                    }
                }
                i += 1;
            }
            proof {
                assert(strings_view(path@).take(i as int) =~= strings_view(path@).drop_last());
            }
            return (dashed_exec(&rest), Some(size));
        }
    }
    (dashed_exec(path), None)
}

/// The iconify id an entry gets from `defaults.provider`.
pub fn default_iconify_id_exec(
    family: &str,
    variant: Option<&str>,
    size: Option<u16>,
    provider: &Option<String>,
) -> (r: Option<String>)
    ensures
        opt_view(r) == default_iconify_id(
            family@,
            match variant {
                Some(v) => Some(v@),
                None => None,
            },
            size,
            opt_view(*provider),
        ),
{
    match provider {
        None => None,
        Some(p) => {
            let mut name: Vec<char> = Vec::new();
            push_str(&mut name, p.as_str());
            push_str(&mut name, ":");
            push_str(&mut name, family);
            if let Some(n) = size {
                push_str(&mut name, "-");
                let d = decimal_exec(n as u64);
                push_all(&mut name, d.as_slice());
            }
            if let Some(v) = variant {
                push_str(&mut name, "-");
                push_str(&mut name, v);
            }
            proof {
                let with_size = match size {
                    Some(n) => family@ + "-"@ + decimal(n as nat),
                    None => family@,
                };
                let nm = match variant {
                    Some(v) => with_size + "-"@ + v@,
                    None => with_size,
                };
                assert(name@ =~= p@ + ":"@ + nm);
            }
            Some(string_of(name.as_slice()))
        },
    }
}

pub open spec fn context(workspace_root: String, defaults: ManifestDefaults, providers: Seq<(String, ProviderSchema)>) -> EntryContext {
    EntryContext { workspace_root: workspace_root@, defaults: defaults@, providers: schemas_view(providers) }
}

fn text_value(v: &FieldValue) -> (r: Option<String>)
    ensures
        opt_view(r) == (match v@ {
            FieldView::Text(s) => Some(s),
            _ => None,
        }),
{
    match v {
        FieldValue::Text(s) => Some(s.clone()),
        _ => None,
    }
}

fn is_present(v: &FieldValue) -> (r: bool)
    ensures
        r == !(v@ is Absent),
{
    match v {
        FieldValue::Absent => false,
        _ => true,
    }
}

/// The paint the provider of an iconify source declares.
fn provider_paint_exec(source: &IconEntrySource, providers: &Vec<(String, ProviderSchema)>) -> (r: Option<Paint>)
    ensures
        source matches IconEntrySource::Iconify(id) ==> r == provider_paint(SourcePlan::Iconify(id@), schemas_view(providers@)),
        !(source is Iconify) ==> r is None,
{
    match source {
        IconEntrySource::Iconify(id) => {
            let chars = chars_of(id.as_str());
            match find_char_exec(chars.as_slice(), ':') {
                Some(k) => {
                    let prefix = slice_vec(chars.as_slice(), 0, k);
                    let name = string_of(prefix.as_slice());
                    proof {
                        assert(name@ == id@.take(k as int));
                        lemma_first_index_view(providers@, name@);
                    }
                    match crate::model::find_provider(providers, &name) {
                        Some(i) => providers[i].1.paint,
                        None => None,
                    }
                },
                None => None,
            }
        },
        _ => None,
    }
}

/// Reads one entry table: `Some` entry exactly when `entry_plan` gives one,
/// its files looked up among the plan's roots; every issue is appended.
#[verifier::rlimit(60)]
#[verifier::spinoff_prover]
pub fn parse_entry(
    key: String,
    family: String,
    variant: Option<String>,
    table: &Vec<TomlEntry>,
    start: usize,
    end: usize,
    workspace_root: &String,
    defaults: &ManifestDefaults,
    providers: &Vec<(String, ProviderSchema)>,
    explicit_size: Option<u16>,
    inherited_paint: Option<Paint>,
    issues: &mut Vec<Issue>,
) -> (r: Option<IconEntry>)
    ensures
        match r {
            Some(e) => entry_plan(
                key@,
                family@,
                opt_view(variant),
                table@,
                start as int,
                end as int,
                context(*workspace_root, *defaults, providers@),
                explicit_size,
                inherited_paint,
            ) matches Some(p) && realizes(e, p),
            None => entry_plan(
                key@,
                family@,
                opt_view(variant),
                table@,
                start as int,
                end as int,
                context(*workspace_root, *defaults, providers@),
                explicit_size,
                inherited_paint,
            ) is None,
        },
        issues_view(final(issues)@) == issues_view(old(issues)@) + entry_issues(
            key@,
            family@,
            opt_view(variant),
            table@,
            start as int,
            end as int,
            context(*workspace_root, *defaults, providers@),
            explicit_size,
        ),
{
    let ghost ctx = context(*workspace_root, *defaults, providers@);
    let ghost t = table@;
    let fields = entry_fields_exec();
    let before = issues.len();
    let ghost before_view = issues_view(issues@);
    let values = read_fields(table, &fields, start, end, issues);
    proof {
        assert(issues_view(issues@).len() == issues@.len());
        assert(before_view.len() == before);
        assert(issues_view(issues@) == before_view + table_issues(t, entry_fields(), start as int, end as int));
    }
    if issues.len() != before {
        return None;
    }
    proof {
        assert(table_issues(t, entry_fields(), start as int, end as int).len() == 0);
        assert(crate::fields::fields_issues(t, entry_fields()).len() == 0);
        crate::fields::lemma_no_field_issues(t, entry_fields(), 0);
        crate::fields::lemma_no_field_issues(t, entry_fields(), 1);
        crate::fields::lemma_no_field_issues(t, entry_fields(), 2);
        crate::fields::lemma_no_field_issues(t, entry_fields(), 3);
        crate::fields::lemma_no_field_issues(t, entry_fields(), 4);
        crate::fields::lemma_no_field_issues(t, entry_fields(), 5);
        crate::fields::lemma_no_field_issues(t, entry_fields(), 6);
        crate::fields::lemma_no_field_issues(t, entry_fields(), 7);
        assert(values@[0]@ == field_view(t, "root"@, FieldKind::Text));
        assert(values@[1]@ == field_view(t, "file"@, FieldKind::Text));
        assert(values@[2]@ == field_view(t, "iconify"@, FieldKind::Text));
        assert(values@[3]@ == field_view(t, "url"@, FieldKind::Text));
        assert(values@[4]@ == field_view(t, "glyph"@, FieldKind::Text));
        assert(values@[5]@ == field_view(t, "windows-ico"@, FieldKind::Text));
        assert(values@[6]@ == field_view(t, "dynamic"@, FieldKind::Flag));
        assert(values@[7]@ == field_view(t, "paint"@, FieldKind::PaintValue));
    }
    let root = text_value(&values[0]);
    let file = text_value(&values[1]);
    let iconify = text_value(&values[2]);
    let url = text_value(&values[3]);
    let glyph = text_value(&values[4]);
    let windows_ico = text_value(&values[5]);
    let has_file = is_present(&values[1]);
    let has_iconify = is_present(&values[2]);
    let has_url = is_present(&values[3]);
    let has_glyph = is_present(&values[4]);
    let dynamic = match &values[6] {
        FieldValue::Flag(b) => *b,
        _ => false,
    };
    let entry_paint = match &values[7] {
        FieldValue::Painted(p) => Some(*p),
        _ => None,
    };
    let size = match explicit_size {
        Some(n) => Some(n),
        None => defaults.size,
    };
    let default_id = if has_iconify {
        None
    } else {
        let v: Option<&str> = match &variant {
            Some(v) => Some(v.as_str()),
            None => None,
        };
        default_iconify_id_exec(family.as_str(), v, size, &defaults.provider)
    };
    let count: u64 = (if has_file { 1u64 } else { 0 }) + (if has_iconify { 1u64 } else { 0 }) + (if has_url {
        1u64
    } else {
        0
    }) + (if has_glyph { 1u64 } else { 0 }) + (if default_id.is_some() { 1u64 } else { 0 });
    if count != 1 {
        let mut m: Vec<char> = Vec::new();
        push_str(&mut m, "icon manifest entry `");
        push_str(&mut m, key.as_str());
        push_str(&mut m, "` must define exactly one source (file/iconify/url/glyph), found ");
        let d = decimal_exec(count);
        push_all(&mut m, d.as_slice());
        let ghost prev = issues@;
        issues.push(Issue { message: string_of(m.as_slice()), start, end });
        proof {
            assert(issues_view(issues@) =~= issues_view(prev) + seq![
                (source_count_error(key@, count as nat), start as int, end as int),
            ]);
        }
        return None;
    }
    let ghost iss_before = issues@;
    let before_checks = issues.len();
    if default_id.is_some() {
        let p = match &defaults.provider {
            Some(p) => p,
            None => return None,
        };
        proof {
            lemma_first_index_view(providers@, p@);
        }
        match crate::model::find_provider(providers, p) {
            None => {
                let mut m: Vec<char> = Vec::new();
                push_str(&mut m, "icon manifest entry `");
                push_str(&mut m, key.as_str());
                push_str(&mut m, "` builds its iconify id from `defaults.provider` `");
                push_str(&mut m, p.as_str());
                push_str(&mut m, "`, which isn't a known provider");
                push_message(issues, m, start, end);
            },
            Some(i) => {
                let schema = &providers[i].1;
                let ghost mid = issues@;
                if let Some(v) = &variant {
                    let vc = chars_of(v.as_str());
                    if !strings_contain(&schema.variants, &vc) {
                        let mut m: Vec<char> = Vec::new();
                        push_str(&mut m, "icon manifest entry `");
                        push_str(&mut m, key.as_str());
                        push_str(&mut m, "`: variant `");
                        push_str(&mut m, v.as_str());
                        push_str(&mut m, "` isn't one of provider `");
                        push_str(&mut m, p.as_str());
                        push_str(&mut m, "`'s variants");
                        push_message(issues, m, start, end);
                    }
                }
                let ghost after_variant = issues@;
                if let Some(n) = size {
                    if !u16s_contain(&schema.sizes, n) {
                        let mut m: Vec<char> = Vec::new();
                        push_str(&mut m, "icon manifest entry `");
                        push_str(&mut m, key.as_str());
                        push_str(&mut m, "`: size `");
                        push_all(&mut m, decimal_exec(n as u64).as_slice());
                        push_str(&mut m, "` isn't one of provider `");
                        push_str(&mut m, p.as_str());
                        push_str(&mut m, "`'s sizes");
                        push_message(issues, m, start, end);
                    }
                }
                proof {
                    let vpart = match opt_view(variant) {
                        Some(v) => if strings_view(schema.variants@).contains(v) {
                            Seq::empty()
                        } else {
                            seq![(unknown_variant_error(key@, v, p@), start as int, end as int)]
                        },
                        None => Seq::<(Seq<char>, int, int)>::empty(),
                    };
                    let spart = match size {
                        Some(n) => if schema.sizes@.contains(n) {
                            Seq::empty()
                        } else {
                            seq![(unknown_size_error(key@, n, p@), start as int, end as int)]
                        },
                        None => Seq::<(Seq<char>, int, int)>::empty(),
                    };
                    assert(issues_view(after_variant) =~= issues_view(mid) + vpart);
                    assert(issues_view(issues@) =~= issues_view(after_variant) + spart);
                    assert(issues_view(issues@) =~= issues_view(iss_before) + (vpart + spart));
                }
            },
        }
    } else if has_glyph {
        let g = glyph.as_ref().unwrap();
        if let Err(e) = crate::glyph::try_parse_glyph_spec(g.as_str()) {
            let mut m: Vec<char> = Vec::new();
            push_str(&mut m, "icon manifest entry `");
            push_str(&mut m, key.as_str());
            push_str(&mut m, "`: ");
            push_str(&mut m, e.as_str());
            push_message(issues, m, start, end);
        }
    }
    proof {
        assert(issues_view(issues@) =~= issues_view(iss_before) + source_issues(
            key@,
            opt_view(variant),
            size,
            t,
            start as int,
            end as int,
            ctx,
            opt_view(default_id),
        ));
    }
    if issues.len() != before_checks {
        return None;
    }
    let roots: Vec<String> = match &root {
        Some(r) => {
            let mut v: Vec<String> = Vec::new();
            v.push(join_path_exec(workspace_root.as_str(), r.as_str()));
            proof {
                assert(strings_view(v@) =~= seq![join_path(workspace_root@, r@)]);
            }
            v
        },
        None => crate::model::clone_strings(&defaults.roots),
    };
    let source = if has_file {
        let value = file.unwrap();
        IconEntrySource::File(resolve_file_from_roots(&roots, value.as_str()))
    } else if has_iconify {
        IconEntrySource::Iconify(iconify.unwrap())
    } else if default_id.is_some() {
        IconEntrySource::Iconify(default_id.unwrap())
    } else if has_url {
        IconEntrySource::Url(url.unwrap())
    } else {
        IconEntrySource::Glyph(glyph.unwrap())
    };
    let windows_ico_path = match &windows_ico {
        Some(value) => Some(resolve_file_from_roots(&roots, value.as_str())),
        None => None,
    };
    let chosen = if entry_paint.is_some() {
        entry_paint
    } else if inherited_paint.is_some() {
        inherited_paint
    } else {
        let from_provider = provider_paint_exec(&source, providers);
        if from_provider.is_some() {
            from_provider
        } else {
            defaults.paint
        }
    };
    let paint = match chosen {
        Some(p) => p.colors(),
        None => None,
    };
    let e = IconEntry {
        key,
        family,
        variant,
        size,
        source,
        dynamic,
        windows_ico: windows_ico_path,
        paint,
        span: Range { start, end },
        file: String::new(),
    };
    proof {
        assert(strings_view(roots@) == match text_field(t, "root"@) {
            Some(r) => seq![join_path(ctx.workspace_root, r)],
            None => ctx.defaults.roots,
        });
    }
    Some(e)
}

/// The span of an entry table: from its earliest value to its latest
/// (`usize::MAX..0` for an empty one).
pub open spec fn table_span(t: Seq<TomlEntry>) -> (int, int)
    decreases t.len(),
{
    if t.len() == 0 {
        (usize::MAX as int, 0)
    } else {
        let (s, e) = table_span(t.drop_last());
        (
            if t.last().item.start < s {
                t.last().item.start as int
            } else {
                s
            },
            if t.last().item.end > e {
                t.last().item.end as int
            } else {
                e
            },
        )
    }
}

/// Whether any key of `t` makes it an entry.
pub open spec fn has_entry_key(t: Seq<TomlEntry>) -> bool {
    exists|i: int| 0 <= i < t.len() && is_entry_key(#[trigger] t[i].key@)
}

/// Top-level keys that are not icon groups.
pub open spec fn is_reserved_top_level(k: Seq<char>) -> bool {
    k == "defaults"@ || k == "include"@ || k == "link"@ || k == "providers"@
}

/// `format!("{:?}", path)` for a list of strings.
pub uninterp spec fn debug_strings(path: Seq<Seq<char>>) -> Seq<char>;

/// `format!("{:?}", path)`: std's `Debug` form of a list of strings, a
/// function of the strings alone.
#[verifier::external_body]
fn debug_strings_exec(path: &Vec<String>) -> (r: String)
    ensures
        r@ == debug_strings(strings_view(path@)),
{
    format!("{:?}", path)
}

pub open spec fn variants_error(path: Seq<Seq<char>>) -> Seq<char> {
    "`variants` in `"@ + dashed(path) + "` must be a table"@
}

pub open spec fn variant_error(path: Seq<Seq<char>>, variant: Seq<char>) -> Seq<char> {
    "variant `"@ + dashed(path) + "."@ + variant + "` must be an inline table"@
}

pub open spec fn group_error(path: Seq<Seq<char>>, key: Seq<char>) -> Seq<char> {
    "unexpected value at icon manifest group "@ + debug_strings(path) + ": `"@ + key + "`"@
}

pub open spec fn plan_seq(p: Option<EntryPlan>) -> Seq<EntryPlan> {
    match p {
        Some(x) => seq![x],
        None => Seq::empty(),
    }
}

/// The entries and issues of the `variants` table `vt` from its `i`-th
/// variant on.
pub open spec fn collect_variants(
    path: Seq<Seq<char>>,
    vt: Seq<TomlEntry>,
    i: int,
    paint: Option<Paint>,
    ctx: EntryContext,
) -> (Seq<EntryPlan>, Seq<(Seq<char>, int, int)>)
    decreases vt.len() - i,
{
    if i < 0 || i >= vt.len() {
        (Seq::empty(), Seq::empty())
    } else {
        let rest = collect_variants(path, vt, i + 1, paint, ctx);
        let e = vt[i];
        let (family, size) = family_and_size(path);
        let here: (Seq<EntryPlan>, Seq<(Seq<char>, int, int)>) = match e.item.value {
            TomlValue::Table(inner) => {
                let key = dashed(path) + "-"@ + e.key@;
                (
                    plan_seq(
                        entry_plan(
                            key,
                            family,
                            Some(e.key@),
                            inner@,
                            e.item.start as int,
                            e.item.end as int,
                            ctx,
                            size,
                            paint,
                        ),
                    ),
                    entry_issues(
                        key,
                        family,
                        Some(e.key@),
                        inner@,
                        e.item.start as int,
                        e.item.end as int,
                        ctx,
                        size,
                    ),
                )
            },
            _ => (Seq::empty(), seq![(variant_error(path, e.key@), e.item.start as int, e.item.end as int)]),
        };
        (here.0 + rest.0, here.1 + rest.1)
    }
}

/// The entries and issues of the table `t` at group `path`: a family with
/// `variants`, a single entry, or a group of further tables.
pub open spec fn collect_table(path: Seq<Seq<char>>, t: Seq<TomlEntry>, ctx: EntryContext) -> (
    Seq<EntryPlan>,
    Seq<(Seq<char>, int, int)>,
)
    decreases t, t.len() + 1,
{
    if has_field(t, "variants"@) {
        let v = field(t, "variants"@).unwrap();
        let paint_issues = crate::fields::field_issues(t, "paint"@, FieldKind::PaintValue);
        match v.value {
            TomlValue::Table(vt) => {
                let r = collect_variants(path, vt@, 0, paint_field(t, "paint"@), ctx);
                (r.0, paint_issues + r.1)
            },
            _ => (Seq::empty(), paint_issues + seq![(variants_error(path), v.start as int, v.end as int)]),
        }
    } else if has_entry_key(t) {
        let (family, size) = family_and_size(path);
        let (s, e) = table_span(t);
        (
            plan_seq(entry_plan(dashed(path), family, None, t, s, e, ctx, size, None)),
            entry_issues(dashed(path), family, None, t, s, e, ctx, size),
        )
    } else {
        collect_groups(path, t, 0, ctx)
    }
}

/// The entries and issues of the group `t` from its `i`-th member on.
pub open spec fn collect_groups(path: Seq<Seq<char>>, t: Seq<TomlEntry>, i: int, ctx: EntryContext) -> (
    Seq<EntryPlan>,
    Seq<(Seq<char>, int, int)>,
)
    decreases t, t.len() - i,
{
    if i < 0 || i >= t.len() {
        (Seq::empty(), Seq::empty())
    } else {
        let rest = collect_groups(path, t, i + 1, ctx);
        let e = t[i];
        if path.len() == 0 && is_reserved_top_level(e.key@) {
            rest
        } else {
            match e.item.value {
                TomlValue::Table(sub) => {
                    proof {
                        assert(decreases_to!(t => t[i]));
                        assert(decreases_to!(t[i] => t[i].item));
                        assert(decreases_to!(t[i].item => t[i].item.value));
                        assert(decreases_to!(e.item.value => sub));
                        assert(decreases_to!(sub => sub@));
                    }
                    let here = collect_table(path.push(e.key@), sub@, ctx);
                    (here.0 + rest.0, here.1 + rest.1)
                },
                _ => (rest.0, seq![(group_error(path, e.key@), e.item.start as int, e.item.end as int)] + rest.1),
            }
        }
    }
}

/// `new` is `old` followed by one entry realizing each of `plans`.
pub open spec fn extends(new: Seq<IconEntry>, old: Seq<IconEntry>, plans: Seq<EntryPlan>) -> bool {
    &&& new.len() == old.len() + plans.len()
    &&& forall|i: int| 0 <= i < old.len() ==> #[trigger] new[i] == old[i]
    &&& forall|j: int| 0 <= j < plans.len() ==> realizes(#[trigger] new[old.len() + j], plans[j])
}

pub proof fn lemma_extends_trans(
    a: Seq<IconEntry>,
    b: Seq<IconEntry>,
    c: Seq<IconEntry>,
    p: Seq<EntryPlan>,
    q: Seq<EntryPlan>,
)
    requires
        extends(b, a, p),
        extends(c, b, q),
    ensures
        extends(c, a, p + q),
{
    assert forall|j: int| 0 <= j < (p + q).len() implies realizes(#[trigger] c[a.len() + j], (p + q)[j]) by {
        if j < p.len() {
            assert(c[a.len() + j] == b[a.len() + j]);
        } else {
            assert(c[a.len() + j] == c[b.len() + (j - p.len())]);
        }
    }
}

fn has_entry_key_exec(t: &Vec<TomlEntry>) -> (r: bool)
    ensures
        r == has_entry_key(t@),
{
    let mut i: usize = 0;
    while i < t.len()
        invariant
            i <= t@.len(),
            forall|j: int| 0 <= j < i ==> !is_entry_key(#[trigger] t@[j].key@),
        decreases t@.len() - i,
    {
        if is_entry_key_exec(&t[i].key) {
            return true;
        }
        i += 1;
    }
    false
}

fn table_span_exec(t: &Vec<TomlEntry>) -> (r: (usize, usize))
    ensures
        (r.0 as int, r.1 as int) == table_span(t@),
{
    let mut s: usize = usize::MAX;
    let mut e: usize = 0;
    let mut i: usize = 0;
    while i < t.len()
        invariant
            i <= t@.len(),
            (s as int, e as int) == table_span(t@.take(i as int)),
        decreases t@.len() - i,
    {
        proof {
            assert(t@.take(i + 1).drop_last() =~= t@.take(i as int));
            assert(t@.take(i + 1).last() == t@[i as int]);
        }
        if t[i].item.start < s {
            s = t[i].item.start;
        }
        if t[i].item.end > e {
            e = t[i].item.end;
        }
        i += 1;
    }
    proof {
        assert(t@.take(t@.len() as int) =~= t@);
    }
    (s, e)
}

fn push_message(issues: &mut Vec<Issue>, m: Vec<char>, start: usize, end: usize)
    ensures
        issues_view(final(issues)@) == issues_view(old(issues)@) + seq![(m@, start as int, end as int)],
{
    let ghost prev = issues@;
    issues.push(Issue { message: string_of(m.as_slice()), start, end });
    proof {
        assert(issues_view(issues@) =~= issues_view(prev) + seq![(m@, start as int, end as int)]);
    }
}

/// Reads the `variants` table `vt` of the family at `path`.
fn collect_variants_exec(
    path: &Vec<String>,
    vt: &Vec<TomlEntry>,
    paint: Option<Paint>,
    workspace_root: &String,
    defaults: &ManifestDefaults,
    providers: &Vec<(String, ProviderSchema)>,
    issues: &mut Vec<Issue>,
    acc: &mut Vec<IconEntry>,
)
    ensures
        extends(
            final(acc)@,
            old(acc)@,
            collect_variants(strings_view(path@), vt@, 0, paint, context(*workspace_root, *defaults, providers@)).0,
        ),
        issues_view(final(issues)@) == issues_view(old(issues)@) + collect_variants(
            strings_view(path@),
            vt@,
            0,
            paint,
            context(*workspace_root, *defaults, providers@),
        ).1,
{
    let ghost ctx = context(*workspace_root, *defaults, providers@);
    let ghost pv = strings_view(path@);
    let prefix = dashed_exec(path);
    let (family, size) = split_family_and_size(path);
    let ghost mut done_plans: Seq<EntryPlan> = Seq::empty();
    let ghost mut done_issues: Seq<(Seq<char>, int, int)> = Seq::empty();
    let mut i: usize = 0;
    while i < vt.len()
        invariant
            ctx == context(*workspace_root, *defaults, providers@),
            pv == strings_view(path@),
            prefix@ == dashed(pv),
            (family@, size) == family_and_size(pv),
            i <= vt@.len(),
            extends(acc@, old(acc)@, done_plans),
            issues_view(issues@) == issues_view(old(issues)@) + done_issues,
            done_plans + collect_variants(pv, vt@, i as int, paint, ctx).0 == collect_variants(
                pv,
                vt@,
                0,
                paint,
                ctx,
            ).0,
            done_issues + collect_variants(pv, vt@, i as int, paint, ctx).1 == collect_variants(
                pv,
                vt@,
                0,
                paint,
                ctx,
            ).1,
        decreases vt@.len() - i,
    {
        let ghost here = collect_variants(pv, vt@, i as int, paint, ctx);
        let ghost rest = collect_variants(pv, vt@, i + 1, paint, ctx);
        let ghost acc0 = acc@;
        let ghost iss0 = issues@;
        let e = &vt[i];
        match &e.item.value {
            TomlValue::Table(inner) => {
                let mut key: Vec<char> = Vec::new();
                push_str(&mut key, prefix.as_str());
                push_str(&mut key, "-");
                push_str(&mut key, e.key.as_str());
                let key = string_of(key.as_slice());
                let r = parse_entry(
                    key,
                    family.clone(),
                    Some(e.key.clone()),
                    inner,
                    e.item.start,
                    e.item.end,
                    workspace_root,
                    defaults,
                    providers,
                    size,
                    paint,
                    issues,
                );
                match r {
                    Some(entry) => {
                        acc.push(entry);
                    },
                    None => {},
                }
                proof {
                    let p = entry_plan(
                        prefix@ + "-"@ + e.key@,
                        family@,
                        Some(e.key@),
                        inner@,
                        e.item.start as int,
                        e.item.end as int,
                        ctx,
                        size,
                        paint,
                    );
                    assert(extends(acc@, acc0, plan_seq(p)));
                    lemma_extends_trans(old(acc)@, acc0, acc@, done_plans, plan_seq(p));
                    done_plans = done_plans + plan_seq(p);
                    let iss = entry_issues(
                        prefix@ + "-"@ + e.key@,
                        family@,
                        Some(e.key@),
                        inner@,
                        e.item.start as int,
                        e.item.end as int,
                        ctx,
                        size,
                    );
                    done_issues = done_issues + iss;
                    assert(here.0 == plan_seq(p) + rest.0);
                    assert(here.1 == iss + rest.1);
                }
            },
            _ => {
                let mut m: Vec<char> = Vec::new();
                push_str(&mut m, "variant `");
                push_str(&mut m, prefix.as_str());
                push_str(&mut m, ".");
                push_str(&mut m, e.key.as_str());
                push_str(&mut m, "` must be an inline table");
                push_message(issues, m, e.item.start, e.item.end);
                proof {
                    assert(here.0 == rest.0);
                    done_issues = done_issues + seq![
                        (variant_error(pv, e.key@), e.item.start as int, e.item.end as int),
                    ];
                    assert(extends(acc@, old(acc)@, done_plans));
                }
            },
        }
        proof {
            assert(done_plans + rest.0 =~= collect_variants(pv, vt@, 0, paint, ctx).0);
            assert(done_issues + rest.1 =~= collect_variants(pv, vt@, 0, paint, ctx).1);
        }
        i += 1;
    }
    proof {
        assert(done_plans =~= collect_variants(pv, vt@, 0, paint, ctx).0);
        assert(done_issues =~= collect_variants(pv, vt@, 0, paint, ctx).1);
    }
}

fn is_reserved_top_level_exec(k: &String) -> (r: bool)
    ensures
        r == is_reserved_top_level(k@),
{
    let c = chars_of(k.as_str());
    let names = ["defaults", "include", "link", "providers"];
    let mut i: usize = 0;
    while i < 4
        invariant
            c@ == k@,
            i <= 4,
            names@ == seq!["defaults", "include", "link", "providers"],
            forall|j: int| 0 <= j < i ==> names@[j]@ != k@,
        decreases 4 - i,
    {
        let n = chars_of(names[i]);
        if crate::text::chars_eq(c.as_slice(), n.as_slice()) {
            return true;
        }
        i += 1;
    }
    false
}

fn push_string(v: &Vec<String>, s: &String) -> (r: Vec<String>)
    ensures
        strings_view(r@) == strings_view(v@).push(s@),
{
    let mut r = crate::model::clone_strings(v);
    r.push(s.clone());
    proof {
        assert(strings_view(r@) =~= strings_view(v@).push(s@));
    }
    r
}

/// Reads the table `t` at group `path` into entries, appended to `acc`,
/// and issues, appended to `issues`, as `collect_table` states.
pub fn collect_entries(
    path: &Vec<String>,
    table: &Vec<TomlEntry>,
    workspace_root: &String,
    defaults: &ManifestDefaults,
    providers: &Vec<(String, ProviderSchema)>,
    issues: &mut Vec<Issue>,
    acc: &mut Vec<IconEntry>,
)
    ensures
        extends(
            final(acc)@,
            old(acc)@,
            collect_table(strings_view(path@), table@, context(*workspace_root, *defaults, providers@)).0,
        ),
        issues_view(final(issues)@) == issues_view(old(issues)@) + collect_table(
            strings_view(path@),
            table@,
            context(*workspace_root, *defaults, providers@),
        ).1,
    decreases table@, table@.len() + 1,
{
    let ghost ctx = context(*workspace_root, *defaults, providers@);
    let ghost pv = strings_view(path@);
    let ghost t = table@;
    if let Some(v) = crate::fields::get_field(table, "variants") {
        let ghost iss0 = issues@;
        let paint: Option<Paint> = match crate::fields::get_field(table, "paint") {
            Some(pi) => match crate::fields::read_item(pi, FieldKind::PaintValue, issues) {
                FieldValue::Painted(p) => Some(p),
                _ => None,
            },
            None => None,
        };
        let ghost paint_issues = crate::fields::field_issues(t, "paint"@, FieldKind::PaintValue);
        proof {
            assert(issues_view(issues@) == issues_view(iss0) + paint_issues);
            assert(paint == paint_field(t, "paint"@));
        }
        match &v.value {
            TomlValue::Table(vt) => {
                collect_variants_exec(path, vt, paint, workspace_root, defaults, providers, issues, acc);
                proof {
                    assert(issues_view(issues@) =~= issues_view(iss0) + (paint_issues + collect_variants(
                        pv,
                        vt@,
                        0,
                        paint,
                        ctx,
                    ).1));
                }
            },
            _ => {
                let prefix = dashed_exec(path);
                let mut m: Vec<char> = Vec::new();
                push_str(&mut m, "`variants` in `");
                push_str(&mut m, prefix.as_str());
                push_str(&mut m, "` must be a table");
                push_message(issues, m, v.start, v.end);
                proof {
                    assert(issues_view(issues@) =~= issues_view(iss0) + (paint_issues + seq![
                        (variants_error(pv), v.start as int, v.end as int),
                    ]));
                    assert(extends(acc@, old(acc)@, Seq::empty()));
                }
            },
        }
        return;
    }
    if has_entry_key_exec(table) {
        let key = dashed_exec(path);
        let (family, size) = split_family_and_size(path);
        let (start, end) = table_span_exec(table);
        let r = parse_entry(
            key,
            family,
            None,
            table,
            start,
            end,
            workspace_root,
            defaults,
            providers,
            size,
            None,
            issues,
        );
        match r {
            Some(entry) => {
                acc.push(entry);
            },
            None => {},
        }
        proof {
            assert(acc@ =~= old(acc)@ + acc@.skip(old(acc)@.len() as int));
        }
        return;
    }
    let ghost mut done_plans: Seq<EntryPlan> = Seq::empty();
    let ghost mut done_issues: Seq<(Seq<char>, int, int)> = Seq::empty();
    let mut i: usize = 0;
    while i < table.len()
        invariant
            ctx == context(*workspace_root, *defaults, providers@),
            pv == strings_view(path@),
            t == table@,
            !has_field(t, "variants"@),
            !has_entry_key(t),
            i <= t.len(),
            extends(acc@, old(acc)@, done_plans),
            issues_view(issues@) == issues_view(old(issues)@) + done_issues,
            done_plans + collect_groups(pv, t, i as int, ctx).0 == collect_groups(pv, t, 0, ctx).0,
            done_issues + collect_groups(pv, t, i as int, ctx).1 == collect_groups(pv, t, 0, ctx).1,
        decreases t.len() - i,
    {
        let ghost rest = collect_groups(pv, t, i + 1, ctx);
        let ghost acc0 = acc@;
        let e = &table[i];
        if path.len() == 0 && is_reserved_top_level_exec(&e.key) {
            proof {
                assert(collect_groups(pv, t, i as int, ctx) == rest);
            }
        } else {
            match &e.item.value {
                TomlValue::Table(sub) => {
                    let next = push_string(path, &e.key);
                    proof {
                        assert(decreases_to!(t => t[i as int]));
                        assert(decreases_to!(t[i as int] => t[i as int].item));
                        assert(decreases_to!(t[i as int].item => t[i as int].item.value));
                        assert(decreases_to!(e.item.value => *sub));
                        assert(decreases_to!(*sub => sub@));
                    }
                    collect_entries(&next, sub, workspace_root, defaults, providers, issues, acc);
                    proof {
                        let here = collect_table(pv.push(e.key@), sub@, ctx);
                        lemma_extends_trans(old(acc)@, acc0, acc@, done_plans, here.0);
                        done_plans = done_plans + here.0;
                        done_issues = done_issues + here.1;
                    }
                },
                _ => {
                    let shown = debug_strings_exec(path);
                    let mut m: Vec<char> = Vec::new();
                    push_str(&mut m, "unexpected value at icon manifest group ");
                    push_str(&mut m, shown.as_str());
                    push_str(&mut m, ": `");
                    push_str(&mut m, e.key.as_str());
                    push_str(&mut m, "`");
                    push_message(issues, m, e.item.start, e.item.end);
                    proof {
                        done_issues = done_issues + seq![
                            (group_error(pv, e.key@), e.item.start as int, e.item.end as int),
                        ];
                    }
                },
            }
        }
        proof {
            assert(done_plans + rest.0 =~= collect_groups(pv, t, 0, ctx).0);
            assert(done_issues + rest.1 =~= collect_groups(pv, t, 0, ctx).1);
        }
        i += 1;
    }
    proof {
        assert(done_plans =~= collect_groups(pv, t, 0, ctx).0);
        assert(done_issues =~= collect_groups(pv, t, 0, ctx).1);
    }
}

/// The length of the longest suffix of `segs`, at most `len` long and at
/// least one, that joined with `-` is one of `variants`.
pub open spec fn variant_suffix(segs: Seq<Seq<char>>, variants: Seq<Seq<char>>, len: int) -> Option<int>
    decreases len,
{
    if len <= 0 {
        None
    } else if variants.contains(join(segs.subrange(segs.len() - len, segs.len() as int), "-"@)) {
        Some(len)
    } else {
        variant_suffix(segs, variants, len - 1)
    }
}

/// What `decompose_iconify_id` gives for the name part of an id (after the
/// `provider:`) under a provider's `variants` and `sizes`.
pub open spec fn decomposed_name(name: Seq<char>, variants: Seq<Seq<char>>, sizes: Seq<u16>) -> Option<
    (Seq<char>, Option<u16>, Option<Seq<char>>),
> {
    let segs = split_on(name, seq!['-']);
    let n = segs.len() as int;
    let vs = variant_suffix(segs, variants, n);
    let remaining = match vs {
        Some(l) => n - l,
        None => n,
    };
    let variant = match vs {
        Some(l) => Some(join(segs.subrange(n - l, n), "-"@)),
        None => None,
    };
    let fam = segs.take(remaining);
    let sized = fam.len() > 0 && parse_u16(fam.last()) is Some && sizes.contains(parse_u16(fam.last()).unwrap());
    let fam2 = if sized {
        fam.drop_last()
    } else {
        fam
    };
    if fam2.len() == 0 {
        None
    } else {
        Some(
            (
                join(fam2, "-"@),
                if sized {
                    parse_u16(fam.last())
                } else {
                    None
                },
                variant,
            ),
        )
    }
}

/// What `decompose_iconify_id` gives for `id` against `providers`: `None`
/// without a `:` or for an unknown provider.
pub open spec fn decomposed(id: Seq<char>, providers: Seq<(String, ProviderSchema)>) -> Option<
    (Seq<char>, Option<u16>, Option<Seq<char>>),
> {
    match find_char(id, ':') {
        None => None,
        Some(k) => match first_index(providers, named(id.take(k))) {
            None => None,
            Some(pi) => decomposed_name(
                id.skip(k + 1),
                strings_view(providers[pi].1.variants@),
                providers[pi].1.sizes@,
            ),
        },
    }
}

fn strings_contain(v: &Vec<String>, x: &Vec<char>) -> (r: bool)
    ensures
        r == strings_view(v@).contains(x@),
{
    let mut i: usize = 0;
    while i < v.len()
        invariant
            i <= v@.len(),
            forall|j: int| 0 <= j < i ==> #[trigger] v@[j]@ != x@,
        decreases v@.len() - i,
    {
        let c = chars_of(v[i].as_str());
        if crate::text::chars_eq(c.as_slice(), x.as_slice()) {
            proof {
                assert(strings_view(v@)[i as int] == x@);
            }
            return true;
        }
        i += 1;
    }
    proof {
        if strings_view(v@).contains(x@) {
            let j = choose|j: int| 0 <= j < strings_view(v@).len() && strings_view(v@)[j] == x@;
            assert(v@[j]@ == x@);
        }
    }
    false
}

fn u16s_contain(v: &Vec<u16>, x: u16) -> (r: bool)
    ensures
        r == v@.contains(x),
{
    let mut i: usize = 0;
    while i < v.len()
        invariant
            i <= v@.len(),
            forall|j: int| 0 <= j < i ==> v@[j] != x,
        decreases v@.len() - i,
    {
        if v[i] == x {
            return true;
        }
        i += 1;
    }
    false
}

fn join_range(segs: &Vec<Vec<char>>, from: usize, to: usize) -> (r: Vec<char>)
    requires
        from <= to <= segs@.len(),
    ensures
        r@ == join(segs@.map_values(|p: Vec<char>| p@).subrange(from as int, to as int), "-"@),
{
    let mut part: Vec<Vec<char>> = Vec::new();
    let mut i = from;
    while i < to
        invariant
            from <= i <= to <= segs@.len(),
            part@.len() == i - from,
            forall|k: int| 0 <= k < part@.len() ==> #[trigger] part@[k]@ == segs@[from + k]@,
        decreases to - i,
    {
        part.push(crate::text::slice_vec(segs[i].as_slice(), 0, segs[i].len()));
        proof {
            assert(segs@[i as int]@.subrange(0, segs@[i as int]@.len() as int) =~= segs@[i as int]@);
        }
        i += 1;
    }
    let sep = chars_of("-");
    let r = join_exec(&part, sep.as_slice());
    proof {
        assert(part@.map_values(|p: Vec<char>| p@) =~= segs@.map_values(|p: Vec<char>| p@).subrange(
            from as int,
            to as int,
        ));
    }
    r
}

/// Splits the name part of an iconify id back into family, size and
/// variant under a provider's schema.
pub fn decompose_name(name: &[char], schema: &ProviderSchema) -> (r: Option<(String, Option<u16>, Option<String>)>)
    ensures
        match r {
            Some((f, s, v)) => decomposed_name(name@, strings_view(schema.variants@), schema.sizes@) == Some(
                (f@, s, opt_view(v)),
            ),
            None => decomposed_name(name@, strings_view(schema.variants@), schema.sizes@) is None,
        },
{
    let mut dash: Vec<char> = Vec::new();
    dash.push('-');
    let segs = crate::text::split_on_exec(name, dash.as_slice());
    let ghost sv = segs@.map_values(|p: Vec<char>| p@);
    let ghost variants = strings_view(schema.variants@);
    proof {
        assert(dash@ =~= seq!['-']);
        assert(sv =~= split_on(name@, seq!['-']));
    }
    let n = segs.len();
    let mut variant: Option<String> = None;
    let mut remaining = n;
    let mut suffix_len = n;
    let mut found = false;
    while suffix_len > 0 && !found
        invariant
            sv == segs@.map_values(|p: Vec<char>| p@),
            sv == split_on(name@, seq!['-']),
            variants == strings_view(schema.variants@),
            n == segs@.len(),
            suffix_len <= n,
            !found ==> variant is None && remaining == n && variant_suffix(sv, variants, n as int)
                == variant_suffix(sv, variants, suffix_len as int),
            found ==> suffix_len > 0 && variant_suffix(sv, variants, n as int) == Some(suffix_len as int)
                && remaining == n - suffix_len && opt_view(variant) == Some(
                join(sv.subrange(n - suffix_len, n as int), "-"@),
            ),
        decreases suffix_len + (if found {
            0int
        } else {
            1int
        }),
    {
        let candidate = join_range(&segs, n - suffix_len, n);
        if strings_contain(&schema.variants, &candidate) {
            variant = Some(string_of(candidate.as_slice()));
            remaining = n - suffix_len;
            found = true;
        } else {
            suffix_len -= 1;
        }
    }
    let mut fam_len = remaining;
    let mut size: Option<u16> = None;
    if fam_len > 0 {
        if let Some(parsed) = parse_u16_exec(segs[fam_len - 1].as_slice()) {
            if u16s_contain(&schema.sizes, parsed) {
                size = Some(parsed);
                fam_len -= 1;
            }
        }
    }
    if fam_len == 0 {
        return None;
    }
    let family = join_range(&segs, 0, fam_len);
    proof {
        assert(sv.take(remaining as int).subrange(0, fam_len as int) =~= sv.subrange(0, fam_len as int));
        assert(sv.take(remaining as int).drop_last() =~= sv.subrange(0, remaining - 1));
        assert(sv.take(remaining as int) =~= sv.subrange(0, remaining as int));
    }
    Some((string_of(family.as_slice()), size, variant))
}

/// Reverses the default iconify id: splits a raw `provider:name` id back
/// into family, size and variant under the provider's schema. `None`
/// without a `:`, for a provider the manifest does not know, or when
/// nothing is left for the family.
pub fn decompose_iconify_id(id: &str, manifest: &IconManifest) -> (r: Option<(String, Option<u16>, Option<String>)>)
    ensures
        match r {
            Some((f, s, v)) => decomposed(id@, manifest.providers@) == Some((f@, s, opt_view(v))),
            None => decomposed(id@, manifest.providers@) is None,
        },
{
    let chars = chars_of(id);
    let k = match find_char_exec(chars.as_slice(), ':') {
        Some(k) => k,
        None => return None,
    };
    let provider = string_of(slice_vec(chars.as_slice(), 0, k).as_slice());
    let rest = slice_vec(chars.as_slice(), k + 1, chars.len());
    proof {
        assert(provider@ == id@.take(k as int));
        assert(rest@ == id@.skip(k + 1));
    }
    match crate::model::find_provider(&manifest.providers, &provider) {
        Some(i) => decompose_name(rest.as_slice(), &manifest.providers[i].1),
        None => None,
    }
}

/// Pieces joined with `-` hold a `-` once there are two of them.
proof fn lemma_join_has_dash(parts: Seq<Seq<char>>)
    requires
        parts.len() >= 2,
    ensures
        !free_of(join(parts, seq!['-']), seq!['-']),
    decreases parts.len(),
{
    let j = join(parts, seq!['-']);
    let head = join(parts.drop_last(), seq!['-']);
    assert(j == head + seq!['-'] + parts.last());
    assert(j[head.len() as int] == '-');
}

/// No suffix of two or more pieces, joined, is a variant when variants hold
/// no `-`.
proof fn lemma_variant_suffix_short(segs: Seq<Seq<char>>, variants: Seq<Seq<char>>, len: int)
    requires
        1 <= len <= segs.len(),
        forall|i: int| 0 <= i < variants.len() ==> free_of(#[trigger] variants[i], seq!['-']),
    ensures
        variant_suffix(segs, variants, len) == variant_suffix(segs, variants, 1),
    decreases len,
{
    reveal_strlit("-");
    assert("-"@ == seq!['-']);
    if len > 1 {
        let cand = join(segs.subrange(segs.len() - len, segs.len() as int), seq!['-']);
        lemma_join_has_dash(segs.subrange(segs.len() - len, segs.len() as int));
        if variants.contains(cand) {
            let i = choose|i: int| 0 <= i < variants.len() && variants[i] == cand;
            assert(free_of(variants[i], seq!['-']));
        }
        assert(!variants.contains(cand));
        lemma_variant_suffix_short(segs, variants, len - 1);
    }
}

proof fn lemma_find_first(a: Seq<char>, c: char, b: Seq<char>)
    requires
        free_of(a, seq![c]),
    ensures
        find_char(a + seq![c] + b, c) == Some(a.len() as int),
{
    let s = a + seq![c] + b;
    crate::text::lemma_find_char(s, c);
    assert(s[a.len() as int] == c);
    match find_char(s, c) {
        Some(k) => {
            if k < a.len() {
                assert(s[k] == a[k]);
                assert(!crate::text::in_set(a[k], seq![c]));
            }
        },
        None => {},
    }
}

/// Building an id the way `default_iconify_id` does and decomposing it
/// under the same provider schema gives back the family, size and variant
/// it was built from - as long as no family segment holds `-`, reads as a
/// number or is itself a variant, and no variant holds `-` or reads as a
/// number (otherwise stripping suffixes is ambiguous).
pub proof fn lemma_decompose_round_trip(
    provider: Seq<char>,
    family_segments: Seq<Seq<char>>,
    size: Option<u16>,
    variant: Option<Seq<char>>,
    providers: Seq<(String, ProviderSchema)>,
)
    requires
        free_of(provider, seq![':']),
        first_index(providers, named(provider)) is Some,
        family_segments.len() > 0,
        ({
            let schema = providers[first_index(providers, named(provider)).unwrap()].1;
            let variants = strings_view(schema.variants@);
            &&& forall|i: int|
                0 <= i < family_segments.len() ==> free_of(#[trigger] family_segments[i], seq!['-'])
                    && !variants.contains(family_segments[i]) && parse_u16(family_segments[i]) is None
            &&& forall|i: int|
                0 <= i < variants.len() ==> free_of(#[trigger] variants[i], seq!['-']) && parse_u16(
                    variants[i],
                ) is None
            &&& variant matches Some(v) ==> variants.contains(v)
            &&& size matches Some(n) ==> schema.sizes@.contains(n)
        }),
    ensures
        decomposed(
            default_iconify_id(join(family_segments, "-"@), variant, size, Some(provider)).unwrap(),
            providers,
        ) == Some((join(family_segments, "-"@), size, variant)),
{
    reveal_strlit("-");
    reveal_strlit(":");
    assert("-"@ == seq!['-']);
    assert(":"@ == seq![':']);
    let pi = first_index(providers, named(provider)).unwrap();
    let schema = providers[pi].1;
    let variants = strings_view(schema.variants@);
    let sizes = schema.sizes@;
    let family = join(family_segments, seq!['-']);
    let with_size = match size {
        Some(n) => family_segments.push(decimal(n as nat)),
        None => family_segments,
    };
    let parts = match variant {
        Some(v) => with_size.push(v),
        None => with_size,
    };
    let name = join(parts, seq!['-']);
    // The name is the pieces joined with `-`.
    let with_size_name = match size {
        Some(n) => family + "-"@ + decimal(n as nat),
        None => family,
    };
    assert(join(with_size, seq!['-']) == with_size_name) by {
        if let Some(n) = size {
            assert(with_size.drop_last() =~= family_segments);
        }
    }
    let full_name = match variant {
        Some(v) => with_size_name + "-"@ + v,
        None => with_size_name,
    };
    assert(name == full_name) by {
        if let Some(v) = variant {
            assert(parts.drop_last() =~= with_size);
        }
    }
    let id = provider + ":"@ + full_name;
    assert(default_iconify_id(family, variant, size, Some(provider)) == Some(id));
    // The provider is found before the first `:`.
    lemma_find_first(provider, ':', full_name);
    assert(id.take(provider.len() as int) =~= provider);
    assert(id.skip(provider.len() as int + 1) =~= full_name);
    // Splitting the name gives the pieces back.
    assert forall|i: int| 0 <= i < parts.len() implies free_of(#[trigger] parts[i], seq!['-']) by {
        if i < family_segments.len() {
            assert(parts[i] == family_segments[i]);
        } else if size is Some && i == family_segments.len() {
            let n = size.unwrap();
            crate::text::lemma_decimal(n as nat);
            assert(parts[i] == decimal(n as nat));
            assert forall|k: int| 0 <= k < parts[i].len() implies !crate::text::in_set(#[trigger] parts[i][k], seq!['-']) by {
                assert(crate::text::is_digit(decimal(n as nat)[k]));
            }
        } else {
            let v = variant.unwrap();
            assert(parts[i] == v);
            let j = choose|j: int| 0 <= j < variants.len() && variants[j] == v;
            assert(free_of(variants[j], seq!['-']));
        }
    }
    assert(seq!['-'][0] == '-');
    assert(crate::text::in_set('-', seq!['-']));
    crate::text::lemma_split_on_join(parts, '-', seq!['-']);
    assert(split_on(name, seq!['-']) == parts);
    // Only the last piece can be a variant.
    let n = parts.len() as int;
    lemma_variant_suffix_short(parts, variants, n);
    assert(parts.subrange(n - 1, n) =~= seq![parts.last()]);
    assert(join(parts.subrange(n - 1, n), seq!['-']) == parts.last());
    match variant {
        Some(v) => {
            assert(parts.last() == v);
            assert(variant_suffix(parts, variants, n) == Some(1int));
            assert(parts.take(n - 1) =~= with_size);
        },
        None => {
            assert(parts == with_size);
            assert(!variants.contains(parts.last())) by {
                if variants.contains(parts.last()) {
                    let j = choose|j: int| 0 <= j < variants.len() && variants[j] == parts.last();
                    assert(parse_u16(variants[j]) is None);
                    if let Some(m) = size {
                        crate::text::lemma_parse_decimal_u16(m);
                        assert(parts.last() == decimal(m as nat));
                        assert(parse_u16(decimal(m as nat)) == Some(m));
                    } else {
                        let last = family_segments.len() - 1;
                        assert(parts.last() == family_segments[last]);
                        assert(!variants.contains(family_segments[last]));
                    }
                }
            }
            assert(variant_suffix(parts, variants, 0) is None);
            assert(join(parts.subrange(parts.len() - 1, parts.len() as int), "-"@) == parts.last());
            assert(variant_suffix(parts, variants, 1) is None);
            assert(variant_suffix(parts, variants, n) is None);
            assert(parts.take(n) =~= with_size);
        },
    }
    // A trailing size is recognized; a family segment never is.
    match size {
        Some(m) => {
            crate::text::lemma_parse_decimal_u16(m);
            assert(with_size.last() == decimal(m as nat));
            assert(with_size.drop_last() =~= family_segments);
        },
        None => {
            assert(with_size.last() == family_segments[family_segments.len() - 1]);
        },
    }
}

/// The fields of `[defaults]`, in the order they are read.
pub open spec fn defaults_fields() -> Seq<(Seq<char>, FieldKind)> {
    seq![
        ("root"@, FieldKind::Text),
        ("roots"@, FieldKind::Texts),
        ("provider"@, FieldKind::Text),
        ("size"@, FieldKind::Size),
        ("paint"@, FieldKind::PaintValue),
    ]
}

/// The defaults a manifest without usable `[defaults]` gets: roots at its
/// own directory, then the workspace root.
pub open spec fn fallback_defaults(ws: Seq<char>, dir: Seq<char>) -> DefaultsView {
    DefaultsView { roots: seq![dir, ws], provider: None, size: None, paint: None }
}

/// What `[defaults]` (the value `v`, if present) gives, against the
/// workspace root `ws` and the manifest's directory `dir`. Fields with an
/// issue are left out; `root` and `roots` are both kept, `root` first.
pub open spec fn defaults_of(v: Option<TomlItem>, ws: Seq<char>, dir: Seq<char>) -> DefaultsView {
    match v {
        None => fallback_defaults(ws, dir),
        Some(item) => match item.value {
            TomlValue::Table(t) => {
                let from_root = match text_field(t@, "root"@) {
                    Some(r) => seq![join_path(ws, r)],
                    None => Seq::empty(),
                };
                let from_roots = match field_view(t@, "roots"@, FieldKind::Texts) {
                    FieldView::Texts(rs) => rs.map_values(|r: Seq<char>| join_path(ws, r)),
                    _ => Seq::empty(),
                };
                let roots = from_root + from_roots;
                DefaultsView {
                    roots: if roots.len() == 0 {
                        seq![dir, ws]
                    } else {
                        roots
                    },
                    provider: text_field(t@, "provider"@),
                    size: match field_view(t@, "size"@, FieldKind::Size) {
                        FieldView::Size(n) => Some(n),
                        _ => None,
                    },
                    paint: paint_field(t@, "paint"@),
                }
            },
            _ => fallback_defaults(ws, dir),
        },
    }
}

pub open spec fn defaults_issues(v: Option<TomlItem>) -> Seq<(Seq<char>, int, int)> {
    match v {
        None => Seq::empty(),
        Some(item) => match item.value {
            TomlValue::Table(t) => table_issues(t@, defaults_fields(), item.start as int, item.end as int),
            _ => seq![("`[defaults]` must be a table"@, item.start as int, item.end as int)],
        },
    }
}

fn defaults_fields_exec() -> (r: Vec<(String, FieldKind)>)
    ensures
        crate::fields::fields_view(r@) == defaults_fields(),
{
    let mut r: Vec<(String, FieldKind)> = Vec::new();
    r.push(("root".to_owned(), FieldKind::Text));
    r.push(("roots".to_owned(), FieldKind::Texts));
    r.push(("provider".to_owned(), FieldKind::Text));
    r.push(("size".to_owned(), FieldKind::Size));
    r.push(("paint".to_owned(), FieldKind::PaintValue));
    proof {
        assert(crate::fields::fields_view(r@) =~= defaults_fields());
    }
    r
}

fn fallback_defaults_exec(workspace_root: &String, manifest_dir: &String) -> (r: ManifestDefaults)
    ensures
        r@ == fallback_defaults(workspace_root@, manifest_dir@),
{
    let mut roots: Vec<String> = Vec::new();
    roots.push(manifest_dir.clone());
    roots.push(workspace_root.clone());
    proof {
        assert(strings_view(roots@) =~= seq![manifest_dir@, workspace_root@]);
    }
    ManifestDefaults { roots, provider: None, size: None, paint: None }
}

/// Reads `[defaults]` (the value, if the document has one) against the
/// workspace root and the manifest's directory.
pub fn parse_defaults(
    value: Option<&TomlItem>,
    workspace_root: &String,
    manifest_dir: &String,
    issues: &mut Vec<Issue>,
) -> (r: ManifestDefaults)
    ensures
        r@ == defaults_of(
            match value {
                Some(v) => Some(*v),
                None => None,
            },
            workspace_root@,
            manifest_dir@,
        ),
        issues_view(final(issues)@) == issues_view(old(issues)@) + defaults_issues(
            match value {
                Some(v) => Some(*v),
                None => None,
            },
        ),
{
    let item = match value {
        None => {
            proof {
                assert(issues_view(issues@) =~= issues_view(old(issues)@) + Seq::empty());
            }
            return fallback_defaults_exec(workspace_root, manifest_dir);
        },
        Some(item) => item,
    };
    let t = match &item.value {
        TomlValue::Table(t) => t,
        _ => {
            let mut m: Vec<char> = Vec::new();
            push_str(&mut m, "`[defaults]` must be a table");
            let ghost prev = issues@;
            issues.push(Issue { message: string_of(m.as_slice()), start: item.start, end: item.end });
            proof {
                assert(issues_view(issues@) =~= issues_view(prev) + defaults_issues(Some(*item)));
            }
            return fallback_defaults_exec(workspace_root, manifest_dir);
        },
    };
    let fields = defaults_fields_exec();
    let values = read_fields(t, &fields, item.start, item.end, issues);
    proof {
        assert(values@[0]@ == field_view(t@, "root"@, FieldKind::Text));
        assert(values@[1]@ == field_view(t@, "roots"@, FieldKind::Texts));
        assert(values@[2]@ == field_view(t@, "provider"@, FieldKind::Text));
        assert(values@[3]@ == field_view(t@, "size"@, FieldKind::Size));
        assert(values@[4]@ == field_view(t@, "paint"@, FieldKind::PaintValue));
    }
    let mut roots: Vec<String> = Vec::new();
    if let FieldValue::Text(r) = &values[0] {
        roots.push(join_path_exec(workspace_root.as_str(), r.as_str()));
    }
    proof {
        assert(strings_view(roots@) =~= match text_field(t@, "root"@) {
            Some(r) => seq![join_path(workspace_root@, r)],
            None => Seq::<Seq<char>>::empty(),
        });
    }
    let ghost from_root = strings_view(roots@);
    if let FieldValue::Texts(rs) = &values[1] {
        let mut k: usize = 0;
        while k < rs.len()
            invariant
                k <= rs@.len(),
                roots@.len() == from_root.len() + k,
                forall|j: int| 0 <= j < from_root.len() ==> #[trigger] roots@[j]@ == from_root[j],
                forall|j: int| 0 <= j < k ==> #[trigger] roots@[from_root.len() + j]@ == join_path(workspace_root@, rs@[j]@),
            decreases rs@.len() - k,
        {
            roots.push(join_path_exec(workspace_root.as_str(), rs[k].as_str()));
            k += 1;
        }
        proof {
            let want = from_root + strings_view(rs@).map_values(|r: Seq<char>| join_path(workspace_root@, r));
            assert forall|j: int| 0 <= j < roots@.len() implies strings_view(roots@)[j] == want[j] by {
                if j < from_root.len() {
                    assert(roots@[j]@ == from_root[j]);
                } else {
                    let q = j - from_root.len();
                    assert(roots@[from_root.len() + q]@ == join_path(workspace_root@, rs@[q]@));
                }
            }
            assert(strings_view(roots@) =~= want);
        }
    } else {
        proof {
            assert(strings_view(roots@) =~= from_root + Seq::empty());
        }
    }
    let provider = match &values[2] {
        FieldValue::Text(p) => Some(p.clone()),
        _ => None,
    };
    let size = match &values[3] {
        FieldValue::Size(n) => Some(*n),
        _ => None,
    };
    let paint = match &values[4] {
        FieldValue::Painted(p) => Some(*p),
        _ => None,
    };
    proof {
        let from_roots = match field_view(t@, "roots"@, FieldKind::Texts) {
            FieldView::Texts(rs) => rs.map_values(|r: Seq<char>| join_path(workspace_root@, r)),
            _ => Seq::empty(),
        };
        assert(strings_view(roots@) == from_root + from_roots);
    }
    if roots.len() == 0 {
        roots.push(manifest_dir.clone());
        roots.push(workspace_root.clone());
        proof {
            assert(strings_view(roots@) =~= seq![manifest_dir@, workspace_root@]);
        }
    }
    ManifestDefaults { roots, provider, size, paint }
}

} // verus!
