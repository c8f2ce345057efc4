//! `[providers.<name>]` declarations, the built-in provider schemas, and
//! resolving the first against the second.

use crate::fields::{
    field, field_view, issues_view, read_fields, strings_view, table_issues, FieldKind, FieldValue, FieldView,
    Issue,
};
use crate::model::{clone_strings, clone_u16s, first_index, lemma_first_index, lemma_first_index_is, Paint, ProviderSchema};
use crate::text::{push_str, string_of};
use crate::toml::{TomlEntry, TomlItem, TomlValue};
use vstd::prelude::*;

verus! {

/// A provider schema as plain values.
pub ghost struct SchemaView {
    pub variants: Seq<Seq<char>>,
    pub sizes: Seq<u16>,
    pub paint: Option<Paint>,
}

pub open spec fn schema_view(s: ProviderSchema) -> SchemaView {
    SchemaView { variants: strings_view(s.variants@), sizes: s.sizes@, paint: s.paint }
}

/// A list of named schemas as plain values.
pub open spec fn schemas_view(v: Seq<(String, ProviderSchema)>) -> Seq<(Seq<char>, SchemaView)> {
    v.map_values(|p: (String, ProviderSchema)| (p.0@, schema_view(p.1)))
}

pub open spec fn named_view(name: Seq<char>) -> spec_fn((Seq<char>, SchemaView)) -> bool {
    |p: (Seq<char>, SchemaView)| p.0 == name
}

/// `HashMap::insert`: replaces the schema of `name`, or adds it last.
pub open spec fn upsert(list: Seq<(Seq<char>, SchemaView)>, name: Seq<char>, s: SchemaView) -> Seq<
    (Seq<char>, SchemaView),
> {
    match first_index(list, named_view(name)) {
        Some(i) => list.update(i, (name, s)),
        None => list.push((name, s)),
    }
}

/// `HashMap::entry(name).or_insert(s)`: adds `name` last unless present.
pub open spec fn insert_missing(list: Seq<(Seq<char>, SchemaView)>, name: Seq<char>, s: SchemaView) -> Seq<
    (Seq<char>, SchemaView),
> {
    match first_index(list, named_view(name)) {
        Some(_) => list,
        None => list.push((name, s)),
    }
}

/// Whether no two schemas of `list` share a name.
pub open spec fn names_distinct(list: Seq<(Seq<char>, SchemaView)>) -> bool {
    forall|i: int, j: int| 0 <= i < j < list.len() ==> #[trigger] list[i].0 != #[trigger] list[j].0
}

pub open spec fn sv(s: &str) -> Seq<char> {
    s@
}

/// The provider schemas guicons ships with.
pub open spec fn builtin_view() -> Seq<(Seq<char>, SchemaView)> {
    seq![
        (
            "fluent"@,
            SchemaView {
                variants: seq!["regular"@, "filled"@],
                sizes: seq![16u16, 20u16, 24u16, 28u16, 32u16, 48u16],
                paint: None,
            },
        ),
        (
            "ph"@,
            SchemaView {
                variants: seq!["thin"@, "light"@, "bold"@, "fill"@, "duotone"@],
                sizes: Seq::empty(),
                paint: None,
            },
        ),
        (
            "material-symbols"@,
            SchemaView {
                variants: seq!["outline"@, "rounded"@, "sharp"@, "outline-rounded"@, "outline-sharp"@],
                sizes: Seq::empty(),
                paint: None,
            },
        ),
        ("heroicons"@, SchemaView { variants: seq!["solid"@], sizes: seq![16u16, 20u16], paint: None }),
        ("bi"@, SchemaView { variants: seq!["fill"@], sizes: Seq::empty(), paint: None }),
        ("tabler"@, SchemaView { variants: seq!["filled"@], sizes: Seq::empty(), paint: None }),
    ]
}

fn strings_of(items: &[&str]) -> (r: Vec<String>)
    ensures
        strings_view(r@) == items@.map_values(|s: &str| s@),
{
    let mut r: Vec<String> = Vec::new();
    let mut i: usize = 0;
    while i < items.len()
        invariant
            i <= items@.len(),
            r@.len() == i,
            forall|k: int| 0 <= k < i ==> #[trigger] r@[k]@ == items@[k]@,
        decreases items@.len() - i,
    {
        r.push(items[i].to_owned());
        i += 1;
    }
    proof {
        assert(strings_view(r@) =~= items@.map_values(|s: &str| s@));
    }
    r
}

fn u16s_of(items: &[u16]) -> (r: Vec<u16>)
    ensures
        r@ == items@,
{
    let mut r: Vec<u16> = Vec::new();
    let mut i: usize = 0;
    while i < items.len()
        invariant
            i <= items@.len(),
            r@ == items@.take(i as int),
        decreases items@.len() - i,
    {
        proof {
            assert(items@.take(i + 1) =~= items@.take(i as int).push(items@[i as int]));
        }
        r.push(items[i]);
        i += 1;
    }
    proof {
        assert(items@.take(items@.len() as int) =~= items@);
    }
    r
}

fn builtin_schema(name: &str, variants: &[&str], sizes: &[u16]) -> (r: (String, ProviderSchema))
    ensures
        r.0@ == name@,
        schema_view(r.1) == (SchemaView {
            variants: variants@.map_values(|s: &str| s@),
            sizes: sizes@,
            paint: None,
        }),
{
    (name.to_owned(), ProviderSchema { variants: strings_of(variants), sizes: u16s_of(sizes), paint: None })
}

/// The provider schemas guicons ships with, in a fixed order.
pub fn builtin_providers() -> (r: Vec<(String, ProviderSchema)>)
    ensures
        schemas_view(r@) == builtin_view(),
{
    let mut r: Vec<(String, ProviderSchema)> = Vec::new();
    let ghost b = builtin_view();
    let p0 = builtin_schema("fluent", &["regular", "filled"], &[16, 20, 24, 28, 32, 48]);
    proof {
        assert(schema_view(p0.1).variants =~= b[0].1.variants);
        assert(schema_view(p0.1).sizes =~= b[0].1.sizes);
    }
    r.push(p0);
    let p1 = builtin_schema("ph", &["thin", "light", "bold", "fill", "duotone"], &[]);
    proof {
        assert(schema_view(p1.1).variants =~= b[1].1.variants);
        assert(schema_view(p1.1).sizes =~= b[1].1.sizes);
    }
    r.push(p1);
    let p2 = builtin_schema(
        "material-symbols",
        &["outline", "rounded", "sharp", "outline-rounded", "outline-sharp"],
        &[],
    );
    proof {
        assert(schema_view(p2.1).variants =~= b[2].1.variants);
        assert(schema_view(p2.1).sizes =~= b[2].1.sizes);
    }
    r.push(p2);
    let p3 = builtin_schema("heroicons", &["solid"], &[16, 20]);
    proof {
        assert(schema_view(p3.1).variants =~= b[3].1.variants);
        assert(schema_view(p3.1).sizes =~= b[3].1.sizes);
    }
    r.push(p3);
    let p4 = builtin_schema("bi", &["fill"], &[]);
    proof {
        assert(schema_view(p4.1).variants =~= b[4].1.variants);
        assert(schema_view(p4.1).sizes =~= b[4].1.sizes);
    }
    r.push(p4);
    let p5 = builtin_schema("tabler", &["filled"], &[]);
    proof {
        assert(schema_view(p5.1).variants =~= b[5].1.variants);
        assert(schema_view(p5.1).sizes =~= b[5].1.sizes);
    }
    r.push(p5);
    proof {
        assert(schemas_view(r@) =~= builtin_view());
    }
    r
}

/// Names of the providers with a built-in schema (`fluent`, `ph`, ...), for
/// editor tooling offering completion on `[providers.<name>]`.
pub fn builtin_provider_names() -> (r: Vec<String>)
    ensures
        strings_view(r@) == builtin_view().map_values(|p: (Seq<char>, SchemaView)| p.0),
{
    let b = builtin_providers();
    let mut r: Vec<String> = Vec::new();
    let mut i: usize = 0;
    while i < b.len()
        invariant
            schemas_view(b@) == builtin_view(),
            i <= b@.len(),
            r@.len() == i,
            forall|k: int| 0 <= k < i ==> #[trigger] r@[k]@ == b@[k].0@,
        decreases b@.len() - i,
    {
        r.push(b[i].0.clone());
        i += 1;
    }
    proof {
        assert forall|k: int| 0 <= k < r@.len() implies strings_view(r@)[k] == builtin_view().map_values(
            |p: (Seq<char>, SchemaView)| p.0,
        )[k] by {
            assert(schemas_view(b@)[k] == builtin_view()[k]);
        }
        assert(strings_view(r@) =~= builtin_view().map_values(|p: (Seq<char>, SchemaView)| p.0));
    }
    r
}

/// One `[providers.<name>]` (or `[providers.<name>.override]`) entry,
/// before it is checked against the built-in set.
#[derive(Debug)]
pub enum ProviderDeclaration {
    Full { schema: ProviderSchema, start: usize, end: usize },
    Override {
        variants: Option<Vec<String>>,
        sizes: Option<Vec<u16>>,
        paint: Option<Paint>,
        start: usize,
        end: usize,
    },
}

/// A declaration as plain values.
pub ghost enum DeclView {
    Full { schema: SchemaView, start: int, end: int },
    Override {
        variants: Option<Seq<Seq<char>>>,
        sizes: Option<Seq<u16>>,
        paint: Option<Paint>,
        start: int,
        end: int,
    },
}

pub open spec fn decl_view(d: ProviderDeclaration) -> DeclView {
    match d {
        ProviderDeclaration::Full { schema, start, end } => DeclView::Full {
            schema: schema_view(schema),
            start: start as int,
            end: end as int,
        },
        ProviderDeclaration::Override { variants, sizes, paint, start, end } => DeclView::Override {
            variants: match variants {
                Some(v) => Some(strings_view(v@)),
                None => None,
            },
            sizes: match sizes {
                Some(v) => Some(v@),
                None => None,
            },
            paint,
            start: start as int,
            end: end as int,
        },
    }
}

pub open spec fn decls_view(v: Seq<(String, ProviderDeclaration)>) -> Seq<(Seq<char>, DeclView)> {
    v.map_values(|p: (String, ProviderDeclaration)| (p.0@, decl_view(p.1)))
}

/// The fields of a provider table, in the order they are read.
pub open spec fn provider_fields() -> Seq<(Seq<char>, FieldKind)> {
    seq![("variants"@, FieldKind::Texts), ("sizes"@, FieldKind::Sizes), ("paint"@, FieldKind::PaintValue)]
}

pub open spec fn texts_field(t: Seq<TomlEntry>, name: Seq<char>) -> Option<Seq<Seq<char>>> {
    match field_view(t, name, FieldKind::Texts) {
        FieldView::Texts(v) => Some(v),
        _ => None,
    }
}

pub open spec fn sizes_field(t: Seq<TomlEntry>, name: Seq<char>) -> Option<Seq<u16>> {
    match field_view(t, name, FieldKind::Sizes) {
        FieldView::Sizes(v) => Some(v),
        _ => None,
    }
}

pub open spec fn paint_of(t: Seq<TomlEntry>) -> Option<Paint> {
    match field_view(t, "paint"@, FieldKind::PaintValue) {
        FieldView::Painted(p) => Some(p),
        _ => None,
    }
}

pub open spec fn or_empty<T>(v: Option<Seq<T>>) -> Seq<T> {
    match v {
        Some(x) => x,
        None => Seq::empty(),
    }
}

/// Whether `t` holds a key besides `override`.
pub open spec fn has_other_than_override(t: Seq<TomlEntry>) -> bool {
    exists|i: int| 0 <= i < t.len() && #[trigger] t[i].key@ != "override"@
}

pub open spec fn not_table_error(name: Seq<char>) -> Seq<char> {
    "`providers."@ + name + "` must be a table"@
}

pub open spec fn mix_error(name: Seq<char>) -> Seq<char> {
    "`providers."@ + name + "` can't mix its own fields with `providers."@ + name
        + ".override` - use one or the other"@
}

pub open spec fn override_not_table_error(name: Seq<char>) -> Seq<char> {
    "`providers."@ + name + ".override` must be a table"@
}

/// What the provider entry `e` declares, if it has no issue.
pub open spec fn decl_of(e: TomlEntry) -> Option<DeclView> {
    match e.item.value {
        TomlValue::Table(et) => if field(et@, "override"@) is Some {
            if has_other_than_override(et@) {
                None
            } else {
                let ov = field(et@, "override"@).unwrap();
                match ov.value {
                    TomlValue::Table(ot) => if table_issues(
                        ot@,
                        provider_fields(),
                        ov.start as int,
                        ov.end as int,
                    ).len() > 0 {
                        None
                    } else {
                        Some(
                            DeclView::Override {
                                variants: texts_field(ot@, "variants"@),
                                sizes: sizes_field(ot@, "sizes"@),
                                paint: paint_of(ot@),
                                start: e.item.start as int,
                                end: e.item.end as int,
                            },
                        )
                    },
                    _ => None,
                }
            }
        } else if table_issues(et@, provider_fields(), e.item.start as int, e.item.end as int).len() > 0 {
            None
        } else {
            Some(
                DeclView::Full {
                    schema: SchemaView {
                        variants: or_empty(texts_field(et@, "variants"@)),
                        sizes: or_empty(sizes_field(et@, "sizes"@)),
                        paint: paint_of(et@),
                    },
                    start: e.item.start as int,
                    end: e.item.end as int,
                },
            )
        },
        _ => None,
    }
}

/// The issues of the provider entry `e`.
pub open spec fn decl_issues(e: TomlEntry) -> Seq<(Seq<char>, int, int)> {
    let span = (e.item.start as int, e.item.end as int);
    match e.item.value {
        TomlValue::Table(et) => if field(et@, "override"@) is Some {
            if has_other_than_override(et@) {
                seq![(mix_error(e.key@), span.0, span.1)]
            } else {
                let ov = field(et@, "override"@).unwrap();
                match ov.value {
                    TomlValue::Table(ot) => table_issues(ot@, provider_fields(), ov.start as int, ov.end as int),
                    _ => seq![(override_not_table_error(e.key@), ov.start as int, ov.end as int)],
                }
            }
        } else {
            table_issues(et@, provider_fields(), span.0, span.1)
        },
        _ => seq![(not_table_error(e.key@), span.0, span.1)],
    }
}

/// The declarations of the provider table `t`, in its order.
pub open spec fn decls_of(t: Seq<TomlEntry>) -> Seq<(Seq<char>, DeclView)>
    decreases t.len(),
{
    if t.len() == 0 {
        Seq::empty()
    } else {
        decls_of(t.drop_last()) + match decl_of(t.last()) {
            Some(d) => seq![(t.last().key@, d)],
            None => Seq::empty(),
        }
    }
}

pub open spec fn decls_issues(t: Seq<TomlEntry>) -> Seq<(Seq<char>, int, int)>
    decreases t.len(),
{
    if t.len() == 0 {
        Seq::empty()
    } else {
        decls_issues(t.drop_last()) + decl_issues(t.last())
    }
}

/// What `[providers]` (the value `v`, if present) declares.
pub open spec fn provider_decls(v: Option<TomlItem>) -> Seq<(Seq<char>, DeclView)> {
    match v {
        Some(item) => match item.value {
            TomlValue::Table(t) => decls_of(t@),
            _ => Seq::empty(),
        },
        None => Seq::empty(),
    }
}

pub open spec fn provider_decls_issues(v: Option<TomlItem>) -> Seq<(Seq<char>, int, int)> {
    match v {
        Some(item) => match item.value {
            TomlValue::Table(t) => decls_issues(t@),
            _ => seq![("`[providers]` must be a table"@, item.start as int, item.end as int)],
        },
        None => Seq::empty(),
    }
}

fn provider_fields_exec() -> (r: Vec<(String, FieldKind)>)
    ensures
        crate::fields::fields_view(r@) == provider_fields(),
{
    let mut r: Vec<(String, FieldKind)> = Vec::new();
    r.push(("variants".to_owned(), FieldKind::Texts));
    r.push(("sizes".to_owned(), FieldKind::Sizes));
    r.push(("paint".to_owned(), FieldKind::PaintValue));
    proof {
        assert(crate::fields::fields_view(r@) =~= provider_fields());
    }
    r
}

fn push_named_message(issues: &mut Vec<Issue>, before: &str, name: &String, after: &str, start: usize, end: usize)
    ensures
        issues_view(final(issues)@) == issues_view(old(issues)@) + seq![
            (before@ + name@ + after@, start as int, end as int),
        ],
{
    let mut m: Vec<char> = Vec::new();
    push_str(&mut m, before);
    push_str(&mut m, name.as_str());
    push_str(&mut m, after);
    let ghost prev = issues@;
    issues.push(Issue { message: string_of(m.as_slice()), start, end });
    proof {
        assert(issues_view(issues@) =~= issues_view(prev) + seq![
            (before@ + name@ + after@, start as int, end as int),
        ]);
    }
}

fn has_other_than_override_exec(t: &Vec<TomlEntry>) -> (r: bool)
    ensures
        r == has_other_than_override(t@),
{
    let ov = crate::text::chars_of("override");
    let mut i: usize = 0;
    while i < t.len()
        invariant
            ov@ == "override"@,
            i <= t@.len(),
            forall|j: int| 0 <= j < i ==> #[trigger] t@[j].key@ == "override"@,
        decreases t@.len() - i,
    {
        let k = crate::text::chars_of(t[i].key.as_str());
        if !crate::text::chars_eq(k.as_slice(), ov.as_slice()) {
            return true;
        }
        i += 1;
    }
    false
}

/// Reads the fields of a provider table; `None` if any has an issue.
fn read_provider_table(t: &Vec<TomlEntry>, start: usize, end: usize, issues: &mut Vec<Issue>) -> (r: Option<
    (Option<Vec<String>>, Option<Vec<u16>>, Option<Paint>),
>)
    ensures
        issues_view(final(issues)@) == issues_view(old(issues)@) + table_issues(
            t@,
            provider_fields(),
            start as int,
            end as int,
        ),
        r is Some <==> table_issues(t@, provider_fields(), start as int, end as int).len() == 0,
        r matches Some((v, s, p)) ==> (match v {
            Some(x) => Some(strings_view(x@)),
            None => None,
        }) == texts_field(t@, "variants"@) && (match s {
            Some(x) => Some(x@),
            None => None,
        }) == sizes_field(t@, "sizes"@) && p == paint_of(t@),
{
    let fields = provider_fields_exec();
    let before = issues.len();
    let ghost before_view = issues_view(issues@);
    let values = read_fields(t, &fields, start, end, issues);
    proof {
        assert(issues_view(issues@).len() == issues@.len());
        assert(before_view.len() == before);
    }
    if issues.len() != before {
        return None;
    }
    proof {
        assert(values@[0]@ == field_view(t@, "variants"@, FieldKind::Texts));
        assert(values@[1]@ == field_view(t@, "sizes"@, FieldKind::Sizes));
        assert(values@[2]@ == field_view(t@, "paint"@, FieldKind::PaintValue));
    }
    let variants = match &values[0] {
        FieldValue::Texts(v) => Some(clone_strings(v)),
        _ => None,
    };
    let sizes = match &values[1] {
        FieldValue::Sizes(v) => Some(clone_u16s(v)),
        _ => None,
    };
    let paint = match &values[2] {
        FieldValue::Painted(p) => Some(*p),
        _ => None,
    };
    Some((variants, sizes, paint))
}

/// Reads one `[providers.<name>]` entry.
fn parse_provider(e: &TomlEntry, issues: &mut Vec<Issue>) -> (r: Option<ProviderDeclaration>)
    ensures
        match r {
            Some(d) => decl_of(*e) == Some(decl_view(d)),
            None => decl_of(*e) is None,
        },
        issues_view(final(issues)@) == issues_view(old(issues)@) + decl_issues(*e),
{
    let name = &e.key;
    match &e.item.value {
        TomlValue::Table(et) => match crate::fields::get_field(et, "override") {
            Some(ov) => {
                if has_other_than_override_exec(et) {
                    let mut m: Vec<char> = Vec::new();
                    push_str(&mut m, "`providers.");
                    push_str(&mut m, name.as_str());
                    push_str(&mut m, "` can't mix its own fields with `providers.");
                    push_str(&mut m, name.as_str());
                    push_str(&mut m, ".override` - use one or the other");
                    let ghost prev = issues@;
                    issues.push(Issue { message: string_of(m.as_slice()), start: e.item.start, end: e.item.end });
                    proof {
                        assert(issues_view(issues@) =~= issues_view(prev) + decl_issues(*e));
                    }
                    return None;
                }
                match &ov.value {
                    TomlValue::Table(ot) => match read_provider_table(ot, ov.start, ov.end, issues) {
                        Some((variants, sizes, paint)) => Some(
                            ProviderDeclaration::Override {
                                variants,
                                sizes,
                                paint,
                                start: e.item.start,
                                end: e.item.end,
                            },
                        ),
                        None => None,
                    },
                    _ => {
                        push_named_message(issues, "`providers.", name, ".override` must be a table", ov.start, ov.end);
                        None
                    },
                }
            },
            None => match read_provider_table(et, e.item.start, e.item.end, issues) {
                Some((variants, sizes, paint)) => {
                    let variants = match variants {
                        Some(v) => v,
                        None => Vec::new(),
                    };
                    let sizes = match sizes {
                        Some(v) => v,
                        None => Vec::new(),
                    };
                    proof {
                        assert(strings_view(variants@) =~= or_empty(texts_field(et@, "variants"@)));
                        assert(sizes@ =~= or_empty(sizes_field(et@, "sizes"@)));
                    }
                    Some(
                        ProviderDeclaration::Full {
                            schema: ProviderSchema { variants, sizes, paint },
                            start: e.item.start,
                            end: e.item.end,
                        },
                    )
                },
                None => None,
            },
        },
        _ => {
            push_named_message(issues, "`providers.", name, "` must be a table", e.item.start, e.item.end);
            None
        },
    }
}

/// Reads `[providers]` (the value, if the document has one): the
/// declarations that have no issue, in table order, and every issue.
pub fn parse_providers(value: Option<&TomlItem>, issues: &mut Vec<Issue>) -> (r: Vec<(String, ProviderDeclaration)>)
    ensures
        decls_view(r@) == provider_decls(
            match value {
                Some(v) => Some(*v),
                None => None,
            },
        ),
        issues_view(final(issues)@) == issues_view(old(issues)@) + provider_decls_issues(
            match value {
                Some(v) => Some(*v),
                None => None,
            },
        ),
{
    let mut out: Vec<(String, ProviderDeclaration)> = Vec::new();
    let item = match value {
        Some(item) => item,
        None => {
            proof {
                assert(decls_view(out@) =~= Seq::empty());
                assert(issues_view(issues@) =~= issues_view(old(issues)@) + Seq::empty());
            }
            return out;
        },
    };
    match &item.value {
        TomlValue::Table(t) => {
            let mut i: usize = 0;
            while i < t.len()
                invariant
                    i <= t@.len(),
                    decls_view(out@) == decls_of(t@.take(i as int)),
                    issues_view(issues@) == issues_view(old(issues)@) + decls_issues(t@.take(i as int)),
                decreases t@.len() - i,
            {
                proof {
                    assert(t@.take(i + 1).drop_last() =~= t@.take(i as int));
                    assert(t@.take(i + 1).last() == t@[i as int]);
                }
                let ghost prev = out@;
                match parse_provider(&t[i], issues) {
                    Some(d) => {
                        out.push((t[i].key.clone(), d));
                    },
                    None => {},
                }
                proof {
                    assert(decls_view(out@) =~= decls_of(t@.take(i + 1)));
                    assert(issues_view(issues@) =~= issues_view(old(issues)@) + decls_issues(t@.take(i + 1)));
                }
                i += 1;
            }
            proof {
                assert(t@.take(t@.len() as int) =~= t@);
            }
            out
        },
        _ => {
            let mut m: Vec<char> = Vec::new();
            push_str(&mut m, "`[providers]` must be a table");
            let ghost prev = issues@;
            issues.push(Issue { message: string_of(m.as_slice()), start: item.start, end: item.end });
            proof {
                assert(issues_view(issues@) =~= issues_view(prev) + provider_decls_issues(Some(*item)));
                assert(decls_view(out@) =~= Seq::empty());
            }
            out
        },
    }
}

pub open spec fn builtin_error(name: Seq<char>) -> Seq<char> {
    "`providers."@ + name + "` is a built-in provider; use `[providers."@ + name
        + ".override]` to customize it instead of redefining it"@
}

pub open spec fn unknown_override_error(name: Seq<char>) -> Seq<char> {
    "`providers."@ + name + ".override` used, but `"@ + name + "` isn't a built-in provider"@
}

pub open spec fn or_seq<T>(a: Option<Seq<T>>, b: Seq<T>) -> Seq<T> {
    match a {
        Some(x) => x,
        None => b,
    }
}

/// One declaration checked against `builtins` and added to `acc`.
pub open spec fn resolve_step(
    acc: (Seq<(Seq<char>, SchemaView)>, Seq<(Seq<char>, int, int)>),
    name: Seq<char>,
    d: DeclView,
    builtins: Seq<(Seq<char>, SchemaView)>,
) -> (Seq<(Seq<char>, SchemaView)>, Seq<(Seq<char>, int, int)>) {
    match d {
        DeclView::Full { schema, start, end } => if first_index(builtins, named_view(name)) is Some {
            (acc.0, acc.1.push((builtin_error(name), start, end)))
        } else {
            (upsert(acc.0, name, schema), acc.1)
        },
        DeclView::Override { variants, sizes, paint, start, end } => match first_index(builtins, named_view(name)) {
            Some(i) => {
                let base = builtins[i].1;
                (
                    upsert(
                        acc.0,
                        name,
                        SchemaView {
                            variants: or_seq(variants, base.variants),
                            sizes: or_seq(sizes, base.sizes),
                            paint: match paint {
                                Some(p) => Some(p),
                                None => base.paint,
                            },
                        },
                    ),
                    acc.1,
                )
            },
            None => (acc.0, acc.1.push((unknown_override_error(name), start, end))),
        },
    }
}

/// The declarations checked against `builtins`, in order.
pub open spec fn resolve_decls(decls: Seq<(Seq<char>, DeclView)>, builtins: Seq<(Seq<char>, SchemaView)>) -> (
    Seq<(Seq<char>, SchemaView)>,
    Seq<(Seq<char>, int, int)>,
)
    decreases decls.len(),
{
    if decls.len() == 0 {
        (Seq::empty(), Seq::empty())
    } else {
        resolve_step(resolve_decls(decls.drop_last(), builtins), decls.last().0, decls.last().1, builtins)
    }
}

/// `list` with every schema of `extra` that it does not name added, in order.
pub open spec fn add_missing(list: Seq<(Seq<char>, SchemaView)>, extra: Seq<(Seq<char>, SchemaView)>) -> Seq<
    (Seq<char>, SchemaView),
>
    decreases extra.len(),
{
    if extra.len() == 0 {
        list
    } else {
        insert_missing(add_missing(list, extra.drop_last()), extra.last().0, extra.last().1)
    }
}

/// The schemas a manifest's declarations resolve to, the built-ins it does
/// not mention included.
pub open spec fn resolved(decls: Seq<(Seq<char>, DeclView)>) -> Seq<(Seq<char>, SchemaView)> {
    add_missing(resolve_decls(decls, builtin_view()).0, builtin_view())
}

pub open spec fn resolve_issues(decls: Seq<(Seq<char>, DeclView)>) -> Seq<(Seq<char>, int, int)> {
    resolve_decls(decls, builtin_view()).1
}

pub proof fn lemma_first_index_view(list: Seq<(String, ProviderSchema)>, name: Seq<char>)
    ensures
        first_index(list, crate::model::named(name)) == first_index(schemas_view(list), named_view(name)),
    decreases list.len(),
{
    if list.len() > 0 {
        assert(schemas_view(list).skip(1) =~= schemas_view(list.skip(1)));
        lemma_first_index_view(list.skip(1), name);
    }
}

pub proof fn lemma_upsert_keeps_distinct(list: Seq<(Seq<char>, SchemaView)>, name: Seq<char>, s: SchemaView)
    requires
        names_distinct(list),
    ensures
        names_distinct(upsert(list, name, s)),
        names_distinct(insert_missing(list, name, s)),
{
    lemma_first_index(list, named_view(name));
}

proof fn lemma_add_missing_distinct(list: Seq<(Seq<char>, SchemaView)>, extra: Seq<(Seq<char>, SchemaView)>)
    requires
        names_distinct(list),
    ensures
        names_distinct(add_missing(list, extra)),
    decreases extra.len(),
{
    if extra.len() > 0 {
        lemma_add_missing_distinct(list, extra.drop_last());
        lemma_upsert_keeps_distinct(add_missing(list, extra.drop_last()), extra.last().0, extra.last().1);
    }
}

proof fn lemma_resolve_distinct(decls: Seq<(Seq<char>, DeclView)>, builtins: Seq<(Seq<char>, SchemaView)>)
    ensures
        names_distinct(resolve_decls(decls, builtins).0),
    decreases decls.len(),
{
    if decls.len() > 0 {
        lemma_resolve_distinct(decls.drop_last(), builtins);
        let acc = resolve_decls(decls.drop_last(), builtins);
        lemma_upsert_keeps_distinct(acc.0, decls.last().0, SchemaView { variants: Seq::empty(), sizes: Seq::empty(), paint: None });
        match decls.last().1 {
            DeclView::Full { schema, .. } => {
                lemma_upsert_keeps_distinct(acc.0, decls.last().0, schema);
            },
            DeclView::Override { variants, sizes, paint, .. } => {
                if let Some(i) = first_index(builtins, named_view(decls.last().0)) {
                    let base = builtins[i].1;
                    lemma_upsert_keeps_distinct(
                        acc.0,
                        decls.last().0,
                        SchemaView {
                            variants: or_seq(variants, base.variants),
                            sizes: or_seq(sizes, base.sizes),
                            paint: match paint {
                                Some(p) => Some(p),
                                None => base.paint,
                            },
                        },
                    );
                }
            },
        }
    }
}

/// Resolved schemas never name a provider twice.
pub proof fn lemma_resolved_distinct(decls: Seq<(Seq<char>, DeclView)>)
    ensures
        names_distinct(resolved(decls)),
{
    lemma_resolve_distinct(decls, builtin_view());
    lemma_add_missing_distinct(resolve_decls(decls, builtin_view()).0, builtin_view());
}

/// `HashMap::insert` on a list of named schemas.
pub fn upsert_exec(list: &mut Vec<(String, ProviderSchema)>, name: String, schema: ProviderSchema)
    ensures
        schemas_view(final(list)@) == upsert(schemas_view(old(list)@), name@, schema_view(schema)),
{
    proof {
        lemma_first_index_view(list@, name@);
        lemma_first_index(list@, crate::model::named(name@));
    }
    match crate::model::find_provider(list, &name) {
        Some(i) => {
            let ghost prev = list@;
            list.set(i, (name, schema));
            proof {
                assert(schemas_view(list@) =~= schemas_view(prev).update(i as int, (name@, schema_view(schema))));
            }
        },
        None => {
            let ghost prev = list@;
            list.push((name, schema));
            proof {
                assert(schemas_view(list@) =~= schemas_view(prev).push((name@, schema_view(schema))));
            }
        },
    }
}

/// `HashMap::entry(name).or_insert(schema)` on a list of named schemas.
pub fn insert_missing_exec(list: &mut Vec<(String, ProviderSchema)>, name: String, schema: ProviderSchema)
    ensures
        schemas_view(final(list)@) == insert_missing(schemas_view(old(list)@), name@, schema_view(schema)),
{
    proof {
        lemma_first_index_view(list@, name@);
    }
    match crate::model::find_provider(list, &name) {
        Some(_) => {},
        None => {
            let ghost prev = list@;
            list.push((name, schema));
            proof {
                assert(schemas_view(list@) =~= schemas_view(prev).push((name@, schema_view(schema))));
            }
        },
    }
}

pub fn clone_schema(s: &ProviderSchema) -> (r: ProviderSchema)
    ensures
        schema_view(r) == schema_view(*s),
{
    ProviderSchema { variants: clone_strings(&s.variants), sizes: clone_u16s(&s.sizes), paint: s.paint }
}

/// Resolves a manifest's declarations against the built-in set: a bare
/// `[providers.X]` redefining a built-in is refused (`.override` is for
/// that); `.override` replaces the built-in's fields it names and keeps the
/// rest; an `.override` of a name that is not built in is refused;
/// built-ins the file does not mention pass through unchanged.
pub fn resolve_providers(decls: Vec<(String, ProviderDeclaration)>, issues: &mut Vec<Issue>) -> (r: Vec<
    (String, ProviderSchema),
>)
    ensures
        schemas_view(r@) == resolved(decls_view(decls@)),
        names_distinct(schemas_view(r@)),
        issues_view(final(issues)@) == issues_view(old(issues)@) + resolve_issues(decls_view(decls@)),
{
    let builtin = builtin_providers();
    let ghost bv = builtin_view();
    let ghost dv = decls_view(decls@);
    let mut out: Vec<(String, ProviderSchema)> = Vec::new();
    let ghost mut added: Seq<(Seq<char>, int, int)> = Seq::empty();
    let mut i: usize = 0;
    while i < decls.len()
        invariant
            schemas_view(builtin@) == bv,
            bv == builtin_view(),
            dv == decls_view(decls@),
            i <= decls@.len(),
            (schemas_view(out@), added) == resolve_decls(dv.take(i as int), bv),
            issues_view(issues@) == issues_view(old(issues)@) + added,
        decreases decls@.len() - i,
    {
        proof {
            assert(dv.take(i + 1).drop_last() =~= dv.take(i as int));
            assert(dv.take(i + 1).last() == dv[i as int]);
            lemma_first_index_view(builtin@, decls@[i as int].0@);
        }
        let (name, decl) = &decls[i];
        match decl {
            ProviderDeclaration::Full { schema, start, end } => {
                if crate::model::find_provider(&builtin, name).is_some() {
                    let mut m: Vec<char> = Vec::new();
                    push_str(&mut m, "`providers.");
                    push_str(&mut m, name.as_str());
                    push_str(&mut m, "` is a built-in provider; use `[providers.");
                    push_str(&mut m, name.as_str());
                    push_str(&mut m, ".override]` to customize it instead of redefining it");
                    let ghost prev = issues@;
                    issues.push(Issue { message: string_of(m.as_slice()), start: *start, end: *end });
                    proof {
                        let x = (builtin_error(name@), *start as int, *end as int);
                        assert(issues_view(issues@) =~= issues_view(prev).push(x));
                        assert((issues_view(old(issues)@) + added).push(x) =~= issues_view(old(issues)@) + added.push(x));
                        added = added.push(x);
                    }
                } else {
                    upsert_exec(&mut out, name.clone(), clone_schema(schema));
                }
            },
            ProviderDeclaration::Override { variants, sizes, paint, start, end } => {
                match crate::model::find_provider(&builtin, name) {
                    Some(b) => {
                        let base = &builtin[b].1;
                        let v = match variants {
                            Some(v) => clone_strings(v),
                            None => clone_strings(&base.variants),
                        };
                        let s = match sizes {
                            Some(s) => clone_u16s(s),
                            None => clone_u16s(&base.sizes),
                        };
                        let p = match paint {
                            Some(p) => Some(*p),
                            None => base.paint,
                        };
                        proof {
                            assert(schemas_view(builtin@)[b as int] == (builtin@[b as int].0@, schema_view(builtin@[b as int].1)));
                        }
                        upsert_exec(&mut out, name.clone(), ProviderSchema { variants: v, sizes: s, paint: p });
                    },
                    None => {
                        let mut m: Vec<char> = Vec::new();
                        push_str(&mut m, "`providers.");
                        push_str(&mut m, name.as_str());
                        push_str(&mut m, ".override` used, but `");
                        push_str(&mut m, name.as_str());
                        push_str(&mut m, "` isn't a built-in provider");
                        let ghost prev = issues@;
                        issues.push(Issue { message: string_of(m.as_slice()), start: *start, end: *end });
                        proof {
                            let x = (unknown_override_error(name@), *start as int, *end as int);
                            assert(issues_view(issues@) =~= issues_view(prev).push(x));
                            assert((issues_view(old(issues)@) + added).push(x) =~= issues_view(old(issues)@) + added.push(x));
                            added = added.push(x);
                        }
                    },
                }
            },
        }
        i += 1;
    }
    proof {
        assert(dv.take(decls@.len() as int) =~= dv);
    }
    let ghost base_list = schemas_view(out@);
    let mut k: usize = 0;
    while k < builtin.len()
        invariant
            schemas_view(builtin@) == bv,
            k <= builtin@.len(),
            schemas_view(out@) == add_missing(base_list, bv.take(k as int)),
        decreases builtin@.len() - k,
    {
        proof {
            assert(bv.take(k + 1).drop_last() =~= bv.take(k as int));
            assert(bv.take(k + 1).last() == bv[k as int]);
        }
        insert_missing_exec(&mut out, builtin[k].0.clone(), clone_schema(&builtin[k].1));
        k += 1;
    }
    proof {
        assert(bv.take(builtin@.len() as int) =~= bv);
        lemma_resolved_distinct(dv);
    }
    out
}

/// The schema a list gives `name`: that of its first entry so named.
pub open spec fn lookup(list: Seq<(Seq<char>, SchemaView)>, name: Seq<char>) -> Option<SchemaView> {
    match first_index(list, named_view(name)) {
        Some(i) => Some(list[i].1),
        None => None,
    }
}

/// Every item of `items` upserted into `list`, in order.
pub open spec fn upsert_all(list: Seq<(Seq<char>, SchemaView)>, items: Seq<(Seq<char>, SchemaView)>) -> Seq<
    (Seq<char>, SchemaView),
>
    decreases items.len(),
{
    if items.len() == 0 {
        list
    } else {
        upsert(upsert_all(list, items.drop_last()), items.last().0, items.last().1)
    }
}

/// Upserting `m` gives `m` its new schema and leaves every other name's.
pub proof fn lemma_lookup_upsert(list: Seq<(Seq<char>, SchemaView)>, m: Seq<char>, s: SchemaView, n: Seq<char>)
    ensures
        lookup(upsert(list, m, s), n) == (if m == n {
            Some(s)
        } else {
            lookup(list, n)
        }),
{
    let u = upsert(list, m, s);
    lemma_first_index(list, named_view(m));
    lemma_first_index(list, named_view(n));
    lemma_first_index(u, named_view(n));
    match first_index(list, named_view(m)) {
        Some(i) => {
            assert(u.len() == list.len());
            assert forall|j: int| 0 <= j < list.len() && j != i implies #[trigger] u[j] == list[j] by {}
            if m == n {
                lemma_first_index_is(u, named_view(n), i);
            } else {
                match first_index(list, named_view(n)) {
                    Some(k) => {
                        assert(k != i);
                        lemma_first_index_is(u, named_view(n), k);
                    },
                    None => {
                        lemma_first_index_is(u, named_view(n), u.len() as int);
                    },
                }
            }
        },
        None => {
            assert forall|j: int| 0 <= j < list.len() implies #[trigger] u[j] == list[j] by {}
            if m == n {
                lemma_first_index_is(u, named_view(n), list.len() as int);
            } else {
                match first_index(list, named_view(n)) {
                    Some(k) => {
                        lemma_first_index_is(u, named_view(n), k);
                    },
                    None => {
                        lemma_first_index_is(u, named_view(n), u.len() as int);
                    },
                }
            }
        },
    }
}

/// The schema of `name` in a list whose last item is named otherwise is
/// the one the rest of the list gives it; in a list of distinct names
/// whose last item is `name`, it is that item's.
proof fn lemma_lookup_drop_last(list: Seq<(Seq<char>, SchemaView)>, name: Seq<char>)
    requires
        list.len() > 0,
        names_distinct(list),
    ensures
        lookup(list, name) == (if list.last().0 == name {
            Some(list.last().1)
        } else {
            lookup(list.drop_last(), name)
        }),
{
    let d = list.drop_last();
    lemma_first_index(list, named_view(name));
    lemma_first_index(d, named_view(name));
    if list.last().0 == name {
        lemma_first_index_is(list, named_view(name), list.len() - 1);
    } else {
        match first_index(d, named_view(name)) {
            Some(k) => {
                assert(d[k] == list[k]);
                assert forall|j: int| 0 <= j < k implies !named_view(name)(#[trigger] list[j]) by {
                    assert(d[j] == list[j]);
                }
                lemma_first_index_is(list, named_view(name), k);
            },
            None => {
                assert forall|j: int| 0 <= j < list.len() implies !named_view(name)(#[trigger] list[j]) by {
                    if j < d.len() {
                        assert(d[j] == list[j]);
                    }
                }
                lemma_first_index_is(list, named_view(name), list.len() as int);
            },
        }
    }
}

/// A file's own provider declarations win over those of the files it
/// includes: merging the file's own (distinctly named) providers after
/// the included ones gives every name the file declares the file's schema,
/// and keeps the included schema of every other name.
pub proof fn lemma_own_providers_win(
    included: Seq<(Seq<char>, SchemaView)>,
    own: Seq<(Seq<char>, SchemaView)>,
    name: Seq<char>,
)
    requires
        names_distinct(own),
    ensures
        lookup(upsert_all(included, own), name) == (match lookup(own, name) {
            Some(s) => Some(s),
            None => lookup(included, name),
        }),
    decreases own.len(),
{
    if own.len() == 0 {
        lemma_first_index(own, named_view(name));
    } else {
        let d = own.drop_last();
        assert(names_distinct(d)) by {
            assert forall|i: int, j: int| 0 <= i < j < d.len() implies #[trigger] d[i].0 != #[trigger] d[j].0 by {
                assert(d[i] == own[i] && d[j] == own[j]);
            }
        }
        lemma_own_providers_win(included, d, name);
        lemma_lookup_upsert(upsert_all(included, d), own.last().0, own.last().1, name);
        lemma_lookup_drop_last(own, name);
        if own.last().0 == name {
            assert(lookup(d, name) is None) by {
                lemma_first_index(d, named_view(name));
                if let Some(k) = first_index(d, named_view(name)) {
                    assert(own[k].0 == own[own.len() - 1].0);
                }
            }
        }
    }
}

/// Merges `items` into `list` in order, each replacing the schema of its
/// name or joining at the end.
pub fn merge_providers(list: &mut Vec<(String, ProviderSchema)>, items: &Vec<(String, ProviderSchema)>)
    requires
        names_distinct(schemas_view(old(list)@)),
    ensures
        schemas_view(final(list)@) == upsert_all(schemas_view(old(list)@), schemas_view(items@)),
        names_distinct(schemas_view(final(list)@)),
{
    let ghost start = schemas_view(list@);
    let mut k: usize = 0;
    while k < items.len()
        invariant
            k <= items@.len(),
            start == schemas_view(old(list)@),
            schemas_view(list@) == upsert_all(start, schemas_view(items@).take(k as int)),
            names_distinct(schemas_view(list@)),
        decreases items@.len() - k,
    {
        let (name, schema) = &items[k];
        proof {
            lemma_upsert_keeps_distinct(schemas_view(list@), name@, schema_view(*schema));
            assert(schemas_view(items@).take(k + 1).drop_last() =~= schemas_view(items@).take(k as int));
            assert(schemas_view(items@).take(k + 1).last() == (name@, schema_view(*schema)));
        }
        upsert_exec(list, name.clone(), clone_schema(schema));
        k += 1;
    }
    proof {
        assert(schemas_view(items@).take(items@.len() as int) =~= schemas_view(items@));
    }
}

} // verus!
