//! Planning an `icons add`: from a source (`set:name` or a file path), an
//! optional name, variants and size, which table of the manifest to write,
//! which field, and which items; plus the manifest keys that result.

use crate::fields::strings_view;
use crate::materialize::last_dot;
use crate::model::{components, components_exec, first_index, has_key, opt_chars, IconManifest};
use crate::parse::{decompose_iconify_id, decomposed, opt_view};
use crate::text::{chars_eq, chars_of, decimal, decimal_exec, find_char, find_char_exec, push_all, push_str, slice_vec, string_of};
use vstd::prelude::*;

verus! {

/// Why an `icons add` did not happen.
#[derive(Debug)]
pub enum AddError {
    /// The existing manifest does not load; its errors.
    Manifest(Vec<String>),
    /// Keys the new entry would take are already in the manifest.
    AlreadyExists(Vec<String>),
    /// The request itself makes no entry.
    Plan(String),
    /// Reading or writing the manifest failed.
    Io(String),
    /// The edited manifest would not load; its errors.
    InvalidResult(Vec<String>),
}

/// What to write: the family (and size) table, the field, and each item as
/// an optional variant with the field's value. An item without a variant
/// goes on the table itself, not under `variants.<name>`.
#[derive(Debug)]
pub struct AddPlan {
    pub family: String,
    pub size: Option<u16>,
    pub field_name: String,
    pub items: Vec<(Option<String>, String)>,
}

/// An add plan as plain values.
pub struct PlanView {
    pub family: Seq<char>,
    pub size: Option<u16>,
    pub field: Seq<char>,
    pub items: Seq<(Option<Seq<char>>, Seq<char>)>,
}

pub open spec fn plan_view(p: AddPlan) -> PlanView {
    PlanView {
        family: p.family@,
        size: p.size,
        field: p.field_name@,
        items: p.items@.map_values(|it: (Option<String>, String)| (opt_chars(it.0), it.1@)),
    }
}

/// `-<size>` when there is a size.
pub open spec fn size_part(size: Option<u16>) -> Seq<char> {
    match size {
        Some(n) => seq!['-'] + decimal(n as nat),
        None => Seq::empty(),
    }
}

/// The manifest key of an entry: its family, then `-<size>` and
/// `-<variant>` when it has them.
pub open spec fn key_of(family: Seq<char>, size: Option<u16>, variant: Option<Seq<char>>) -> Seq<char> {
    family + size_part(size) + match variant {
        Some(v) => seq!['-'] + v,
        None => Seq::empty(),
    }
}

/// The manifest key of `family` at `size` and `variant`.
pub fn compute_key(family: &str, size: Option<u16>, variant: Option<&str>) -> (r: String)
    ensures
        r@ == key_of(family@, size, match variant {
            Some(v) => Some(v@),
            None => None,
        }),
{
    let mut key: Vec<char> = Vec::new();
    push_str(&mut key, family);
    if let Some(n) = size {
        key.push('-');
        let d = decimal_exec(n as u64);
        push_all(&mut key, d.as_slice());
    }
    if let Some(v) = variant {
        key.push('-');
        push_str(&mut key, v);
    }
    proof {
        assert(key@ =~= key_of(family@, size, match variant {
            Some(v) => Some(v@),
            None => None,
        }));
    }
    string_of(key.as_slice())
}

/// The dotted table path of an entry: its family, then its size.
pub fn table_path(family: &str, size: Option<u16>) -> (r: Vec<String>)
    ensures
        strings_view(r@) == match size {
            Some(n) => seq![family@, decimal(n as nat)],
            None => seq![family@],
        },
{
    let mut path: Vec<String> = Vec::new();
    path.push(family.to_owned());
    if let Some(n) = size {
        path.push(string_of(decimal_exec(n as u64).as_slice()));
    }
    proof {
        assert(strings_view(path@) =~= match size {
            Some(n) => seq![family@, decimal(n as nat)],
            None => seq![family@],
        });
    }
    path
}

/// `Path::file_stem`: the last real component of `p` without its
/// extension (a leading dot is no extension); none for an empty path or
/// one that ends in `..`.
pub open spec fn file_stem(p: Seq<char>) -> Option<Seq<char>> {
    let cs = components(p);
    if cs.len() == 0 || cs.last() == ".."@ {
        None
    } else {
        let name = cs.last();
        match last_dot(name) {
            Some(k) => if k == 0 {
                Some(name)
            } else {
                Some(name.take(k))
            },
            None => Some(name),
        }
    }
}

fn file_stem_exec(p: &str) -> (r: Option<String>)
    ensures
        opt_chars(r) == file_stem(p@),
{
    let cs = components_exec(p);
    let n = cs.len();
    proof {
        assert(cs@.map_values(|c: Vec<char>| c@).len() == n);
    }
    if n == 0 {
        return None;
    }
    let name = &cs[n - 1];
    proof {
        assert(cs@.map_values(|c: Vec<char>| c@).last() == name@);
    }
    let dots = chars_of("..");
    if chars_eq(name.as_slice(), dots.as_slice()) {
        return None;
    }
    let mut j = name.len();
    proof {
        assert(name@.take(j as int) =~= name@);
    }
    while j > 0 && name[j - 1] != '.'
        invariant
            j <= name@.len(),
            last_dot(name@) == last_dot(name@.take(j as int)),
        decreases j,
    {
        proof {
            assert(name@.take(j as int).drop_last() =~= name@.take(j - 1));
        }
        j -= 1;
    }
    proof {
        if j == 0 {
            assert(name@.take(0) =~= Seq::<char>::empty());
        } else {
            assert(name@.take(j as int).last() == '.');
        }
    }
    if j <= 1 {
        Some(string_of(name.as_slice()))
    } else {
        Some(string_of(slice_vec(name.as_slice(), 0, j - 1).as_slice()))
    }
}

/// The iconify id of one variant requested with `--variants`: the source,
/// then `-<size>` when a size is given, then `-<variant>`.
pub open spec fn variant_id(source: Seq<char>, size: Option<u16>, variant: Seq<char>) -> Seq<char> {
    source + size_part(size) + seq!['-'] + variant
}

/// The plan `icons add` makes, or why it makes none.
pub open spec fn planned(
    source: Seq<char>,
    name: Option<Seq<char>>,
    variants: Seq<Seq<char>>,
    size: Option<u16>,
    manifest: Option<IconManifest>,
) -> Result<PlanView, Seq<char>> {
    match find_char(source, ':') {
        Some(k) => {
            let base = source.skip(k + 1);
            if base.len() == 0 {
                Err("`"@ + source + "` has no icon name after the `:`"@)
            } else if variants.len() > 0 {
                match name {
                    None => Err("`--name` is required when using `--variants`"@),
                    Some(family) => Ok(
                        PlanView {
                            family,
                            size,
                            field: "iconify"@,
                            items: variants.map_values(|v: Seq<char>| (Some(v), variant_id(source, size, v))),
                        },
                    ),
                }
            } else {
                let d = match manifest {
                    Some(m) => decomposed(source, m.providers@),
                    None => None,
                };
                match d {
                    Some((family, dsize, variant)) => Ok(
                        PlanView {
                            family: match name {
                                Some(n) => n,
                                None => family,
                            },
                            size: dsize,
                            field: "iconify"@,
                            items: seq![(variant, source)],
                        },
                    ),
                    None => Ok(
                        PlanView {
                            family: match name {
                                Some(n) => n,
                                None => base,
                            },
                            size: None,
                            field: "iconify"@,
                            items: seq![(None, source)],
                        },
                    ),
                }
            }
        },
        None => if variants.len() > 0 {
            Err("`--variants` only makes sense with an iconify source (`set:name`)"@)
        } else {
            match name {
                Some(n) => Ok(PlanView { family: n, size: None, field: "file"@, items: seq![(None, source)] }),
                None => match file_stem(source) {
                    Some(stem) => Ok(PlanView { family: stem, size: None, field: "file"@, items: seq![(None, source)] }),
                    None => Err("could not derive a name from `"@ + source + "`; pass `--name`"@),
                },
            }
        },
    }
}

pub open spec fn plan_result_view(r: Result<AddPlan, String>) -> Result<PlanView, Seq<char>> {
    match r {
        Ok(p) => Ok(plan_view(p)),
        Err(e) => Err(e@),
    }
}

fn message2(a: &str, b: &str, c: &str) -> (r: String)
    ensures
        r@ == a@ + b@ + c@,
{
    let mut out: Vec<char> = Vec::new();
    push_str(&mut out, a);
    push_str(&mut out, b);
    push_str(&mut out, c);
    string_of(out.as_slice())
}

fn single_item(variant: Option<String>, value: &str) -> (r: Vec<(Option<String>, String)>)
    ensures
        r@.map_values(|it: (Option<String>, String)| (opt_chars(it.0), it.1@)) == seq![(opt_chars(variant), value@)],
{
    let mut items: Vec<(Option<String>, String)> = Vec::new();
    items.push((variant, value.to_owned()));
    proof {
        assert(items@.map_values(|it: (Option<String>, String)| (opt_chars(it.0), it.1@)) =~= seq![
            (opt_chars(variant), value@),
        ]);
    }
    items
}

/// Plans an `icons add`: an iconify source (`set:name`) becomes one item
/// per `--variants` entry (which then needs `--name`), or one item whose
/// family, size and variant are read off the id through the manifest's
/// provider schemas, or a flat item named after the icon; a file source
/// becomes one `file` item named after the file unless `--name` is given.
pub fn plan_add(
    source: &str,
    name: Option<&str>,
    variants: &Vec<String>,
    size: Option<u16>,
    manifest: Option<&IconManifest>,
) -> (r: Result<AddPlan, String>)
    ensures
        plan_result_view(r) == planned(
            source@,
            match name {
                Some(n) => Some(n@),
                None => None,
            },
            strings_view(variants@),
            size,
            match manifest {
                Some(m) => Some(*m),
                None => None,
            },
        ),
{
    let s = chars_of(source);
    let owned_name: Option<String> = match name {
        Some(n) => Some(n.to_owned()),
        None => None,
    };
    match find_char_exec(s.as_slice(), ':') {
        Some(k) => {
            let n = s.len();
            if k + 1 == n {
                proof {
                    assert(source@.skip(k + 1).len() == 0);
                }
                return Err(message2("`", source, "` has no icon name after the `:`"));
            }
            if variants.len() > 0 {
                let family = match owned_name {
                    Some(f) => f,
                    None => return Err("`--name` is required when using `--variants`".to_string()),
                };
                let mut items: Vec<(Option<String>, String)> = Vec::new();
                let mut i: usize = 0;
                let ghost want = strings_view(variants@).map_values(
                    |v: Seq<char>| (Some(v), variant_id(source@, size, v)),
                );
                while i < variants.len()
                    invariant
                        i <= variants@.len(),
                        want == strings_view(variants@).map_values(
                            |v: Seq<char>| (Some(v), variant_id(source@, size, v)),
                        ),
                        items@.map_values(|it: (Option<String>, String)| (opt_chars(it.0), it.1@)) == want.take(
                            i as int,
                        ),
                    decreases variants@.len() - i,
                {
                    let mut id: Vec<char> = Vec::new();
                    push_str(&mut id, source);
                    if let Some(z) = size {
                        id.push('-');
                        let d = decimal_exec(z as u64);
                        push_all(&mut id, d.as_slice());
                    }
                    id.push('-');
                    push_str(&mut id, variants[i].as_str());
                    let ghost before = items@.map_values(|it: (Option<String>, String)| (opt_chars(it.0), it.1@));
                    let item = (Some(variants[i].clone()), string_of(id.as_slice()));
                    items.push(item);
                    proof {
                        assert(id@ =~= variant_id(source@, size, variants@[i as int]@));
                        assert(items@.map_values(|it: (Option<String>, String)| (opt_chars(it.0), it.1@)) =~= before.push(
                            (Some(variants@[i as int]@), variant_id(source@, size, variants@[i as int]@)),
                        ));
                        assert(want.take(i + 1) =~= want.take(i as int).push(want[i as int]));
                    }
                    i += 1;
                }
                proof {
                    assert(want.take(variants@.len() as int) =~= want);
                }
                return Ok(AddPlan { family, size, field_name: "iconify".to_string(), items });
            }
            let d = match manifest {
                Some(m) => decompose_iconify_id(source, m),
                None => None,
            };
            match d {
                Some((family, dsize, variant)) => {
                    let family = match owned_name {
                        Some(f) => f,
                        None => family,
                    };
                    proof {
                        assert(opt_chars(variant) == opt_view(variant));
                    }
                    Ok(
                        AddPlan {
                            family,
                            size: dsize,
                            field_name: "iconify".to_string(),
                            items: single_item(variant, source),
                        },
                    )
                },
                None => {
                    let family = match owned_name {
                        Some(f) => f,
                        None => string_of(slice_vec(s.as_slice(), k + 1, n).as_slice()),
                    };
                    Ok(
                        AddPlan {
                            family,
                            size: None,
                            field_name: "iconify".to_string(),
                            items: single_item(None, source),
                        },
                    )
                },
            }
        },
        None => {
            if variants.len() > 0 {
                return Err("`--variants` only makes sense with an iconify source (`set:name`)".to_string());
            }
            let family = match owned_name {
                Some(f) => f,
                None => match file_stem_exec(source) {
                    Some(stem) => stem,
                    None => return Err(message2("could not derive a name from `", source, "`; pass `--name`")),
                },
            };
            Ok(AddPlan { family, size: None, field_name: "file".to_string(), items: single_item(None, source) })
        },
    }
}

/// The keys a plan adds, one per item, in order.
pub open spec fn plan_keys(p: PlanView) -> Seq<Seq<char>> {
    p.items.map_values(|it: (Option<Seq<char>>, Seq<char>)| key_of(p.family, p.size, it.0))
}

/// The manifest keys `plan` adds, in item order.
pub fn added_keys(plan: &AddPlan) -> (r: Vec<String>)
    ensures
        strings_view(r@) == plan_keys(plan_view(*plan)),
{
    let ghost want = plan_keys(plan_view(*plan));
    let mut out: Vec<String> = Vec::new();
    let mut i: usize = 0;
    while i < plan.items.len()
        invariant
            i <= plan.items@.len(),
            want == plan_keys(plan_view(*plan)),
            strings_view(out@) == want.take(i as int),
        decreases plan.items@.len() - i,
    {
        let variant: Option<&str> = match &plan.items[i].0 {
            Some(v) => Some(v.as_str()),
            None => None,
        };
        let key = compute_key(plan.family.as_str(), plan.size, variant);
        let ghost before = strings_view(out@);
        out.push(key);
        proof {
            assert(strings_view(out@) =~= before.push(key@));
            assert(want.take(i + 1) =~= want.take(i as int).push(want[i as int]));
        }
        i += 1;
    }
    proof {
        assert(want.take(plan.items@.len() as int) =~= want);
    }
    out
}

/// The keys of a plan the manifest already holds, in item order: an add
/// without `--force` refuses them.
pub open spec fn taken_keys(keys: Seq<Seq<char>>, m: IconManifest) -> Seq<Seq<char>> {
    keys.filter(|k: Seq<char>| first_index(m.entries@, has_key(k)) is Some)
}

/// The keys `plan` would add that `manifest` already has.
pub fn collisions(plan: &AddPlan, manifest: &IconManifest) -> (r: Vec<String>)
    ensures
        strings_view(r@) == taken_keys(plan_keys(plan_view(*plan)), *manifest),
{
    let keys = added_keys(plan);
    let ghost kv = strings_view(keys@);
    let mut out: Vec<String> = Vec::new();
    let mut i: usize = 0;
    proof {
        reveal(Seq::filter);
        assert(kv.take(0) =~= Seq::<Seq<char>>::empty());
    }
    while i < keys.len()
        invariant
            i <= keys@.len(),
            kv == strings_view(keys@),
            strings_view(out@) == taken_keys(kv.take(i as int), *manifest),
        decreases keys@.len() - i,
    {
        proof {
            reveal(Seq::filter);
            assert(kv.take(i + 1).drop_last() =~= kv.take(i as int));
            assert(kv.take(i + 1).last() == kv[i as int]);
        }
        let ghost before = strings_view(out@);
        if manifest.entry_for_key(keys[i].as_str()).is_some() {
            out.push(keys[i].clone());
            proof {
                assert(strings_view(out@) =~= before.push(keys@[i as int]@));
            }
        }
        i += 1;
    }
    proof {
        assert(kv.take(keys@.len() as int) =~= kv);
    }
    out
}

/// One write into the manifest document: under the table at `table`
/// (each segment made a table where it is not one), `key` set to the
/// string `value`, or with `inline_field` to the inline table
/// `{ inline_field = value }`.
#[derive(Debug)]
pub struct ManifestEdit {
    pub table: Vec<String>,
    pub key: String,
    pub inline_field: Option<String>,
    pub value: String,
}

pub open spec fn edit_view(e: ManifestEdit) -> (Seq<Seq<char>>, Seq<char>, Option<Seq<char>>, Seq<char>) {
    (strings_view(e.table@), e.key@, opt_chars(e.inline_field), e.value@)
}

/// The writes a plan makes: an item without a variant sets the field in
/// the entry's table; one with a variant sets the variant, under the
/// entry's `variants` table, to an inline table holding the field.
pub open spec fn plan_edits(p: PlanView) -> Seq<(Seq<Seq<char>>, Seq<char>, Option<Seq<char>>, Seq<char>)> {
    let path = match p.size {
        Some(n) => seq![p.family, decimal(n as nat)],
        None => seq![p.family],
    };
    p.items.map_values(
        |it: (Option<Seq<char>>, Seq<char>)|
            match it.0 {
                Some(v) => (path.push("variants"@), v, Some(p.field), it.1),
                None => (path, p.field, None, it.1),
            },
    )
}

/// The writes `plan` makes into the manifest document, in item order.
pub fn manifest_edits(plan: &AddPlan) -> (r: Vec<ManifestEdit>)
    ensures
        r@.map_values(|e: ManifestEdit| edit_view(e)) == plan_edits(plan_view(*plan)),
{
    let mut r: Vec<ManifestEdit> = Vec::new();
    let mut i: usize = 0;
    let ghost pv = plan_view(*plan);
    while i < plan.items.len()
        invariant
            pv == plan_view(*plan),
            i <= plan.items@.len(),
            r@.map_values(|e: ManifestEdit| edit_view(e)) == plan_edits(pv).take(i as int),
        decreases plan.items@.len() - i,
    {
        let path = table_path(plan.family.as_str(), plan.size);
        let ghost before = r@.map_values(|e: ManifestEdit| edit_view(e));
        let value = plan.items[i].1.clone();
        let edit = match &plan.items[i].0 {
            Some(v) => {
                let mut table = path;
                let ghost tv = strings_view(table@);
                table.push("variants".to_owned());
                proof {
                    assert(strings_view(table@) =~= tv.push("variants"@));
                }
                ManifestEdit { table, key: v.clone(), inline_field: Some(plan.field_name.clone()), value }
            },
            None => ManifestEdit { table: path, key: plan.field_name.clone(), inline_field: None, value },
        };
        proof {
            assert(edit_view(edit) == plan_edits(pv)[i as int]);
        }
        r.push(edit);
        proof {
            assert(r@.map_values(|e: ManifestEdit| edit_view(e)) =~= before.push(plan_edits(pv)[i as int]));
            assert(plan_edits(pv).take(i + 1) =~= plan_edits(pv).take(i as int).push(plan_edits(pv)[i as int]));
        }
        i += 1;
    }
    proof {
        assert(plan_edits(pv).take(plan.items@.len() as int) =~= plan_edits(pv));
    }
    r
}


/// `--name` names the family: whenever a name is given, every plan made
/// (from an iconify id, with or without `--variants`, or from a file) has
/// that family; and with a name the request is refused only for an
/// iconify id with nothing after its `:`, or `--variants` on a file.
pub proof fn lemma_name_names_the_family(
    source: Seq<char>,
    name: Seq<char>,
    variants: Seq<Seq<char>>,
    size: Option<u16>,
    manifest: Option<IconManifest>,
)
    ensures
        planned(source, Some(name), variants, size, manifest) matches Ok(p) ==> p.family == name,
        planned(source, Some(name), variants, size, manifest) is Err ==> match find_char(source, ':') {
            Some(k) => source.skip(k + 1).len() == 0,
            None => variants.len() > 0,
        },
{
}

/// What a plan writes: an iconify source (one with a `:`) goes in
/// `iconify` fields, anything else in one `file` field; without
/// `--variants` there is one item, holding the source as given; with them
/// one item per requested variant, in order, named by it; and a file
/// without `--name` is named by its file stem.
pub proof fn lemma_plan_shape(
    source: Seq<char>,
    name: Option<Seq<char>>,
    variants: Seq<Seq<char>>,
    size: Option<u16>,
    manifest: Option<IconManifest>,
)
    ensures
        planned(source, name, variants, size, manifest) matches Ok(p) ==> {
            &&& (p.field == "iconify"@) == (find_char(source, ':') is Some)
            &&& find_char(source, ':') is None ==> p.field == "file"@
            &&& variants.len() == 0 ==> p.items.len() == 1 && p.items[0].1 == source
            &&& variants.len() > 0 ==> p.items.len() == variants.len() && forall|i: int|
                0 <= i < variants.len() ==> #[trigger] p.items[i].0 == Some(variants[i])
        },
        find_char(source, ':') is None && name is None && variants.len() == 0 ==> match file_stem(source) {
            Some(stem) => planned(source, name, variants, size, manifest) matches Ok(p) && p.family == stem,
            None => planned(source, name, variants, size, manifest) is Err,
        },
{
    reveal_strlit("iconify");
    reveal_strlit("file");
    assert("iconify"@ != "file"@) by {
        assert("iconify"@.len() != "file"@.len());
    }
}

} // verus!
