//! Writing an add plan into a manifest's text through `toml_edit`, which
//! keeps the rest of the file (comments, spacing, order) as it was.

use crate::add_plan::{edit_view, manifest_edits, plan_edits, plan_view, AddError, AddPlan, ManifestEdit};
use crate::fields::strings_view;
use crate::model::opt_chars;
use toml_edit::{DocumentMut, InlineTable, Item, Table, Value};
use vstd::prelude::*;

verus! {

#[verifier::external_type_specification]
#[verifier::external_body]
pub struct ExTomlEditDocument(toml_edit::DocumentMut);

#[verifier::external_type_specification]
#[verifier::external_body]
pub struct ExTomlEditTable(toml_edit::Table);

/// The kind of item a table holds at a key, as far as an edit reads or
/// writes it.
pub ghost enum ItemKind {
    /// A `[table]` (not an inline table).
    Table,
    /// A string value.
    Str(Seq<char>),
    /// An inline table `{ field = "value" }` with one string field.
    InlineField(Seq<char>, Seq<char>),
    /// Anything else.
    Other,
}

/// What a `toml_edit::Table` holds: for each path of keys from it (through
/// nested `[table]` items only), the kind of the item there.
pub uninterp spec fn table_kinds(t: Table) -> Map<Seq<Seq<char>>, ItemKind>;

/// What a `toml_edit::DocumentMut` holds: `table_kinds` of its root table.
pub uninterp spec fn doc_kinds(d: DocumentMut) -> Map<Seq<Seq<char>>, ItemKind>;

/// Whether `toml_edit` parses a text: `None` when it is a document, else
/// the `Display` text of its error. A function of the text alone.
pub uninterp spec fn toml_edit_error(text: Seq<char>) -> Option<Seq<char>>;

/// `doc_kinds` of the document `toml_edit` parses a text into. A function
/// of the text alone.
pub uninterp spec fn parsed_kinds(text: Seq<char>) -> Map<Seq<Seq<char>>, ItemKind>;

/// What `DocumentMut`'s `Display` prints for a document.
pub uninterp spec fn printed(d: DocumentMut) -> Seq<char>;

/// The paths below key `k`, without `k`.
pub open spec fn under(m: Map<Seq<Seq<char>>, ItemKind>, k: Seq<char>) -> Map<Seq<Seq<char>>, ItemKind> {
    Map::new(|p: Seq<Seq<char>>| p.len() > 0 && m.contains_key(seq![k] + p), |p: Seq<Seq<char>>| m[seq![k] + p])
}

/// `m` with `sub` in place of what lies below key `k` (the item at `k`
/// itself kept).
pub open spec fn graft(m: Map<Seq<Seq<char>>, ItemKind>, k: Seq<char>, sub: Map<Seq<Seq<char>>, ItemKind>) -> Map<
    Seq<Seq<char>>,
    ItemKind,
> {
    Map::new(
        |p: Seq<Seq<char>>|
            if p.len() > 1 && p[0] == k {
                sub.contains_key(p.skip(1))
            } else {
                m.contains_key(p)
            },
        |p: Seq<Seq<char>>|
            if p.len() > 1 && p[0] == k {
                sub[p.skip(1)]
            } else {
                m[p]
            },
    )
}

/// `m` with the item at key `k` replaced by one of kind `kind` (nothing
/// below it).
pub open spec fn set_item(m: Map<Seq<Seq<char>>, ItemKind>, k: Seq<char>, kind: ItemKind) -> Map<Seq<Seq<char>>, ItemKind> {
    Map::new(
        |p: Seq<Seq<char>>| p == seq![k] || (m.contains_key(p) && !(p.len() > 0 && p[0] == k)),
        |p: Seq<Seq<char>>|
            if p == seq![k] {
                kind
            } else {
                m[p]
            },
    )
}

pub open spec fn is_table_at(m: Map<Seq<Seq<char>>, ItemKind>, k: Seq<char>) -> bool {
    m.contains_key(seq![k]) && m[seq![k]] is Table
}

/// `m` with key `k` made a table unless it is one.
pub open spec fn with_table(m: Map<Seq<Seq<char>>, ItemKind>, k: Seq<char>) -> Map<Seq<Seq<char>>, ItemKind> {
    if is_table_at(m, k) {
        m
    } else {
        set_item(m, k, ItemKind::Table)
    }
}

/// `m` after setting `key` to `leaf` in the table at path `rest`, each
/// table on the way made one where it is not.
pub open spec fn applied(m: Map<Seq<Seq<char>>, ItemKind>, rest: Seq<Seq<char>>, key: Seq<char>, leaf: ItemKind) -> Map<
    Seq<Seq<char>>,
    ItemKind,
>
    decreases rest.len(),
{
    if rest.len() == 0 {
        set_item(m, key, leaf)
    } else {
        let m1 = with_table(m, rest[0]);
        graft(m1, rest[0], applied(under(m1, rest[0]), rest.skip(1), key, leaf))
    }
}

/// The item an edit writes.
pub open spec fn leaf_of(inline_field: Option<Seq<char>>, value: Seq<char>) -> ItemKind {
    match inline_field {
        Some(f) => ItemKind::InlineField(f, value),
        None => ItemKind::Str(value),
    }
}

/// `m` after the edits, in order.
pub open spec fn all_applied(
    m: Map<Seq<Seq<char>>, ItemKind>,
    edits: Seq<(Seq<Seq<char>>, Seq<char>, Option<Seq<char>>, Seq<char>)>,
) -> Map<Seq<Seq<char>>, ItemKind>
    decreases edits.len(),
{
    if edits.len() == 0 {
        m
    } else {
        let e = edits.last();
        applied(all_applied(m, edits.drop_last()), e.0, e.1, leaf_of(e.2, e.3))
    }
}

/// `text.parse::<DocumentMut>()`, its error as its `Display` text. The
/// contract claims that it fails exactly when `toml_edit_error` names an
/// error, with that message, and that the document holds
/// `parsed_kinds` of the text.
#[verifier::external_body]
fn doc_parse(text: &str) -> (r: Result<DocumentMut, String>)
    ensures
        match r {
            Ok(d) => toml_edit_error(text@) is None && doc_kinds(d) == parsed_kinds(text@),
            Err(e) => toml_edit_error(text@) == Some(e@),
        },
{
    text.parse::<DocumentMut>().map_err(|e| e.to_string())
}

/// `DocumentMut::as_table_mut`: the root table (the root is always a
/// table, so this does not panic); what the document holds is what that
/// table holds.
#[verifier::external_body]
fn doc_root(d: &mut DocumentMut) -> (r: &mut Table)
    ensures
        table_kinds(*r) == doc_kinds(*old(d)),
        doc_kinds(*final(d)) == table_kinds(*final(r)),
{
    d.as_table_mut()
}

/// `Table::get(key)` then `Item::is_table`: whether the item at `key` is a
/// table.
#[verifier::external_body]
fn table_has_table(t: &Table, key: &str) -> (r: bool)
    ensures
        r == is_table_at(table_kinds(*t), key@),
{
    match t.get(key) {
        Some(item) => item.is_table(),
        None => false,
    }
}

/// `Table::insert(key, Item::Table(Table::new()))`: an empty table at
/// `key`, in place of what was there.
#[verifier::external_body]
fn table_insert_table(t: &mut Table, key: &str)
    ensures
        table_kinds(*final(t)) == set_item(table_kinds(*old(t)), key@, ItemKind::Table),
{
    t.insert(key, Item::Table(Table::new()));
}

/// `Table::get_mut(key)` then `Item::as_table_mut`: the table at `key`
/// (a table by `requires`, so the unwraps do not panic). It holds what
/// lies below `key`, and what it ends with is what then lies there.
#[verifier::external_body]
fn table_child<'a>(t: &'a mut Table, key: &str) -> (r: &'a mut Table)
    requires
        is_table_at(table_kinds(*old(t)), key@),
    ensures
        table_kinds(*r) == under(table_kinds(*old(t)), key@),
        table_kinds(*final(t)) == graft(table_kinds(*old(t)), key@, table_kinds(*final(r))),
{
    t.get_mut(key).unwrap().as_table_mut().unwrap()
}

/// `Table::insert(key, toml_edit::value(value))`: the string at `key`.
#[verifier::external_body]
fn table_insert_str(t: &mut Table, key: &str, value: &str)
    ensures
        table_kinds(*final(t)) == set_item(table_kinds(*old(t)), key@, ItemKind::Str(value@)),
{
    t.insert(key, toml_edit::value(value));
}

/// `InlineTable::insert(field, Value::from(value))` into a new inline
/// table, then `Table::insert(key, ..)` of it.
#[verifier::external_body]
fn table_insert_inline(t: &mut Table, key: &str, field: &str, value: &str)
    ensures
        table_kinds(*final(t)) == set_item(table_kinds(*old(t)), key@, ItemKind::InlineField(field@, value@)),
{
    let mut inline = InlineTable::new();
    inline.insert(field, Value::from(value));
    t.insert(key, Item::Value(Value::InlineTable(inline)));
}

/// `DocumentMut`'s `Display`: the document as text.
#[verifier::external_body]
fn doc_print(d: &DocumentMut) -> (r: String)
    ensures
        r@ == printed(*d),
{
    d.to_string()
}

/// Sets `key` to `leaf` in the table at `path[i..]` below `t`, making each
/// table on the way where it is not one.
fn set_below(t: &mut Table, path: &Vec<String>, i: usize, key: &str, inline_field: &Option<String>, value: &str)
    requires
        i <= path@.len(),
    ensures
        table_kinds(*final(t)) == applied(
            table_kinds(*old(t)),
            strings_view(path@).skip(i as int),
            key@,
            leaf_of(opt_chars(*inline_field), value@),
        ),
    decreases path@.len() - i,
{
    if i == path.len() {
        match inline_field {
            Some(f) => table_insert_inline(t, key, f.as_str(), value),
            None => table_insert_str(t, key, value),
        }
        return;
    }
    let seg = path[i].as_str();
    proof {
        assert(strings_view(path@).skip(i as int)[0] == path@[i as int]@);
        assert(strings_view(path@).skip(i as int).skip(1) =~= strings_view(path@).skip(i + 1));
    }
    if !table_has_table(t, seg) {
        table_insert_table(t, seg);
    }
    let child = table_child(t, seg);
    set_below(child, path, i + 1, key, inline_field, value);
}

/// The manifest text `existing` with `plan` written into it by
/// `toml_edit`: an `Io` error with `toml_edit`'s message when the text is
/// no TOML document; else the printing of a document that holds what the
/// text held with each of the plan's edits applied in order, everything
/// else kept.
pub fn edited_manifest_text(existing: &str, plan: &AddPlan) -> (r: Result<String, AddError>)
    ensures
        match toml_edit_error(existing@) {
            Some(m) => r matches Err(AddError::Io(e)) && e@ == m,
            None => r matches Ok(s) && exists|d: DocumentMut|
                #[trigger] printed(d) == s@ && doc_kinds(d) == all_applied(
                    parsed_kinds(existing@),
                    plan_edits(plan_view(*plan)),
                ),
        },
{
    let mut doc = match doc_parse(existing) {
        Ok(d) => d,
        Err(e) => return Err(AddError::Io(e)),
    };
    let edits = manifest_edits(plan);
    let ghost ev = edits@.map_values(|e: ManifestEdit| edit_view(e));
    let mut i: usize = 0;
    proof {
        assert(ev.take(0) =~= Seq::empty());
    }
    while i < edits.len()
        invariant
            ev == edits@.map_values(|e: ManifestEdit| edit_view(e)),
            i <= edits@.len(),
            doc_kinds(doc) == all_applied(parsed_kinds(existing@), ev.take(i as int)),
        decreases edits@.len() - i,
    {
        proof {
            assert(ev.take(i + 1).drop_last() =~= ev.take(i as int));
            assert(ev.take(i + 1).last() == edit_view(edits@[i as int]));
        }
        let e = &edits[i];
        let root = doc_root(&mut doc);
        set_below(root, &e.table, 0, e.key.as_str(), &e.inline_field, e.value.as_str());
        proof {
            assert(strings_view(e.table@).skip(0) =~= strings_view(e.table@));
        }
        i += 1;
    }
    proof {
        assert(ev.take(edits@.len() as int) =~= ev);
    }
    let text = doc_print(&doc);
    Ok(text)
}

} // verus!
