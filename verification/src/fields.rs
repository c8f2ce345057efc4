//! Typed reading of a manifest table's fields: each declared field is read
//! as its kind, a field of the wrong kind is reported, and so is every key
//! the table holds that no field declares.

use crate::model::{
    color_error, first_index, lemma_first_index, lemma_first_index_is, paint_error, parsed_color, parsed_paint, Paint,
    PaintColor, ThemePaint,
};
use crate::text::{join, push_all, push_str, string_of};
use crate::toml::{kind_name, TomlEntry, TomlItem, TomlValue};
use vstd::prelude::*;

verus! {

/// What a field holds.
#[derive(Clone, Copy, Debug, PartialEq, Eq, Structural)]
pub enum FieldKind {
    /// A string.
    Text,
    /// A bool.
    Flag,
    /// An integer that fits a `u16`.
    Size,
    /// An array of strings.
    Texts,
    /// An array of `u16` integers.
    Sizes,
    /// A `paint`: a string for `Paint::parse`, or `{ light = ..., dark = ... }`.
    PaintValue,
}

/// A problem found in a table, with the byte span it is about.
#[derive(Debug)]
pub struct Issue {
    pub message: String,
    pub start: usize,
    pub end: usize,
}

impl View for Issue {
    type V = (Seq<char>, int, int);

    open spec fn view(&self) -> (Seq<char>, int, int) {
        (self.message@, self.start as int, self.end as int)
    }
}

/// A field as read.
#[derive(Debug)]
pub enum FieldValue {
    Absent,
    Text(String),
    Flag(bool),
    Size(u16),
    Texts(Vec<String>),
    Sizes(Vec<u16>),
    Painted(Paint),
    Invalid,
}

/// The view of a read field.
pub ghost enum FieldView {
    Absent,
    Text(Seq<char>),
    Flag(bool),
    Size(u16),
    Texts(Seq<Seq<char>>),
    Sizes(Seq<u16>),
    Painted(Paint),
    Invalid,
}

pub open spec fn strings_view(v: Seq<String>) -> Seq<Seq<char>> {
    v.map_values(|s: String| s@)
}

impl View for FieldValue {
    type V = FieldView;

    open spec fn view(&self) -> FieldView {
        match self {
            FieldValue::Absent => FieldView::Absent,
            FieldValue::Text(s) => FieldView::Text(s@),
            FieldValue::Flag(b) => FieldView::Flag(*b),
            FieldValue::Size(n) => FieldView::Size(*n),
            FieldValue::Texts(v) => FieldView::Texts(strings_view(v@)),
            FieldValue::Sizes(v) => FieldView::Sizes(v@),
            FieldValue::Painted(p) => FieldView::Painted(*p),
            FieldValue::Invalid => FieldView::Invalid,
        }
    }
}

pub open spec fn issues_view(v: Seq<Issue>) -> Seq<(Seq<char>, int, int)> {
    v.map_values(|x: Issue| x@)
}

pub open spec fn issue_at(message: Seq<char>, item: TomlItem) -> (Seq<char>, int, int) {
    (message, item.start as int, item.end as int)
}

/// `expected <what>, found <kind>`.
pub open spec fn wanted(expected: Seq<char>, v: TomlValue) -> Seq<char> {
    "expected "@ + expected + ", found "@ + kind_name(v)
}

pub open spec fn text_of(item: TomlItem) -> Option<Seq<char>> {
    match item.value {
        TomlValue::Str(s) => Some(s@),
        _ => None,
    }
}

pub open spec fn size_of(item: TomlItem) -> Option<u16> {
    match item.value {
        TomlValue::Integer(i) => if 0 <= i && i <= 65535 {
            Some(i as u16)
        } else {
            None
        },
        _ => None,
    }
}

pub open spec fn size_issue(item: TomlItem) -> Seq<char> {
    match item.value {
        TomlValue::Integer(_) => "out of range of 'u16'"@,
        _ => wanted("u16"@, item.value),
    }
}

/// The issues of the items of a string array, in order.
pub open spec fn text_items_issues(items: Seq<TomlItem>) -> Seq<(Seq<char>, int, int)>
    decreases items.len(),
{
    if items.len() == 0 {
        Seq::empty()
    } else {
        text_items_issues(items.drop_last()) + if text_of(items.last()) is None {
            seq![issue_at(wanted("a string"@, items.last().value), items.last())]
        } else {
            Seq::empty()
        }
    }
}

/// The issues of the items of an integer array, in order.
pub open spec fn size_items_issues(items: Seq<TomlItem>) -> Seq<(Seq<char>, int, int)>
    decreases items.len(),
{
    if items.len() == 0 {
        Seq::empty()
    } else {
        size_items_issues(items.drop_last()) + if size_of(items.last()) is None {
            seq![issue_at(size_issue(items.last()), items.last())]
        } else {
            Seq::empty()
        }
    }
}

pub open spec fn has_name(name: Seq<char>) -> spec_fn(TomlEntry) -> bool {
    |e: TomlEntry| e.key@ == name
}

/// The value of the field `name` of `t`.
pub open spec fn field(t: Seq<TomlEntry>, name: Seq<char>) -> Option<TomlItem> {
    match first_index(t, has_name(name)) {
        Some(i) => Some(t[i].item),
        None => None,
    }
}

/// The issues of one color of a `{ light = ..., dark = ... }` paint.
pub open spec fn color_issues(t: Seq<TomlEntry>, name: Seq<char>, table: TomlItem) -> Seq<(Seq<char>, int, int)> {
    match field(t, name) {
        None => seq![issue_at("missing field '"@ + name + "' in table"@, table)],
        Some(x) => match x.value {
            TomlValue::Str(s) => if parsed_color(s@) is Some {
                Seq::empty()
            } else {
                seq![issue_at(color_error(s@), x)]
            },
            _ => seq![issue_at(wanted("a string"@, x.value), x)],
        },
    }
}

pub open spec fn color_field(t: Seq<TomlEntry>, name: Seq<char>) -> PaintColor {
    match field(t, name) {
        Some(x) => match x.value {
            TomlValue::Str(s) => parsed_color(s@).unwrap(),
            _ => arbitrary(),
        },
        None => arbitrary(),
    }
}

pub open spec fn paint_names() -> Seq<Seq<char>> {
    seq!["light"@, "dark"@]
}

/// The keys of `t` that `names` does not hold, in order.
pub open spec fn unexpected_keys(t: Seq<TomlEntry>, names: Seq<Seq<char>>) -> Seq<Seq<char>>
    decreases t.len(),
{
    if t.len() == 0 {
        Seq::empty()
    } else if names.contains(t.last().key@) {
        unexpected_keys(t.drop_last(), names)
    } else {
        unexpected_keys(t.drop_last(), names).push(t.last().key@)
    }
}

pub open spec fn backquoted(k: Seq<char>) -> Seq<char> {
    "`"@ + k + "`"@
}

/// `` `a`, `b` ``.
pub open spec fn quoted_list(keys: Seq<Seq<char>>) -> Seq<char> {
    join(keys.map_values(|k: Seq<char>| backquoted(k)), ", "@)
}

/// The issue for keys of `t` that `names` does not declare, if any.
pub open spec fn unexpected_issue(t: Seq<TomlEntry>, names: Seq<Seq<char>>, start: int, end: int) -> Seq<
    (Seq<char>, int, int),
> {
    let keys = unexpected_keys(t, names);
    if keys.len() == 0 {
        Seq::empty()
    } else {
        seq![
            (
                "unexpected field(s): "@ + quoted_list(keys) + " (expected one of: "@ + quoted_list(names)
                    + ")"@,
                start,
                end,
            ),
        ]
    }
}

/// The issues of a `{ light = ..., dark = ... }` paint.
pub open spec fn paint_table_issues(t: Seq<TomlEntry>, table: TomlItem) -> Seq<(Seq<char>, int, int)> {
    color_issues(t, "light"@, table) + color_issues(t, "dark"@, table) + unexpected_issue(
        t,
        paint_names(),
        table.start as int,
        table.end as int,
    )
}

/// What reading `item` as `kind` gives.
pub open spec fn read_view(item: TomlItem, kind: FieldKind) -> FieldView {
    match kind {
        FieldKind::Text => match item.value {
            TomlValue::Str(s) => FieldView::Text(s@),
            _ => FieldView::Invalid,
        },
        FieldKind::Flag => match item.value {
            TomlValue::Boolean(b) => FieldView::Flag(b),
            _ => FieldView::Invalid,
        },
        FieldKind::Size => match size_of(item) {
            Some(n) => FieldView::Size(n),
            None => FieldView::Invalid,
        },
        FieldKind::Texts => match item.value {
            TomlValue::Array(items) => if text_items_issues(items@).len() == 0 {
                FieldView::Texts(items@.map_values(|x: TomlItem| text_of(x).unwrap()))
            } else {
                FieldView::Invalid
            },
            _ => FieldView::Invalid,
        },
        FieldKind::Sizes => match item.value {
            TomlValue::Array(items) => if size_items_issues(items@).len() == 0 {
                FieldView::Sizes(items@.map_values(|x: TomlItem| size_of(x).unwrap()))
            } else {
                FieldView::Invalid
            },
            _ => FieldView::Invalid,
        },
        FieldKind::PaintValue => match item.value {
            TomlValue::Str(s) => match parsed_paint(s@) {
                Some(p) => FieldView::Painted(p),
                None => FieldView::Invalid,
            },
            TomlValue::Table(t) => if paint_table_issues(t@, item).len() == 0 {
                FieldView::Painted(
                    Paint::Colors(ThemePaint { light: color_field(t@, "light"@), dark: color_field(t@, "dark"@) }),
                )
            } else {
                FieldView::Invalid
            },
            _ => FieldView::Invalid,
        },
    }
}

/// The issues found reading `item` as `kind`.
pub open spec fn read_issues(item: TomlItem, kind: FieldKind) -> Seq<(Seq<char>, int, int)> {
    match kind {
        FieldKind::Text => match item.value {
            TomlValue::Str(_) => Seq::empty(),
            _ => seq![issue_at(wanted("a string"@, item.value), item)],
        },
        FieldKind::Flag => match item.value {
            TomlValue::Boolean(_) => Seq::empty(),
            _ => seq![issue_at(wanted("a bool"@, item.value), item)],
        },
        FieldKind::Size => match size_of(item) {
            Some(_) => Seq::empty(),
            None => seq![issue_at(size_issue(item), item)],
        },
        FieldKind::Texts => match item.value {
            TomlValue::Array(items) => text_items_issues(items@),
            _ => seq![issue_at(wanted("an array"@, item.value), item)],
        },
        FieldKind::Sizes => match item.value {
            TomlValue::Array(items) => size_items_issues(items@),
            _ => seq![issue_at(wanted("an array"@, item.value), item)],
        },
        FieldKind::PaintValue => match item.value {
            TomlValue::Str(s) => match parsed_paint(s@) {
                Some(_) => Seq::empty(),
                None => seq![issue_at(paint_error(s@), item)],
            },
            TomlValue::Table(t) => paint_table_issues(t@, item),
            _ => seq![issue_at(wanted("a string or a table"@, item.value), item)],
        },
    }
}

/// What reading the field `name` of `t` as `kind` gives.
pub open spec fn field_view(t: Seq<TomlEntry>, name: Seq<char>, kind: FieldKind) -> FieldView {
    match field(t, name) {
        Some(item) => read_view(item, kind),
        None => FieldView::Absent,
    }
}

pub open spec fn field_issues(t: Seq<TomlEntry>, name: Seq<char>, kind: FieldKind) -> Seq<(Seq<char>, int, int)> {
    match field(t, name) {
        Some(item) => read_issues(item, kind),
        None => Seq::empty(),
    }
}

pub open spec fn field_names(fields: Seq<(Seq<char>, FieldKind)>) -> Seq<Seq<char>> {
    fields.map_values(|f: (Seq<char>, FieldKind)| f.0)
}

/// The issues of the declared fields of `t`, in declaration order.
pub open spec fn fields_issues(t: Seq<TomlEntry>, fields: Seq<(Seq<char>, FieldKind)>) -> Seq<(Seq<char>, int, int)>
    decreases fields.len(),
{
    if fields.len() == 0 {
        Seq::empty()
    } else {
        fields_issues(t, fields.drop_last()) + field_issues(t, fields.last().0, fields.last().1)
    }
}

/// Every issue of reading table `t` (spanning `start..end`) with `fields`:
/// those of its fields in declaration order, then its undeclared keys.
pub open spec fn table_issues(t: Seq<TomlEntry>, fields: Seq<(Seq<char>, FieldKind)>, start: int, end: int) -> Seq<
    (Seq<char>, int, int),
> {
    fields_issues(t, fields) + unexpected_issue(t, field_names(fields), start, end)
}

pub open spec fn fields_view(fields: Seq<(String, FieldKind)>) -> Seq<(Seq<char>, FieldKind)> {
    fields.map_values(|f: (String, FieldKind)| (f.0@, f.1))
}

/// The index of the entry named `name`.
pub fn find_field(t: &Vec<TomlEntry>, name: &String) -> (r: Option<usize>)
    ensures
        first_index(t@, has_name(name@)) == (match r {
            Some(i) => Some(i as int),
            None => None,
        }),
        r matches Some(i) ==> i < t@.len() && t@[i as int].key@ == name@,
{
    proof {
        lemma_first_index(t@, has_name(name@));
    }
    let mut i: usize = 0;
    while i < t.len()
        invariant
            i <= t@.len(),
            forall|j: int| 0 <= j < i ==> !has_name(name@)(#[trigger] t@[j]),
        decreases t@.len() - i,
    {
        if t[i].key == *name {
            proof {
                lemma_first_index_is(t@, has_name(name@), i as int);
            }
            return Some(i);
        }
        i += 1;
    }
    proof {
        lemma_first_index_is(t@, has_name(name@), i as int);
    }
    None
}

/// The value of the field `name` of `t`.
pub fn get_field<'a>(t: &'a Vec<TomlEntry>, name: &str) -> (r: Option<&'a TomlItem>)
    ensures
        match r {
            Some(x) => field(t@, name@) == Some(*x),
            None => field(t@, name@) is None,
        },
{
    let wanted = name.to_owned();
    match find_field(t, &wanted) {
        Some(i) => Some(&t[i].item),
        None => None,
    }
}

fn kind_name_exec(v: &TomlValue) -> (r: &'static str)
    ensures
        r@ == kind_name(*v),
{
    match v {
        TomlValue::Str(_) => "string",
        TomlValue::Integer(_) => "integer",
        TomlValue::Float => "float",
        TomlValue::Boolean(_) => "boolean",
        TomlValue::Array(_) => "array",
        TomlValue::Table(_) => "table",
    }
}

fn issue_for(message: Vec<char>, item: &TomlItem) -> (r: Issue)
    ensures
        r@ == issue_at(message@, *item),
{
    Issue { message: string_of(message.as_slice()), start: item.start, end: item.end }
}

fn wanted_exec(expected: &str, v: &TomlValue) -> (r: Vec<char>)
    ensures
        r@ == wanted(expected@, *v),
{
    let mut m: Vec<char> = Vec::new();
    push_str(&mut m, "expected ");
    push_str(&mut m, expected);
    push_str(&mut m, ", found ");
    push_str(&mut m, kind_name_exec(v));
    m
}

fn size_exec(item: &TomlItem) -> (r: Option<u16>)
    ensures
        r == size_of(*item),
{
    match item.value {
        TomlValue::Integer(i) => if 0 <= i && i <= 65535 {
            Some(i as u16)
        } else {
            None
        },
        _ => None,
    }
}

fn size_issue_exec(item: &TomlItem) -> (r: Vec<char>)
    ensures
        r@ == size_issue(*item),
{
    match item.value {
        TomlValue::Integer(_) => {
            let mut m: Vec<char> = Vec::new();
            push_str(&mut m, "out of range of 'u16'");
            m
        },
        _ => wanted_exec("u16", &item.value),
    }
}

/// Reads an array of strings, reporting each item that is not one.
fn read_texts(items: &Vec<TomlItem>, issues: &mut Vec<Issue>) -> (r: Option<Vec<String>>)
    ensures
        issues_view(final(issues)@) == issues_view(old(issues)@) + text_items_issues(items@),
        r is Some <==> text_items_issues(items@).len() == 0,
        r matches Some(v) ==> strings_view(v@) == items@.map_values(|x: TomlItem| text_of(x).unwrap()),
{
    let mut out: Vec<String> = Vec::new();
    let mut ok = true;
    let mut i: usize = 0;
    while i < items.len()
        invariant
            i <= items@.len(),
            issues_view(issues@) == issues_view(old(issues)@) + text_items_issues(items@.take(i as int)),
            ok <==> text_items_issues(items@.take(i as int)).len() == 0,
            ok ==> strings_view(out@) == items@.take(i as int).map_values(|x: TomlItem| text_of(x).unwrap()),
        decreases items@.len() - i,
    {
        proof {
            assert(items@.take(i + 1).drop_last() =~= items@.take(i as int));
            assert(items@.take(i + 1).last() == items@[i as int]);
        }
        let ghost before = issues@;
        match &items[i].value {
            TomlValue::Str(s) => {
                if ok {
                    let ghost prev = out@;
                    let c = s.clone();
                    out.push(c);
                    proof {
                        let tv = items@.take(i + 1).map_values(|x: TomlItem| text_of(x).unwrap());
                        assert(strings_view(prev) == items@.take(i as int).map_values(
                            |x: TomlItem| text_of(x).unwrap(),
                        ));
                        assert forall|k: int| 0 <= k < i + 1 implies strings_view(out@)[k] == tv[k] by {
                            if k < i {
                                assert(out@[k] == prev[k]);
                                assert(strings_view(prev)[k] == prev[k]@);
                            } else {
                                assert(out@[k] == c);
                                assert(items@[i as int].value == TomlValue::Str(*s));
                            }
                        }
                        assert(strings_view(out@) =~= tv);
                    }
                }
            },
            _ => {
                let m = wanted_exec("a string", &items[i].value);
                issues.push(issue_for(m, &items[i]));
                ok = false;
                proof {
                    assert(issues_view(issues@) =~= issues_view(before) + seq![
                        issue_at(wanted("a string"@, items@[i as int].value), items@[i as int]),
                    ]);
                }
            },
        }
        proof {
            assert(issues_view(issues@) =~= issues_view(old(issues)@) + text_items_issues(items@.take(i + 1)));
        }
        i += 1;
    }
    proof {
        assert(items@.take(items@.len() as int) =~= items@);
    }
    if ok {
        Some(out)
    } else {
        None
    }
}

/// Reads an array of `u16`, reporting each item that is not one.
fn read_sizes(items: &Vec<TomlItem>, issues: &mut Vec<Issue>) -> (r: Option<Vec<u16>>)
    ensures
        issues_view(final(issues)@) == issues_view(old(issues)@) + size_items_issues(items@),
        r is Some <==> size_items_issues(items@).len() == 0,
        r matches Some(v) ==> v@ == items@.map_values(|x: TomlItem| size_of(x).unwrap()),
{
    let mut out: Vec<u16> = Vec::new();
    let mut ok = true;
    let mut i: usize = 0;
    while i < items.len()
        invariant
            i <= items@.len(),
            issues_view(issues@) == issues_view(old(issues)@) + size_items_issues(items@.take(i as int)),
            ok <==> size_items_issues(items@.take(i as int)).len() == 0,
            ok ==> out@ == items@.take(i as int).map_values(|x: TomlItem| size_of(x).unwrap()),
        decreases items@.len() - i,
    {
        proof {
            assert(items@.take(i + 1).drop_last() =~= items@.take(i as int));
            assert(items@.take(i + 1).last() == items@[i as int]);
        }
        let ghost before = issues@;
        match size_exec(&items[i]) {
            Some(n) => {
                if ok {
                    out.push(n);
                    proof {
                        assert(out@ =~= items@.take(i + 1).map_values(|x: TomlItem| size_of(x).unwrap()));
                    }
                }
            },
            None => {
                let m = size_issue_exec(&items[i]);
                issues.push(issue_for(m, &items[i]));
                ok = false;
                proof {
                    assert(issues_view(issues@) =~= issues_view(before) + seq![
                        issue_at(size_issue(items@[i as int]), items@[i as int]),
                    ]);
                }
            },
        }
        proof {
            assert(issues_view(issues@) =~= issues_view(old(issues)@) + size_items_issues(items@.take(i + 1)));
        }
        i += 1;
    }
    proof {
        assert(items@.take(items@.len() as int) =~= items@);
    }
    if ok {
        Some(out)
    } else {
        None
    }
}

fn names_contain(names: &Vec<String>, k: &String) -> (r: bool)
    ensures
        r == strings_view(names@).contains(k@),
{
    let mut i: usize = 0;
    while i < names.len()
        invariant
            i <= names@.len(),
            forall|j: int| 0 <= j < i ==> #[trigger] names@[j]@ != k@,
        decreases names@.len() - i,
    {
        if names[i] == *k {
            proof {
                assert(strings_view(names@)[i as int] == k@);
            }
            return true;
        }
        i += 1;
    }
    proof {
        if strings_view(names@).contains(k@) {
            let j = choose|j: int| 0 <= j < strings_view(names@).len() && strings_view(names@)[j] == k@;
            assert(names@[j]@ == k@);
        }
    }
    false
}

fn backquoted_exec(k: &String) -> (r: Vec<char>)
    ensures
        r@ == backquoted(k@),
{
    let mut m: Vec<char> = Vec::new();
    push_str(&mut m, "`");
    push_str(&mut m, k.as_str());
    push_str(&mut m, "`");
    m
}

fn quoted_list_exec(keys: &Vec<String>) -> (r: Vec<char>)
    ensures
        r@ == quoted_list(strings_view(keys@)),
{
    let mut parts: Vec<Vec<char>> = Vec::new();
    let mut i: usize = 0;
    while i < keys.len()
        invariant
            i <= keys@.len(),
            parts@.len() == i,
            forall|j: int| 0 <= j < i ==> #[trigger] parts@[j]@ == backquoted(keys@[j]@),
        decreases keys@.len() - i,
    {
        parts.push(backquoted_exec(&keys[i]));
        i += 1;
    }
    let sep = crate::text::chars_of(", ");
    let r = crate::text::join_exec(&parts, sep.as_slice());
    proof {
        assert(parts@.map_values(|p: Vec<char>| p@) =~= strings_view(keys@).map_values(
            |k: Seq<char>| backquoted(k),
        ));
    }
    r
}

/// Reports the keys of `t` that `names` does not declare, if any.
fn push_unexpected(t: &Vec<TomlEntry>, names: &Vec<String>, start: usize, end: usize, issues: &mut Vec<Issue>)
    ensures
        issues_view(final(issues)@) == issues_view(old(issues)@) + unexpected_issue(
            t@,
            strings_view(names@),
            start as int,
            end as int,
        ),
{
    let ghost nv = strings_view(names@);
    let mut keys: Vec<String> = Vec::new();
    let mut i: usize = 0;
    while i < t.len()
        invariant
            nv == strings_view(names@),
            i <= t@.len(),
            strings_view(keys@) == unexpected_keys(t@.take(i as int), nv),
        decreases t@.len() - i,
    {
        proof {
            assert(t@.take(i + 1).drop_last() =~= t@.take(i as int));
            assert(t@.take(i + 1).last() == t@[i as int]);
        }
        if !names_contain(names, &t[i].key) {
            keys.push(t[i].key.clone());
            proof {
                assert(strings_view(keys@) =~= unexpected_keys(t@.take(i as int), nv).push(t@[i as int].key@));
            }
        }
        i += 1;
    }
    proof {
        assert(t@.take(t@.len() as int) =~= t@);
    }
    if keys.len() > 0 {
        let mut m: Vec<char> = Vec::new();
        push_str(&mut m, "unexpected field(s): ");
        let ks = quoted_list_exec(&keys);
        push_all(&mut m, ks.as_slice());
        push_str(&mut m, " (expected one of: ");
        let ns = quoted_list_exec(names);
        push_all(&mut m, ns.as_slice());
        push_str(&mut m, ")");
        let ghost before = issues@;
        issues.push(Issue { message: string_of(m.as_slice()), start, end });
        proof {
            assert(issues_view(issues@) =~= issues_view(before) + unexpected_issue(
                t@,
                nv,
                start as int,
                end as int,
            ));
        }
    } else {
        proof {
            assert(issues_view(issues@) =~= issues_view(old(issues)@) + unexpected_issue(
                t@,
                nv,
                start as int,
                end as int,
            ));
        }
    }
}

fn push_issue(issues: &mut Vec<Issue>, message: Vec<char>, item: &TomlItem)
    ensures
        issues_view(final(issues)@) == issues_view(old(issues)@) + seq![issue_at(message@, *item)],
{
    let ghost before = issues@;
    issues.push(issue_for(message, item));
    proof {
        assert(issues_view(issues@) =~= issues_view(before) + seq![issue_at(message@, *item)]);
    }
}

fn read_color(t: &Vec<TomlEntry>, name: &str, table: &TomlItem, issues: &mut Vec<Issue>) -> (r: Option<PaintColor>)
    ensures
        issues_view(final(issues)@) == issues_view(old(issues)@) + color_issues(t@, name@, *table),
        r is Some <==> color_issues(t@, name@, *table).len() == 0,
        r matches Some(c) ==> c == color_field(t@, name@),
{
    match get_field(t, name) {
        None => {
            let mut m: Vec<char> = Vec::new();
            push_str(&mut m, "missing field '");
            push_str(&mut m, name);
            push_str(&mut m, "' in table");
            push_issue(issues, m, table);
            None
        },
        Some(x) => match &x.value {
            TomlValue::Str(s) => match PaintColor::parse(s.as_str()) {
                Ok(c) => {
                    proof {
                        assert(issues_view(issues@) =~= issues_view(old(issues)@) + color_issues(
                            t@,
                            name@,
                            *table,
                        ));
                    }
                    Some(c)
                },
                Err(m) => {
                    let mv = crate::text::chars_of(m.as_str());
                    push_issue(issues, mv, x);
                    None
                },
            },
            _ => {
                let m = wanted_exec("a string", &x.value);
                push_issue(issues, m, x);
                None
            },
        },
    }
}

fn paint_names_exec() -> (r: Vec<String>)
    ensures
        strings_view(r@) == paint_names(),
{
    let mut r: Vec<String> = Vec::new();
    r.push("light".to_owned());
    r.push("dark".to_owned());
    proof {
        assert(strings_view(r@) =~= paint_names());
    }
    r
}

/// Reads `item` as `kind`, reporting what does not fit.
pub fn read_item(item: &TomlItem, kind: FieldKind, issues: &mut Vec<Issue>) -> (r: FieldValue)
    ensures
        r@ == read_view(*item, kind),
        issues_view(final(issues)@) == issues_view(old(issues)@) + read_issues(*item, kind),
{
    let ghost old_issues = issues@;
    let r = match kind {
        FieldKind::Text => match &item.value {
            TomlValue::Str(s) => FieldValue::Text(s.clone()),
            _ => {
                push_issue(issues, wanted_exec("a string", &item.value), item);
                FieldValue::Invalid
            },
        },
        FieldKind::Flag => match &item.value {
            TomlValue::Boolean(b) => FieldValue::Flag(*b),
            _ => {
                push_issue(issues, wanted_exec("a bool", &item.value), item);
                FieldValue::Invalid
            },
        },
        FieldKind::Size => match size_exec(item) {
            Some(n) => FieldValue::Size(n),
            None => {
                push_issue(issues, size_issue_exec(item), item);
                FieldValue::Invalid
            },
        },
        FieldKind::Texts => match &item.value {
            TomlValue::Array(items) => match read_texts(items, issues) {
                Some(v) => FieldValue::Texts(v),
                None => FieldValue::Invalid,
            },
            _ => {
                push_issue(issues, wanted_exec("an array", &item.value), item);
                FieldValue::Invalid
            },
        },
        FieldKind::Sizes => match &item.value {
            TomlValue::Array(items) => match read_sizes(items, issues) {
                Some(v) => FieldValue::Sizes(v),
                None => FieldValue::Invalid,
            },
            _ => {
                push_issue(issues, wanted_exec("an array", &item.value), item);
                FieldValue::Invalid
            },
        },
        FieldKind::PaintValue => match &item.value {
            TomlValue::Str(s) => match Paint::parse(s.as_str()) {
                Ok(p) => FieldValue::Painted(p),
                Err(m) => {
                    push_issue(issues, crate::text::chars_of(m.as_str()), item);
                    FieldValue::Invalid
                },
            },
            TomlValue::Table(t) => {
                let old_len = issues.len();
                let light = read_color(t, "light", item, issues);
                let dark = read_color(t, "dark", item, issues);
                let names = paint_names_exec();
                push_unexpected(t, &names, item.start, item.end, issues);
                proof {
                    assert(issues_view(issues@) =~= issues_view(old_issues) + paint_table_issues(t@, *item));
                }
                match (light, dark) {
                    (Some(l), Some(d)) => {
                        if issues.len() == old_len + 0 {
                            FieldValue::Painted(Paint::Colors(ThemePaint { light: l, dark: d }))
                        } else {
                            FieldValue::Invalid
                        }
                    },
                    _ => FieldValue::Invalid,
                }
            },
            _ => {
                push_issue(issues, wanted_exec("a string or a table", &item.value), item);
                FieldValue::Invalid
            },
        },
    };
    proof {
        assert(issues_view(issues@) =~= issues_view(old_issues) + read_issues(*item, kind));
    }
    r
}

/// Reads the declared `fields` of table `t` (spanning `start..end`): one
/// value per field, in order, and every issue, in the order
/// `table_issues` gives.
pub fn read_fields(
    t: &Vec<TomlEntry>,
    fields: &Vec<(String, FieldKind)>,
    start: usize,
    end: usize,
    issues: &mut Vec<Issue>,
) -> (r: Vec<FieldValue>)
    ensures
        r@.len() == fields@.len(),
        forall|i: int| 0 <= i < fields@.len() ==> #[trigger] r@[i]@ == field_view(t@, fields@[i].0@, fields@[i].1),
        issues_view(final(issues)@) == issues_view(old(issues)@) + table_issues(
            t@,
            fields_view(fields@),
            start as int,
            end as int,
        ),
{
    let ghost fv = fields_view(fields@);
    let mut values: Vec<FieldValue> = Vec::new();
    let mut names: Vec<String> = Vec::new();
    let mut i: usize = 0;
    while i < fields.len()
        invariant
            fv == fields_view(fields@),
            i <= fields@.len(),
            values@.len() == i,
            names@.len() == i,
            forall|k: int| 0 <= k < i ==> #[trigger] values@[k]@ == field_view(t@, fields@[k].0@, fields@[k].1),
            strings_view(names@) == field_names(fv.take(i as int)),
            issues_view(issues@) == issues_view(old(issues)@) + fields_issues(t@, fv.take(i as int)),
        decreases fields@.len() - i,
    {
        proof {
            assert(fv.take(i + 1).drop_last() =~= fv.take(i as int));
            assert(fv.take(i + 1).last() == fv[i as int]);
        }
        let ghost before = issues@;
        let (name, kind) = &fields[i];
        let v = match get_field(t, name.as_str()) {
            Some(item) => read_item(item, *kind, issues),
            None => FieldValue::Absent,
        };
        values.push(v);
        let ghost prev = names@;
        let nc = name.clone();
        names.push(nc);
        proof {
            assert(fv[i as int].0 == fields@[i as int].0@);
            assert forall|k: int| 0 <= k < i + 1 implies strings_view(names@)[k] == field_names(fv.take(i + 1))[k] by {
                if k < i {
                    assert(names@[k] == prev[k]);
                    assert(strings_view(prev)[k] == field_names(fv.take(i as int))[k]);
                }
            }
            assert(strings_view(names@) =~= field_names(fv.take(i + 1)));
            assert(issues_view(issues@) =~= issues_view(old(issues)@) + fields_issues(t@, fv.take(i + 1)));
        }
        i += 1;
    }
    proof {
        assert(fv.take(fields@.len() as int) =~= fv);
    }
    push_unexpected(t, &names, start, end, issues);
    values
}

/// A table without issues has none in any declared field, and each
/// declared field that is there reads as a value.
pub proof fn lemma_no_field_issues(t: Seq<TomlEntry>, fields: Seq<(Seq<char>, FieldKind)>, i: int)
    requires
        fields_issues(t, fields).len() == 0,
        0 <= i < fields.len(),
    ensures
        field_issues(t, fields[i].0, fields[i].1).len() == 0,
        !(field_view(t, fields[i].0, fields[i].1) is Invalid),
        field(t, fields[i].0) is Some <==> !(field_view(t, fields[i].0, fields[i].1) is Absent),
    decreases fields.len(),
{
    if i < fields.len() - 1 {
        assert(fields.drop_last()[i] == fields[i]);
        lemma_no_field_issues(t, fields.drop_last(), i);
    }
}

} // verus!
