//! A TOML document as plain values with their source spans, read through
//! `toml_span`.

use toml_span::value::ValueInner;
use vstd::prelude::*;

verus! {

#[verifier::external_type_specification]
#[verifier::external_body]
pub struct ExTomlSpanValue<'de>(toml_span::Value<'de>);

/// One TOML value. Floats are kept only as their kind.
#[derive(Debug)]
pub enum TomlValue {
    Str(String),
    Integer(i64),
    Float,
    Boolean(bool),
    Array(Vec<TomlItem>),
    Table(Vec<TomlEntry>),
}

/// A value with the byte span it was read from.
#[derive(Debug)]
pub struct TomlItem {
    pub value: TomlValue,
    pub start: usize,
    pub end: usize,
}

/// One `key = value` of a table, with the key's byte span.
#[derive(Debug)]
pub struct TomlEntry {
    pub key: String,
    pub key_start: usize,
    pub key_end: usize,
    pub item: TomlItem,
}

/// A document `toml_span` refused, with its message and byte span.
#[derive(Debug)]
pub struct TomlError {
    pub message: String,
    pub start: usize,
    pub end: usize,
}

/// The name TOML gives the kind of `v`.
pub open spec fn kind_name(v: TomlValue) -> Seq<char> {
    match v {
        TomlValue::Str(_) => "string"@,
        TomlValue::Integer(_) => "integer"@,
        TomlValue::Float => "float"@,
        TomlValue::Boolean(_) => "boolean"@,
        TomlValue::Array(_) => "array"@,
        TomlValue::Table(_) => "table"@,
    }
}

/// Whether no two entries of `t` share a key.
pub open spec fn keys_distinct(t: Seq<TomlEntry>) -> bool {
    forall|i: int, j: int| 0 <= i < j < t.len() ==> #[trigger] t[i].key@ != #[trigger] t[j].key@
}

/// What `toml_span::parse` reads from a text: its root value, every value
/// with its byte span and every table's entries in the map's key order; or
/// the `Display` text and span of the error it gives. A function of the
/// text alone.
pub uninterp spec fn toml_document(content: Seq<char>) -> Result<TomlItem, (Seq<char>, int, int)>;

/// `toml_span::parse`, its result converted value by value (see
/// `plain_item`); the error as its `Display` text and span. The contract
/// claims that the result is `toml_document` of the text, and that the keys
/// of the root table are distinct (the table is a `BTreeMap` keyed by name).
#[verifier::external_body]
fn toml_read(content: &str) -> (r: Result<TomlItem, TomlError>)
    ensures
        match r {
            Ok(i) => toml_document(content@) == Ok::<TomlItem, (Seq<char>, int, int)>(i) && (i.value matches TomlValue::Table(t)
                ==> keys_distinct(t@)),
            Err(e) => toml_document(content@) == Err::<TomlItem, (Seq<char>, int, int)>(
                (e.message@, e.start as int, e.end as int),
            ),
        },
{
    match toml_span::parse(content) {
        Ok(v) => Ok(plain_item(v)),
        Err(e) => Err(TomlError { message: e.to_string(), start: e.span.start, end: e.span.end }),
    }
}

/// The conversion `toml_read` applies: one `toml_span::Value` taken (it was
/// never taken before, so `take` does not panic) and rebuilt variant by
/// variant as a `TomlItem`, its nested values converted the same way
/// (`toml_span` nests at most 128 levels).
#[verifier::external_body]
fn plain_item(mut v: toml_span::Value<'_>) -> TomlItem {
    let value = match v.take() {
        ValueInner::String(s) => TomlValue::Str(s.into()),
        ValueInner::Integer(i) => TomlValue::Integer(i),
        ValueInner::Float(_) => TomlValue::Float,
        ValueInner::Boolean(b) => TomlValue::Boolean(b),
        ValueInner::Array(a) => TomlValue::Array(a.into_iter().map(plain_item).collect()),
        ValueInner::Table(m) => TomlValue::Table(
            m.into_iter()
                .map(|(k, x)| TomlEntry { key: k.name.into(), key_start: k.span.start, key_end: k.span.end, item: plain_item(x) })
                .collect(),
        ),
    };
    TomlItem { value, start: v.span.start, end: v.span.end }
}

/// The root table of a text, or the message and span of why there is none.
pub open spec fn toml_root(content: Seq<char>) -> Result<Seq<TomlEntry>, (Seq<char>, int, int)> {
    match toml_document(content) {
        Ok(i) => match i.value {
            TomlValue::Table(t) => Ok(t@),
            _ => Err(("the document root is not a table"@, i.start as int, i.end as int)),
        },
        Err(e) => Err(e),
    }
}

pub open spec fn root_result(r: Result<Vec<TomlEntry>, TomlError>) -> Result<Seq<TomlEntry>, (Seq<char>, int, int)> {
    match r {
        Ok(t) => Ok(t@),
        Err(e) => Err((e.message@, e.start as int, e.end as int)),
    }
}

/// Reads a TOML document: its root table with every value's span, or the
/// message and span of what `toml_span` refused.
pub fn parse_toml(content: &str) -> (r: Result<Vec<TomlEntry>, TomlError>)
    ensures
        root_result(r) == toml_root(content@),
        r matches Ok(t) ==> keys_distinct(t@),
{
    match toml_read(content) {
        Ok(item) => match item.value {
            TomlValue::Table(t) => Ok(t),
            _ => Err(TomlError { message: "the document root is not a table".to_string(), start: item.start, end: item.end }),
        },
        Err(e) => Err(e),
    }
}

} // verus!
