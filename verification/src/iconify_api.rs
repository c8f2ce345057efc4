//! Reading what the iconify API answers: a collection listing (its icon
//! names, uncategorized and by category) and a search response (the ids it
//! found), both JSON read through `serde_json`.

use crate::fields::strings_view;
use crate::net::DownloadError;
use crate::text::{push_str, string_of};
use vstd::prelude::*;

verus! {

#[verifier::external_type_specification]
#[verifier::external_body]
pub struct ExJsonValue(serde_json::Value);

/// One JSON value. Numbers are kept only as their kind; an object's
/// members come in the order its map gives them, each key once.
#[derive(Debug)]
pub enum JsonValue {
    Null,
    Bool(bool),
    Number,
    Str(String),
    Array(Vec<JsonValue>),
    Object(Vec<(String, JsonValue)>),
}

/// What `serde_json::from_str::<serde_json::Value>` reads from a text: the
/// value, or the `Display` text of the error. A function of the text alone.
pub uninterp spec fn json_document(text: Seq<char>) -> Result<JsonValue, Seq<char>>;

/// `serde_json::from_str::<serde_json::Value>`, its result converted value
/// by value (see `plain_json`), the error as its `Display` text. The
/// contract claims that the result is `json_document` of the text.
#[verifier::external_body]
fn json_read(text: &str) -> (r: Result<JsonValue, String>)
    ensures
        match r {
            Ok(v) => json_document(text@) == Ok::<JsonValue, Seq<char>>(v),
            Err(e) => json_document(text@) == Err::<JsonValue, Seq<char>>(e@),
        },
{
    match serde_json::from_str::<serde_json::Value>(text) {
        Ok(v) => Ok(plain_json(v)),
        Err(e) => Err(e.to_string()),
    }
}

/// The conversion `json_read` applies: one `serde_json::Value` rebuilt
/// variant by variant, its nested values converted the same way
/// (`serde_json` nests at most 128 levels).
#[verifier::external_body]
fn plain_json(v: serde_json::Value) -> JsonValue {
    match v {
        serde_json::Value::Null => JsonValue::Null,
        serde_json::Value::Bool(b) => JsonValue::Bool(b),
        serde_json::Value::Number(_) => JsonValue::Number,
        serde_json::Value::String(s) => JsonValue::Str(s),
        serde_json::Value::Array(a) => JsonValue::Array(a.into_iter().map(plain_json).collect()),
        serde_json::Value::Object(m) => JsonValue::Object(m.into_iter().map(|(k, x)| (k, plain_json(x))).collect()),
    }
}

/// `serde_json::Value::get` with a key: the member of an object with that
/// key, none for anything else.
pub open spec fn member(v: JsonValue, key: Seq<char>) -> Option<JsonValue> {
    match v {
        JsonValue::Object(m) => member_of(m@, key),
        _ => None,
    }
}

pub open spec fn member_of(m: Seq<(String, JsonValue)>, key: Seq<char>) -> Option<JsonValue>
    decreases m.len(),
{
    if m.len() == 0 {
        None
    } else if m[0].0@ == key {
        Some(m[0].1)
    } else {
        member_of(m.skip(1), key)
    }
}

/// The strings among `items`, in order (anything else is passed over).
pub open spec fn strings_among(items: Seq<JsonValue>) -> Seq<Seq<char>>
    decreases items.len(),
{
    if items.len() == 0 {
        Seq::empty()
    } else {
        let rest = strings_among(items.drop_last());
        match items.last() {
            JsonValue::Str(s) => rest.push(s@),
            _ => rest,
        }
    }
}

/// The strings of every array among an object's member values, in order.
pub open spec fn strings_in_arrays(m: Seq<(String, JsonValue)>) -> Seq<Seq<char>>
    decreases m.len(),
{
    if m.len() == 0 {
        Seq::empty()
    } else {
        strings_in_arrays(m.drop_last()) + match m.last().1 {
            JsonValue::Array(a) => strings_among(a@),
            _ => Seq::empty(),
        }
    }
}

/// The icon names of a collection listing
/// (`{"uncategorized": [...], "categories": {"...": [...]}}`): the
/// uncategorized ones, then those of each category in key order.
pub open spec fn listing_names(v: JsonValue) -> Seq<Seq<char>> {
    (match member(v, "uncategorized"@) {
        Some(JsonValue::Array(a)) => strings_among(a@),
        _ => Seq::empty(),
    }) + match member(v, "categories"@) {
        Some(JsonValue::Object(m)) => strings_in_arrays(m@),
        _ => Seq::empty(),
    }
}

/// The ids a search response lists under `icons`; none without such an
/// array.
pub open spec fn search_ids(v: JsonValue) -> Seq<Seq<char>> {
    match member(v, "icons"@) {
        Some(JsonValue::Array(a)) => strings_among(a@),
        _ => Seq::empty(),
    }
}

fn find_member<'a>(v: &'a JsonValue, key: &str) -> (r: Option<&'a JsonValue>)
    ensures
        match r {
            Some(x) => member(*v, key@) == Some(*x),
            None => member(*v, key@) is None,
        },
{
    match v {
        JsonValue::Object(m) => {
            let mut i: usize = 0;
            proof {
                assert(m@.skip(0) =~= m@);
            }
            while i < m.len()
                invariant
                    i <= m@.len(),
                    *v == JsonValue::Object(*m),
                    member_of(m@, key@) == member_of(m@.skip(i as int), key@),
                decreases m@.len() - i,
            {
                proof {
                    assert(m@.skip(i as int).skip(1) =~= m@.skip(i + 1));
                    assert(m@.skip(i as int)[0] == m@[i as int]);
                }
                let k = crate::text::chars_of(m[i].0.as_str());
                let wanted = crate::text::chars_of(key);
                if crate::text::chars_eq(k.as_slice(), wanted.as_slice()) {
                    proof {
                        assert(m@[i as int].0@ == key@);
                        assert(m@.skip(i as int).len() > 0);
                        assert(member_of(m@.skip(i as int), key@) == Some(m@[i as int].1));
                        assert(member(*v, key@) == member_of(m@, key@));
                    }
                    return Some(&m[i].1);
                }
                i += 1;
            }
            None
        },
        _ => None,
    }
}

/// Appends the strings among `items` to `out`.
fn push_strings(items: &Vec<JsonValue>, out: &mut Vec<String>)
    ensures
        strings_view(final(out)@) == strings_view(old(out)@) + strings_among(items@),
{
    let mut i: usize = 0;
    proof {
        assert(items@.take(0) =~= Seq::<JsonValue>::empty());
        assert(strings_view(out@) =~= strings_view(old(out)@) + strings_among(items@.take(0)));
    }
    while i < items.len()
        invariant
            i <= items@.len(),
            strings_view(out@) == strings_view(old(out)@) + strings_among(items@.take(i as int)),
        decreases items@.len() - i,
    {
        proof {
            assert(items@.take(i + 1).drop_last() =~= items@.take(i as int));
            assert(items@.take(i + 1).last() == items@[i as int]);
        }
        let ghost before = out@;
        if let JsonValue::Str(s) = &items[i] {
            out.push(s.clone());
            proof {
                assert(strings_view(out@) =~= strings_view(before).push(s@));
            }
        }
        i += 1;
    }
    proof {
        assert(items@.take(items@.len() as int) =~= items@);
    }
}

/// The icon names of a collection listing's text: `None` when it is no
/// JSON, else `listing_names` of what it reads as.
pub fn collection_names(json_text: &str) -> (r: Option<Vec<String>>)
    ensures
        match json_document(json_text@) {
            Ok(v) => r matches Some(names) && strings_view(names@) == listing_names(v),
            Err(_) => r is None,
        },
{
    let v = match json_read(json_text) {
        Ok(v) => v,
        Err(_) => return None,
    };
    let mut names: Vec<String> = Vec::new();
    proof {
        assert(strings_view(names@) =~= Seq::<Seq<char>>::empty());
    }
    if let Some(JsonValue::Array(list)) = find_member(&v, "uncategorized") {
        push_strings(list, &mut names);
    }
    proof {
        assert(strings_view(names@) =~= match member(v, "uncategorized"@) {
            Some(JsonValue::Array(a)) => strings_among(a@),
            _ => Seq::empty(),
        });
    }
    let ghost first = strings_view(names@);
    if let Some(JsonValue::Object(m)) = find_member(&v, "categories") {
        let mut k: usize = 0;
        proof {
            assert(m@.take(0) =~= Seq::<(String, JsonValue)>::empty());
            assert(strings_view(names@) =~= first + strings_in_arrays(m@.take(0)));
        }
        while k < m.len()
            invariant
                k <= m@.len(),
                strings_view(names@) == first + strings_in_arrays(m@.take(k as int)),
            decreases m@.len() - k,
        {
            proof {
                assert(m@.take(k + 1).drop_last() =~= m@.take(k as int));
                assert(m@.take(k + 1).last() == m@[k as int]);
            }
            let ghost before = strings_view(names@);
            if let JsonValue::Array(list) = &m[k].1 {
                push_strings(list, &mut names);
                proof {
                    assert(first + strings_in_arrays(m@.take(k + 1)) =~= before + strings_among(list@));
                }
            } else {
                proof {
                    assert(first + strings_in_arrays(m@.take(k + 1)) =~= before);
                }
            }
            k += 1;
        }
        proof {
            assert(m@.take(m@.len() as int) =~= m@);
        }
    } else {
        proof {
            assert(strings_view(names@) =~= first + Seq::<Seq<char>>::empty());
        }
    }
    Some(names)
}

/// The message for a search response that is no JSON.
pub open spec fn search_parse_error(query: Seq<char>, e: Seq<char>) -> Seq<char> {
    "Failed to parse search response for `"@ + query + "`: "@ + e
}

/// The icon ids of the response to a search for `query`: `search_ids` of
/// what its text reads as, or the error for a text that is no JSON.
pub fn search_results(query: &str, response: &str) -> (r: Result<Vec<String>, DownloadError>)
    ensures
        match json_document(response@) {
            Ok(v) => r matches Ok(ids) && strings_view(ids@) == search_ids(v),
            Err(e) => r matches Err(err) && err.0@ == search_parse_error(query@, e),
        },
{
    let v = match json_read(response) {
        Ok(v) => v,
        Err(e) => {
            let mut m: Vec<char> = Vec::new();
            push_str(&mut m, "Failed to parse search response for `");
            push_str(&mut m, query);
            push_str(&mut m, "`: ");
            push_str(&mut m, e.as_str());
            return Err(DownloadError(string_of(m.as_slice())));
        },
    };
    let mut ids: Vec<String> = Vec::new();
    proof {
        assert(strings_view(ids@) =~= Seq::<Seq<char>>::empty());
    }
    if let Some(JsonValue::Array(list)) = find_member(&v, "icons") {
        push_strings(list, &mut ids);
    }
    proof {
        assert(strings_view(ids@) =~= search_ids(v));
    }
    Ok(ids)
}

} // verus!
