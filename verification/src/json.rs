//! JSON documents as plain values, parsed by `serde_json`.

use vstd::prelude::*;

use crate::text::push_str;

verus! {

/// A JSON value held as plain values; numbers keep their text.
#[derive(Debug)]
pub enum Json {
    /// `null`.
    Null,
    /// `true` or `false`.
    Bool(bool),
    /// A number, as `serde_json` writes it.
    Number(String),
    /// A string.
    Str(String),
    /// An array.
    Array(Vec<Json>),
    /// An object's members, in the order `serde_json` gives them (each key
    /// once).
    Object(Vec<(String, Json)>),
}

#[verifier::external_type_specification]
#[verifier::external_body]
pub struct ExJsonValue(serde_json::Value);

/// Name for what `serde_json::from_str` makes of a text, held as plain
/// values: `None` when the text is not JSON.
pub uninterp spec fn json_parse(text: Seq<char>) -> Option<Json>;

/// `serde_json::from_str` into `serde_json::Value`, converted to [`Json`];
/// the result is named by [`json_parse`] and depends on the text alone.
#[verifier::external_body]
pub fn parse_json(text: &str) -> (r: Option<Json>)
    ensures
        r == json_parse(text@),
{
    serde_json::from_str::<serde_json::Value>(text).ok().map(json_from_value)
}

/// The conversion behind [`parse_json`]: each `serde_json::Value` variant
/// becomes the [`Json`] variant of the same name, numbers as their text.
#[verifier::external_body]
fn json_from_value(v: serde_json::Value) -> Json {
    match v {
        serde_json::Value::Null => Json::Null,
        serde_json::Value::Bool(b) => Json::Bool(b),
        serde_json::Value::Number(n) => Json::Number(n.to_string()),
        serde_json::Value::String(s) => Json::Str(s),
        serde_json::Value::Array(a) => Json::Array(a.into_iter().map(json_from_value).collect()),
        serde_json::Value::Object(o) => Json::Object(o.into_iter().map(|(k, x)| (k, json_from_value(x))).collect()),
    }
}

/// The value of the first member named `key`.
pub open spec fn member(ms: Seq<(String, Json)>, key: Seq<char>) -> Option<Json>
    decreases ms.len(),
{
    if ms.len() == 0 {
        None
    } else if ms[0].0@ == key {
        Some(ms[0].1)
    } else {
        member(ms.drop_first(), key)
    }
}

/// The value of an object's member named `key`; `None` when there is no
/// such member or `j` is not an object.
pub open spec fn field(j: Json, key: Seq<char>) -> Option<Json> {
    match j {
        Json::Object(ms) => member(ms@, key),
        _ => None,
    }
}

/// The strings among the items, in order; other items are skipped.
pub open spec fn string_items(items: Seq<Json>) -> Seq<Seq<char>>
    decreases items.len(),
{
    if items.len() == 0 {
        seq![]
    } else {
        let rest = string_items(items.drop_last());
        match items.last() {
            Json::Str(s) => rest.push(s@),
            _ => rest,
        }
    }
}

/// The strings of an array; nothing when the value is absent or not an
/// array.
pub open spec fn strings_of(j: Option<Json>) -> Seq<Seq<char>> {
    match j {
        Some(Json::Array(items)) => string_items(items@),
        _ => seq![],
    }
}

/// The member named `key` of `j`, if `j` is an object that has one.
pub fn get_field<'a>(j: &'a Json, key: &str) -> (r: Option<&'a Json>)
    ensures
        match field(*j, key@) {
            Some(v) => r is Some && *r->0 == v,
            None => r is None,
        },
{
    match j {
        Json::Object(ms) => {
            let ghost s = ms@;
            assert(s.skip(0) =~= s);
            assert(field(*j, key@) == member(s, key@));
            let mut i: usize = 0;
            while i < ms.len()
                invariant
                    i <= ms.len(),
                    s == ms@,
                    field(*j, key@) == member(s, key@),
                    member(s, key@) == member(s.skip(i as int), key@),
                decreases ms.len() - i,
            {
                proof {
                    let t = s.skip(i as int);
                    assert(t.drop_first() =~= s.skip(i + 1));
                    assert(t[0] == s[i as int]);
                }
                if crate::text::str_eq(ms[i].0.as_str(), key) {
                    proof {
                        let t = s.skip(i as int);
                        assert(t[0].0@ == key@);
                        assert(member(t, key@) == Some(t[0].1));
                        assert(field(*j, key@) == member(s, key@));
                    }
                    return Some(&ms[i].1);
                }
                i = i + 1;
            }
            assert(s.skip(ms.len() as int).len() == 0);
            None
        },
        _ => None,
    }
}

fn copy_string(s: &str) -> (r: String)
    ensures
        r@ == s@,
{
    let mut r = String::new();
    push_str(&mut r, s);
    r
}

/// The strings of an array value, in order; nothing when the value is
/// absent or not an array.
pub fn array_strings(j: Option<&Json>) -> (r: Vec<String>)
    ensures
        r.deep_view() == strings_of(match j {
            Some(x) => Some(*x),
            None => None,
        }),
{
    match j {
        Some(Json::Array(items)) => {
            let mut out: Vec<String> = Vec::new();
            let mut i: usize = 0;
            while i < items.len()
                invariant
                    i <= items.len(),
                    out.deep_view() == string_items(items@.take(i as int)),
                decreases items.len() - i,
            {
                proof {
                    assert(items@.take(i + 1).drop_last() =~= items@.take(i as int));
                    assert(items@.take(i + 1).last() == items@[i as int]);
                }
                match &items[i] {
                    Json::Str(s) => {
                        let ghost before = out.deep_view();
                        out.push(copy_string(s.as_str()));
                        proof {
                            assert(out.deep_view() =~= before.push(s@));
                        }
                    },
                    _ => {},
                }
                i = i + 1;
            }
            proof {
                assert(items@.take(items.len() as int) =~= items@);
            }
            out
        },
        _ => Vec::new(),
    }
}

} // verus!
