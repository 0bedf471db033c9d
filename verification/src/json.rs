//! JSON documents as the library reads them (`package.json`, `npm view --json`):
//! `serde_json` parses, and the tree comes back as a `JsonValue` of plain
//! values that verified code walks.
use vstd::prelude::*;

verus! {

/// `serde_json::Value`, opaque to the proofs: only the conversion below reads it.
#[verifier::external_type_specification]
#[verifier::external_body]
pub struct ExSerdeJsonValue(serde_json::Value);

/// A JSON value. Numbers keep the text `serde_json` prints for them; an
/// object's members are in the order `serde_json` keeps them (by key).
#[derive(Debug)]
pub enum JsonValue {
    Null,
    Bool(bool),
    Number(String),
    Str(String),
    Array(Vec<JsonValue>),
    Object(Vec<(String, JsonValue)>),
}

/// What `serde_json::from_str::<serde_json::Value>` gives for a text: the tree,
/// or the text of its error.
pub uninterp spec fn json_parse(text: Seq<char>) -> Result<JsonValue, Seq<char>>;

/// The one-for-one conversion of a parsed `serde_json::Value` tree (each
/// variant to its counterpart, numbers by their `Display` text, object members
/// in the map's order). It serves `parse_json` alone; its contract is stated there.
#[verifier::external_body]
fn json_from_serde(v: &serde_json::Value) -> JsonValue {
    match v {
        serde_json::Value::Null => JsonValue::Null,
        serde_json::Value::Bool(b) => JsonValue::Bool(*b),
        serde_json::Value::Number(n) => JsonValue::Number(n.to_string()),
        serde_json::Value::String(s) => JsonValue::Str(s.clone()),
        serde_json::Value::Array(items) => JsonValue::Array(items.iter().map(json_from_serde).collect()),
        serde_json::Value::Object(m) => JsonValue::Object(m.iter().map(|(k, x)| (k.clone(), json_from_serde(x))).collect()),
    }
}

/// `serde_json::from_str::<serde_json::Value>`: the parsed tree, or the
/// `Display` text of the error; the same text always gives the same result.
#[verifier::external_body]
pub(crate) fn parse_json(text: &str) -> (r: Result<JsonValue, String>)
    ensures
        match r {
            Ok(j) => json_parse(text@) == Ok::<JsonValue, Seq<char>>(j),
            Err(e) => json_parse(text@) == Err::<JsonValue, Seq<char>>(e@),
        },
{
    match serde_json::from_str::<serde_json::Value>(text) {
        Ok(v) => Ok(json_from_serde(&v)),
        Err(e) => Err(e.to_string()),
    }
}

/// The first member of `ms`, from `i` on, named `key`.
pub open spec fn member_from(ms: Seq<(String, JsonValue)>, key: Seq<char>, i: int) -> Option<JsonValue>
    decreases ms.len() - i,
{
    if i < 0 || i >= ms.len() {
        None
    } else if ms[i].0@ == key {
        Some(ms[i].1)
    } else {
        member_from(ms, key, i + 1)
    }
}

/// `Value::get(key)`: the member of an object named `key` (none for other values).
pub open spec fn json_member(j: JsonValue, key: Seq<char>) -> Option<JsonValue> {
    match j {
        JsonValue::Object(ms) => member_from(ms@, key, 0),
        _ => None,
    }
}

/// `Option<&Value>::and_then(|v| v.get(key))`
pub open spec fn opt_member(j: Option<JsonValue>, key: Seq<char>) -> Option<JsonValue> {
    match j {
        Some(v) => json_member(v, key),
        None => None,
    }
}

/// `as_str` of an optional value.
pub open spec fn opt_str(j: Option<JsonValue>) -> Option<Seq<char>> {
    match j {
        Some(JsonValue::Str(s)) => Some(s@),
        _ => None,
    }
}

/// The member of an object named `key`.
pub fn member<'a>(j: &'a JsonValue, key: &str) -> (r: Option<&'a JsonValue>)
    ensures
        match r {
            Some(x) => json_member(*j, key@) == Some(*x),
            None => json_member(*j, key@) is None,
        },
{
    match j {
        JsonValue::Object(ms) => {
            let k = crate::text::str_chars(key);
            let mut i: usize = 0;
            while i < ms.len()
                invariant
                    i <= ms.len(),
                    k@ == key@,
                    member_from(ms@, key@, 0) == member_from(ms@, key@, i as int),
                    json_member(*j, key@) == member_from(ms@, key@, 0),
                decreases ms.len() - i,
            {
                let name = crate::text::str_chars(ms[i].0.as_str());
                if crate::text::eq_vec(&name, &k) {
                    assert(ms@[i as int].0@ == key@);
                    assert(member_from(ms@, key@, i as int) == Some(ms@[i as int].1));
                    return Some(&ms[i].1);
                }
                i = i + 1;
            }
            None
        },
        _ => None,
    }
}

/// The member of an optional value named `key`.
pub fn opt_member_ref<'a>(j: Option<&'a JsonValue>, key: &str) -> (r: Option<&'a JsonValue>)
    ensures
        match r {
            Some(x) => opt_member(opt_deref(j), key@) == Some(*x),
            None => opt_member(opt_deref(j), key@) is None,
        },
{
    match j {
        Some(v) => member(v, key),
        None => None,
    }
}

pub open spec fn opt_deref(j: Option<&JsonValue>) -> Option<JsonValue> {
    match j {
        Some(v) => Some(*v),
        None => None,
    }
}

/// `as_str` of an optional value, copied.
pub fn opt_as_string(j: Option<&JsonValue>) -> (r: Option<String>)
    ensures
        crate::text::opt_view(r) == opt_str(opt_deref(j)),
{
    match j {
        Some(JsonValue::Str(s)) => Some(s.clone()),
        _ => None,
    }
}

/// The string values among `xs`, in order (`filter_map(as_str)`).
pub open spec fn string_items(xs: Seq<JsonValue>) -> Seq<Seq<char>>
    decreases xs.len(),
{
    if xs.len() == 0 {
        Seq::empty()
    } else {
        string_items(xs.drop_last()) + match xs.last() {
            JsonValue::Str(s) => seq![s@],
            _ => Seq::<Seq<char>>::empty(),
        }
    }
}

/// The members of `ms` whose value is a string, as (key, value), in order.
pub open spec fn string_members(ms: Seq<(String, JsonValue)>) -> Seq<(Seq<char>, Seq<char>)>
    decreases ms.len(),
{
    if ms.len() == 0 {
        Seq::empty()
    } else {
        string_members(ms.drop_last()) + match ms.last().1 {
            JsonValue::Str(s) => seq![(ms.last().0@, s@)],
            _ => Seq::<(Seq<char>, Seq<char>)>::empty(),
        }
    }
}

pub open spec fn strings_view(v: Seq<String>) -> Seq<Seq<char>> {
    v.map_values(|s: String| s@)
}

pub open spec fn pairs_view(v: Seq<(String, String)>) -> Seq<(Seq<char>, Seq<char>)> {
    v.map_values(|p: (String, String)| (p.0@, p.1@))
}

/// The string items of an array.
pub fn collect_strings(xs: &Vec<JsonValue>) -> (r: Vec<String>)
    ensures
        strings_view(r@) == string_items(xs@),
{
    let mut r: Vec<String> = Vec::new();
    let mut i: usize = 0;
    while i < xs.len()
        invariant
            i <= xs.len(),
            strings_view(r@) == string_items(xs@.subrange(0, i as int)),
        decreases xs.len() - i,
    {
        let ghost sub = xs@.subrange(0, i + 1);
        assert(sub.drop_last() =~= xs@.subrange(0, i as int));
        let ghost before = r@;
        match &xs[i] {
            JsonValue::Str(s) => {
                r.push(s.clone());
                assert(strings_view(r@) =~= strings_view(before) + seq![s@]);
            },
            _ => {
                assert(strings_view(r@) =~= strings_view(before) + Seq::<Seq<char>>::empty());
            },
        }
        i = i + 1;
    }
    assert(xs@.subrange(0, xs.len() as int) =~= xs@);
    r
}

/// The string-valued members of an object, as (key, value).
pub fn collect_string_members(ms: &Vec<(String, JsonValue)>) -> (r: Vec<(String, String)>)
    ensures
        pairs_view(r@) == string_members(ms@),
{
    let mut r: Vec<(String, String)> = Vec::new();
    let mut i: usize = 0;
    while i < ms.len()
        invariant
            i <= ms.len(),
            pairs_view(r@) == string_members(ms@.subrange(0, i as int)),
        decreases ms.len() - i,
    {
        let ghost sub = ms@.subrange(0, i + 1);
        assert(sub.drop_last() =~= ms@.subrange(0, i as int));
        let ghost before = r@;
        match &ms[i].1 {
            JsonValue::Str(s) => {
                r.push((ms[i].0.clone(), s.clone()));
                assert(pairs_view(r@) =~= pairs_view(before) + seq![(ms@[i as int].0@, s@)]);
            },
            _ => {
                assert(pairs_view(r@) =~= pairs_view(before) + Seq::<(Seq<char>, Seq<char>)>::empty());
            },
        }
        i = i + 1;
    }
    assert(ms@.subrange(0, ms.len() as int) =~= ms@);
    r
}

} // verus!
