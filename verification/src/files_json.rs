//! The file list stored in clipboard content as `files:{"files":[...]}`:
//! the text is parsed by serde_json into a JSON value, and each entry's
//! `name` and `path` are read from its `files` array.
use vstd::prelude::*;
use crate::strs::str_eq;

verus! {

broadcast use vstd::seq::group_seq_axioms;

/// A JSON value as plain values; numbers keep their text.
pub enum JsonView {
    Null,
    Bool(bool),
    Number(Seq<char>),
    Text(Seq<char>),
    Array(Seq<JsonView>),
    Object(Seq<(Seq<char>, JsonView)>),
}

/// A JSON value as serde_json reads it; numbers keep their text, and an
/// object's fields come in serde_json's order, each key once.
#[derive(Debug)]
pub enum JsonValue {
    Null,
    Bool(bool),
    Number(String),
    Text(String),
    Array(Vec<JsonValue>),
    Object(Vec<(String, JsonValue)>),
}

/// `v` holds the JSON value `w`.
pub open spec fn json_matches(v: JsonValue, w: JsonView) -> bool
    decreases v,
{
    match v {
        JsonValue::Null => w is Null,
        JsonValue::Bool(b) => w == JsonView::Bool(b),
        JsonValue::Number(n) => w == JsonView::Number(n@),
        JsonValue::Text(t) => w == JsonView::Text(t@),
        JsonValue::Array(items) => match w {
            JsonView::Array(ws) => items@.len() == ws.len() && forall|i: int|
                0 <= i < ws.len() ==> json_matches(#[trigger] items@[i], ws[i]),
            _ => false,
        },
        JsonValue::Object(fields) => match w {
            JsonView::Object(ws) => fields@.len() == ws.len() && forall|i: int|
                0 <= i < ws.len() ==> (#[trigger] fields@[i]).0@ == ws[i].0 && json_matches(fields@[i].1, ws[i].1),
            _ => false,
        },
    }
}

/// What `serde_json::from_str::<serde_json::Value>` reads from `json`, or
/// `None` when it refuses the text.
pub uninterp spec fn json_parsed(json: Seq<char>) -> Option<JsonView>;

#[verifier::external_type_specification]
#[verifier::external_body]
pub struct ExSerdeJsonValue(serde_json::Value);

/// A `serde_json::Value` as a `JsonValue`, variant for variant (numbers by
/// their `Display` text, object fields in the map's order).
#[verifier::external_body]
fn json_value_from(v: serde_json::Value) -> JsonValue {
    match v {
        serde_json::Value::Null => JsonValue::Null,
        serde_json::Value::Bool(b) => JsonValue::Bool(b),
        serde_json::Value::Number(n) => JsonValue::Number(n.to_string()),
        serde_json::Value::String(t) => JsonValue::Text(t),
        serde_json::Value::Array(a) => JsonValue::Array(a.into_iter().map(json_value_from).collect()),
        serde_json::Value::Object(m) => {
            let mut fields = Vec::new();
            for (k, x) in m {
                fields.push((k, json_value_from(x)));
            }
            JsonValue::Object(fields)
        },
    }
}

/// Parses `json` with `serde_json::from_str` into a `serde_json::Value` and
/// hands it out as a `JsonValue`; `None` when serde_json refuses the text.
#[verifier::external_body]
pub(crate) fn parse_json(json: &str) -> (r: Option<JsonValue>)
    ensures
        r is Some == json_parsed(json@) is Some,
        r matches Some(v) ==> json_matches(v, json_parsed(json@).unwrap()),
{
    match serde_json::from_str::<serde_json::Value>(json) {
        Ok(v) => Some(json_value_from(v)),
        Err(_) => None,
    }
}

/// The value of field `key` of an object's fields (the last field with that
/// key; serde_json keeps each key once).
pub open spec fn object_get(fields: Seq<(Seq<char>, JsonView)>, key: Seq<char>) -> Option<JsonView>
    decreases fields.len(),
{
    if fields.len() == 0 {
        None
    } else if fields.last().0 == key {
        Some(fields.last().1)
    } else {
        object_get(fields.drop_last(), key)
    }
}

/// The string field `key` of an entry, when the entry is an object and that
/// field is a string (`Value::get` then `as_str`).
pub open spec fn string_field(e: JsonView, key: Seq<char>) -> Option<Seq<char>> {
    match e {
        JsonView::Object(fields) => match object_get(fields, key) {
            Some(JsonView::Text(t)) => Some(t),
            _ => None,
        },
        _ => None,
    }
}

/// The entries of a file list: `None` unless the value is an object whose
/// `files` field is an array; else each entry's string `name` and `path`.
pub open spec fn file_entries_of(v: JsonView) -> Option<Seq<(Option<Seq<char>>, Option<Seq<char>>)>> {
    match v {
        JsonView::Object(fields) => match object_get(fields, "files"@) {
            Some(JsonView::Array(items)) => Some(
                items.map_values(|e: JsonView| (string_field(e, "name"@), string_field(e, "path"@))),
            ),
            _ => None,
        },
        _ => None,
    }
}

/// What a file-list JSON holds: `None` when it does not parse; `Some(None)`
/// when it is not an object with a `files` array; else, per entry of that
/// array, its string `name` and string `path`, if any.
pub open spec fn json_file_entries(json: Seq<char>) -> Option<Option<Seq<(Option<Seq<char>>, Option<Seq<char>>)>>> {
    match json_parsed(json) {
        None => None,
        Some(v) => Some(file_entries_of(v)),
    }
}

pub open spec fn opt_view(o: Option<String>) -> Option<Seq<char>> {
    match o {
        Some(s) => Some(s@),
        None => None,
    }
}

pub open spec fn entries_view(v: Seq<(Option<String>, Option<String>)>) -> Seq<(Option<Seq<char>>, Option<Seq<char>>)> {
    v.map_values(|e: (Option<String>, Option<String>)| (opt_view(e.0), opt_view(e.1)))
}

/// The place of the last field named `key`, if any.
fn find_field(fields: &Vec<(String, JsonValue)>, key: &str) -> (r: Option<usize>)
    ensures
        match r {
            Some(k) => k < fields@.len() && fields@[k as int].0@ == key@ && forall|q: int|
                k < q < fields@.len() ==> fields@[q].0@ != key@,
            None => forall|q: int| 0 <= q < fields@.len() ==> fields@[q].0@ != key@,
        },
{
    let mut i = fields.len();
    while i > 0
        invariant
            i <= fields@.len(),
            forall|q: int| i <= q < fields@.len() ==> fields@[q].0@ != key@,
        decreases i,
    {
        i -= 1;
        if str_eq(fields[i].0.as_str(), key) {
            return Some(i);
        }
    }
    None
}

proof fn lemma_object_get(fields: Seq<(String, JsonValue)>, ws: Seq<(Seq<char>, JsonView)>, key: Seq<char>, r: Option<int>)
    requires
        fields.len() == ws.len(),
        forall|i: int| 0 <= i < ws.len() ==> (#[trigger] fields[i]).0@ == ws[i].0,
        match r {
            Some(k) => 0 <= k < fields.len() && fields[k].0@ == key && forall|q: int| k < q < fields.len() ==> fields[q].0@ != key,
            None => forall|q: int| 0 <= q < fields.len() ==> fields[q].0@ != key,
        },
    ensures
        object_get(ws, key) == match r {
            Some(k) => Some(ws[k].1),
            None => None::<JsonView>,
        },
    decreases ws.len(),
{
    if ws.len() > 0 {
        let n = ws.len() - 1;
        assert(fields[n].0@ == ws[n].0);
        if r == Some(n) {
        } else {
            let f2 = fields.drop_last();
            let w2 = ws.drop_last();
            assert forall|i: int| 0 <= i < w2.len() implies (#[trigger] f2[i]).0@ == w2[i].0 by {
                assert(f2[i] == fields[i]);
            }
            lemma_object_get(f2, w2, key, r);
        }
    }
}

/// The string field `key` of an entry; see `string_field`.
fn entry_string(e: &JsonValue, key: &str, Ghost(w): Ghost<JsonView>) -> (r: Option<String>)
    requires
        json_matches(*e, w),
    ensures
        opt_view(r) == string_field(w, key@),
{
    match e {
        JsonValue::Object(fields) => {
            let ghost ws = match w {
                JsonView::Object(ws) => ws,
                _ => Seq::empty(),
            };
            let k = find_field(fields, key);
            proof {
                lemma_object_get(fields@, ws, key@, match k {
                    Some(k) => Some(k as int),
                    None => None,
                });
            }
            match k {
                Some(k) => match &fields[k].1 {
                    JsonValue::Text(t) => {
                        proof {
                            assert(json_matches(fields@[k as int].1, ws[k as int].1));
                        }
                        Some(t.clone())
                    },
                    _ => {
                        proof {
                            assert(json_matches(fields@[k as int].1, ws[k as int].1));
                        }
                        None
                    },
                },
                None => None,
            }
        },
        _ => None,
    }
}

/// Reads a file-list JSON: parsed by serde_json, then each entry's string
/// `name` and `path` of its `files` array; see `json_file_entries`.
pub(crate) fn read_json_file_entries(json: &str) -> (r: Option<Option<Vec<(Option<String>, Option<String>)>>>)
    ensures
        r is Some == json_file_entries(json@) is Some,
        r matches Some(o) ==> (o is Some == json_file_entries(json@).unwrap() is Some),
        r matches Some(Some(v)) ==> entries_view(v@) == json_file_entries(json@).unwrap().unwrap(),
{
    let value = match parse_json(json) {
        Some(v) => v,
        None => return None,
    };
    let ghost w = json_parsed(json@).unwrap();
    let fields = match &value {
        JsonValue::Object(fields) => fields,
        _ => return Some(None),
    };
    let ghost ws = match w {
        JsonView::Object(ws) => ws,
        _ => Seq::empty(),
    };
    let k = match find_field(fields, "files") {
        Some(k) => k,
        None => {
            proof {
                lemma_object_get(fields@, ws, "files"@, None);
            }
            return Some(None);
        },
    };
    proof {
        lemma_object_get(fields@, ws, "files"@, Some(k as int));
        assert(json_matches(fields@[k as int].1, ws[k as int].1));
    }
    let items = match &fields[k].1 {
        JsonValue::Array(items) => items,
        _ => return Some(None),
    };
    let ghost wi = match ws[k as int].1 {
        JsonView::Array(wi) => wi,
        _ => Seq::empty(),
    };
    let mut out: Vec<(Option<String>, Option<String>)> = Vec::new();
    let mut i: usize = 0;
    while i < items.len()
        invariant
            i <= items@.len(),
            items@.len() == wi.len(),
            forall|q: int| 0 <= q < wi.len() ==> json_matches(#[trigger] items@[q], wi[q]),
            entries_view(out@) == wi.take(i as int).map_values(
                |e: JsonView| (string_field(e, "name"@), string_field(e, "path"@)),
            ),
        decreases items@.len() - i,
    {
        proof {
            reveal_strlit("name");
            reveal_strlit("path");
        }
        let name = entry_string(&items[i], "name", Ghost(wi[i as int]));
        let path = entry_string(&items[i], "path", Ghost(wi[i as int]));
        let ghost before = out@;
        out.push((name, path));
        proof {
            assert(entries_view(out@) =~= entries_view(before).push((opt_view(name), opt_view(path))));
            assert(wi.take(i + 1).map_values(|e: JsonView| (string_field(e, "name"@), string_field(e, "path"@))) =~= wi.take(
                i as int,
            ).map_values(|e: JsonView| (string_field(e, "name"@), string_field(e, "path"@))).push(
                (string_field(wi[i as int], "name"@), string_field(wi[i as int], "path"@)),
            ));
        }
        i += 1;
    }
    proof {
        assert(wi.take(wi.len() as int) =~= wi);
    }
    Some(Some(out))
}

/// The present names (`which == 0`) or paths (`which == 1`), in order.
pub open spec fn present(e: Seq<(Option<Seq<char>>, Option<Seq<char>>)>, which: int) -> Seq<Seq<char>>
    decreases e.len(),
{
    if e.len() == 0 {
        Seq::empty()
    } else {
        let rest = present(e.drop_last(), which);
        let x = if which == 0 { e.last().0 } else { e.last().1 };
        match x {
            Some(n) => rest.push(n),
            None => rest,
        }
    }
}

pub open spec fn strings_view(v: Seq<String>) -> Seq<Seq<char>> {
    v.map_values(|s: String| s@)
}

/// The present names (`which == 0`) or paths (`which == 1`) of the entries.
pub fn present_fields(entries: &Vec<(Option<String>, Option<String>)>, which: u8) -> (r: Vec<String>)
    requires
        which <= 1,
    ensures
        strings_view(r@) == present(entries_view(entries@), which as int),
{
    let ghost ev = entries_view(entries@);
    let mut out: Vec<String> = Vec::new();
    let mut i: usize = 0;
    while i < entries.len()
        invariant
            0 <= i <= entries@.len(),
            which <= 1,
            ev == entries_view(entries@),
            strings_view(out@) == present(ev.take(i as int), which as int),
        decreases entries@.len() - i,
    {
        proof {
            assert(ev.take(i + 1).drop_last() =~= ev.take(i as int));
        }
        let field = if which == 0 { &entries[i].0 } else { &entries[i].1 };
        match field {
            Some(n) => {
                let ghost before = out@;
                out.push(n.clone());
                proof {
                    assert(strings_view(out@) =~= strings_view(before).push(n@));
                }
            },
            None => {},
        }
        i += 1;
    }
    assert(ev.take(entries@.len() as int) =~= ev);
    out
}

} // verus!
