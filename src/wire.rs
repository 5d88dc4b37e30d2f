//! The wire form: a JSON document tree, and how values are written in it.
use vstd::prelude::*;

use crate::bigint::{decimal_value, is_decimal, lemma_int_decimal, BigInt};
use serde_json::Value as JsonValue;

use crate::value::{same_text, ItfMap, ItfSet, Record, Tuple, Unserializable, Value};

verus! {

/// A parsed JSON document.
#[derive(Debug, PartialEq, Eq)]
pub enum Json {
    Null,
    Bool(bool),
    /// An integer in the signed 64-bit range, or `None` for any other number.
    Number(Option<i64>),
    String(String),
    Array(Vec<Json>),
    /// Members, in the order that the parser gives them.
    Object(Vec<(String, Json)>),
}

#[verifier::external_type_specification]
#[verifier::external_body]
pub struct ExJsonValue(JsonValue);

/// What the JSON parser makes of a text, `None` when the text is no JSON.
pub uninterp spec fn parsed_json(text: Seq<char>) -> Option<Json>;

/// Moves a tree of the JSON parser into a `Json` tree, one node for one node.
#[verifier::external_body]
fn json_tree(v: JsonValue) -> Json {
    match v {
        JsonValue::Null => Json::Null,
        JsonValue::Bool(b) => Json::Bool(b),
        JsonValue::Number(n) => Json::Number(n.as_i64()),
        JsonValue::String(s) => Json::String(s),
        JsonValue::Array(a) => Json::Array(a.into_iter().map(json_tree).collect()),
        JsonValue::Object(o) => Json::Object(
            o.into_iter().map(|(k, x)| (k, json_tree(x))).collect(),
        ),
    }
}

/// Relies on serde_json::from_str: the JSON document that a text holds, or the
/// parser's message when it holds none.
#[verifier::external_body]
pub(crate) fn parse_json(text: &str) -> (r: Result<Json, String>)
    ensures
        r matches Ok(j) ==> parsed_json(text@) == Some(j),
        r is Err ==> parsed_json(text@) is None,
{
    match serde_json::from_str::<JsonValue>(text) {
        Ok(v) => Ok(json_tree(v)),
        Err(e) => Err(e.to_string()),
    }
}

pub open spec fn marker_bigint() -> Seq<char> {
    seq!['#', 'b', 'i', 'g', 'i', 'n', 't']
}

pub open spec fn marker_tup() -> Seq<char> {
    seq!['#', 't', 'u', 'p']
}

pub open spec fn marker_set() -> Seq<char> {
    seq!['#', 's', 'e', 't']
}

pub open spec fn marker_map() -> Seq<char> {
    seq!['#', 'm', 'a', 'p']
}

pub open spec fn marker_unserializable() -> Seq<char> {
    seq!['#', 'u', 'n', 's', 'e', 'r', 'i', 'a', 'l', 'i', 'z', 'a', 'b', 'l', 'e']
}

/// A member name that only markers may carry.
pub open spec fn is_marked(name: Seq<char>) -> bool {
    name.len() > 0 && name[0] == '#'
}

/// The object's only member, when it has exactly one named `marker`.
pub open spec fn single_member(f: Seq<(String, Json)>, marker: Seq<char>) -> bool {
    f.len() == 1 && f[0].0@ == marker
}

/// Holds when the document is the wire form of some value: no `null`, integers
/// in the signed 64-bit range, well-formed markers, and plain member names that
/// do not begin with `#`.
pub open spec fn valid_wire(j: Json) -> bool
    decreases j,
{
    match j {
        Json::Null => false,
        Json::Bool(_) => true,
        Json::Number(n) => n is Some,
        Json::String(_) => true,
        Json::Array(a) => forall|i: int| 0 <= i < a@.len() ==> valid_wire(#[trigger] a@[i]),
        Json::Object(f) => {
            if single_member(f@, marker_bigint()) {
                f@[0].1 matches Json::String(t) && is_decimal(t@)
            } else if single_member(f@, marker_tup()) || single_member(f@, marker_set()) {
                f@[0].1 matches Json::Array(a) && forall|i: int|
                    0 <= i < a@.len() ==> valid_wire(#[trigger] a@[i])
            } else if single_member(f@, marker_map()) {
                f@[0].1 matches Json::Array(a) && forall|i: int|
                    0 <= i < a@.len() ==> (#[trigger] a@[i] matches Json::Array(p) && p@.len()
                        == 2 && valid_wire(p@[0]) && valid_wire(p@[1]))
            } else if single_member(f@, marker_unserializable()) {
                f@[0].1 is String
            } else {
                forall|i: int|
                    0 <= i < f@.len() ==> !is_marked(#[trigger] f@[i].0@) && valid_wire(
                        f@[i].1,
                    )
            }
        },
    }
}

/// Holds when `j` is the wire form of `v`.
pub open spec fn encodes(v: Value, j: Json) -> bool
    decreases j,
{
    match j {
        Json::Null => false,
        Json::Bool(b) => v == Value::Bool(b),
        Json::Number(n) => n is Some && v == Value::Number(n->0),
        Json::String(s) => v matches Value::String(t) && t@ == s@,
        Json::Array(a) => v matches Value::List(l) && l@.len() == a@.len() && forall|i: int|
            0 <= i < a@.len() ==> encodes(l@[i], #[trigger] a@[i]),
        Json::Object(f) => {
            if single_member(f@, marker_bigint()) {
                f@[0].1 matches Json::String(t) && is_decimal(t@) && (v matches Value::BigInt(b)
                    && b@ == decimal_value(t@))
            } else if single_member(f@, marker_tup()) {
                f@[0].1 matches Json::Array(a) && (v matches Value::Tuple(t)
                    && t.elements@.len() == a@.len() && forall|i: int|
                    0 <= i < a@.len() ==> encodes(t.elements@[i], #[trigger] a@[i]))
            } else if single_member(f@, marker_set()) {
                f@[0].1 matches Json::Array(a) && (v matches Value::ItfSet(s)
                    && s.elements@.len() == a@.len() && forall|i: int|
                    0 <= i < a@.len() ==> encodes(s.elements@[i], #[trigger] a@[i]))
            } else if single_member(f@, marker_map()) {
                f@[0].1 matches Json::Array(a) && (v matches Value::ItfMap(m)
                    && m.entries@.len() == a@.len() && forall|i: int|
                    0 <= i < a@.len() ==> (#[trigger] a@[i] matches Json::Array(p) && p@.len()
                        == 2 && encodes(m.entries@[i].0, p@[0]) && encodes(
                        m.entries@[i].1,
                        p@[1],
                    )))
            } else if single_member(f@, marker_unserializable()) {
                f@[0].1 matches Json::String(t) && (v matches Value::Unserializable(u)
                    && u.repr@ == t@)
            } else {
                v matches Value::Record(r) && record_encodes(r, f@)
            }
        },
    }
}

/// Errors in a document that is no wire form of a value.
#[derive(Debug, PartialEq, Eq)]
pub enum WireError {
    /// `null` has no value.
    Null,
    /// A number that is no integer in the signed 64-bit range.
    Number,
    /// `#bigint` without decimal text.
    BigInt,
    /// A member name beginning with `#` that is no well-formed marker.
    Marker(String),
}

fn is_marked_name(name: &str) -> (r: bool)
    ensures
        r == is_marked(name@),
{
    name.unicode_len() > 0 && name.get_char(0) == '#'
}

fn has_single_member(f: &Vec<(String, Json)>, marker: &str) -> (r: bool)
    ensures
        r == single_member(f@, marker@),
{
    f.len() == 1 && same_text(f[0].0.as_str(), marker)
}

/// The values that the documents `a` write, in order.
fn values_from_array(a: &Vec<Json>) -> (r: Result<Vec<Value>, WireError>)
    ensures
        r is Ok <==> forall|i: int| 0 <= i < a@.len() ==> valid_wire(#[trigger] a@[i]),
        r matches Ok(l) ==> l@.len() == a@.len() && forall|i: int|
            0 <= i < a@.len() ==> encodes(l@[i], #[trigger] a@[i]),
    decreases a@, 0nat,
{
    let mut out: Vec<Value> = Vec::new();
    let mut i: usize = 0;
    while i < a.len()
        invariant
            i <= a@.len(),
            out@.len() == i,
            forall|k: int| 0 <= k < i ==> valid_wire(#[trigger] a@[k]),
            forall|k: int| 0 <= k < i ==> encodes(out@[k], #[trigger] a@[k]),
        decreases a@.len() - i,
    {
        let v = value_from_json(&a[i]);
        match v {
            Ok(v) => {
                out.push(v);
            },
            Err(e) => {
                return Err(e);
            },
        }
        i = i + 1;
    }
    Ok(out)
}

/// The value that a document writes, by the wire rules: `true`/`false`, integer
/// literals, strings and arrays stand for themselves; an object with the single
/// member `#bigint`, `#tup`, `#set`, `#map` or `#unserializable` stands for that
/// kind; any other object is a record, and its member names may not begin with `#`.
pub fn value_from_json(j: &Json) -> (r: Result<Value, WireError>)
    ensures
        r is Ok <==> valid_wire(*j),
        r matches Ok(v) ==> encodes(v, *j),
    decreases *j, 1nat,
{
    match j {
        Json::Null => Err(WireError::Null),
        Json::Bool(b) => Ok(Value::Bool(*b)),
        Json::Number(n) => match n {
            Some(n) => Ok(Value::Number(*n)),
            None => Err(WireError::Number),
        },
        Json::String(s) => Ok(Value::String(s.clone())),
        Json::Array(a) => {
            let l = values_from_array(a)?;
            Ok(Value::List(l))
        },
        Json::Object(f) => value_from_object(f),
    }
}

fn value_from_object(f: &Vec<(String, Json)>) -> (r: Result<Value, WireError>)
    ensures
        r is Ok <==> valid_wire(Json::Object(*f)),
        r matches Ok(v) ==> encodes(v, Json::Object(*f)),
    decreases f@, 1nat,
{
    proof {
        lemma_marker_literals();
    }
    if has_single_member(f, "#bigint") {
        match &f[0].1 {
            Json::String(t) => match BigInt::parse(t.as_str()) {
                Some(b) => Ok(Value::BigInt(b)),
                None => Err(WireError::BigInt),
            },
            _ => Err(WireError::BigInt),
        }
    } else if has_single_member(f, "#tup") {
        match &f[0].1 {
            Json::Array(a) => {
                let l = values_from_array(a)?;
                Ok(Value::Tuple(Tuple { elements: l }))
            },
            _ => Err(WireError::Marker(f[0].0.clone())),
        }
    } else if has_single_member(f, "#set") {
        match &f[0].1 {
            Json::Array(a) => {
                let l = values_from_array(a)?;
                Ok(Value::ItfSet(ItfSet { elements: l }))
            },
            _ => Err(WireError::Marker(f[0].0.clone())),
        }
    } else if has_single_member(f, "#map") {
        match &f[0].1 {
            Json::Array(a) => {
                let entries = entries_from_array(a)?;
                Ok(Value::ItfMap(ItfMap { entries }))
            },
            _ => Err(WireError::Marker(f[0].0.clone())),
        }
    } else if has_single_member(f, "#unserializable") {
        match &f[0].1 {
            Json::String(t) => Ok(Value::Unserializable(Unserializable { repr: t.clone() })),
            _ => Err(WireError::Marker(f[0].0.clone())),
        }
    } else {
        let rec = record_from_members(f)?;
        proof {
            lemma_record_encodes(rec, *f);
        }
        Ok(Value::Record(rec))
    }
}

/// Holds when the members `f` are plain fields (no name begins with `#`) whose
/// values are wire forms.
pub open spec fn record_valid(f: Seq<(String, Json)>) -> bool {
    forall|i: int| 0 <= i < f.len() ==> !is_marked(#[trigger] f[i].0@) && valid_wire(f[i].1)
}

/// Holds when the members `f` are the wire form of the fields of `rec`.
pub open spec fn record_encodes(rec: Record, f: Seq<(String, Json)>) -> bool
    decreases f,
{
    &&& rec.fields@.len() == f.len()
    &&& forall|i: int| 0 <= i < f.len() ==> !is_marked(#[trigger] f[i].0@)
    &&& forall|i: int| 0 <= i < f.len() ==> #[trigger] rec.fields@[i].0@ == f[i].0@
    &&& forall|i: int| 0 <= i < f.len() ==> encodes(rec.fields@[i].1, #[trigger] f[i].1)
}

/// The record that plain members write.
pub fn record_from_members(f: &Vec<(String, Json)>) -> (r: Result<Record, WireError>)
    ensures
        r is Ok <==> record_valid(f@),
        r matches Ok(rec) ==> record_encodes(rec, f@),
    decreases f@, 0nat,
{
    let mut fields: Vec<(String, Value)> = Vec::new();
    let mut i: usize = 0;
    while i < f.len()
        invariant
            i <= f@.len(),
            fields@.len() == i,
            forall|k: int| 0 <= k < i ==> !is_marked(#[trigger] f@[k].0@),
            forall|k: int| 0 <= k < i ==> valid_wire(#[trigger] f@[k].1),
            forall|k: int|
                0 <= k < i ==> #[trigger] fields@[k].0@ == f@[k].0@ && encodes(
                    fields@[k].1,
                    f@[k].1,
                ),
        decreases f@.len() - i,
    {
        let name = &f[i].0;
        if is_marked_name(name.as_str()) {
            return Err(WireError::Marker(name.clone()));
        }
        let v = value_from_json(&f[i].1)?;
        fields.push((name.clone(), v));
        i = i + 1;
    }
    let rec = Record { fields };
    assert forall|k: int| 0 <= k < f@.len() implies #[trigger] rec.fields@[k].0@ == f@[k].0@ by {
        assert(rec.fields@[k].0@ == f@[k].0@);
    }
    assert forall|k: int| 0 <= k < f@.len() implies encodes(rec.fields@[k].1, #[trigger] f@[k].1) by {
        assert(rec.fields@[k].0@ == f@[k].0@);
    }
    assert(record_encodes(rec, f@));
    Ok(rec)
}

proof fn lemma_record_encodes(rec: Record, f: Vec<(String, Json)>)
    requires
        !single_member(f@, marker_bigint()),
        !single_member(f@, marker_tup()),
        !single_member(f@, marker_set()),
        !single_member(f@, marker_map()),
        !single_member(f@, marker_unserializable()),
        record_encodes(rec, f@),
    ensures
        encodes(Value::Record(rec), Json::Object(f)),
{
}

/// The pairs that the documents `a` write, each an array of two.
fn entries_from_array(a: &Vec<Json>) -> (r: Result<Vec<(Value, Value)>, WireError>)
    ensures
        r is Ok <==> forall|i: int|
            0 <= i < a@.len() ==> (#[trigger] a@[i] matches Json::Array(p) && p@.len() == 2
                && valid_wire(p@[0]) && valid_wire(p@[1])),
        r matches Ok(m) ==> m@.len() == a@.len() && forall|i: int|
            0 <= i < a@.len() ==> (#[trigger] a@[i] matches Json::Array(p) && p@.len() == 2
                && encodes(m@[i].0, p@[0]) && encodes(m@[i].1, p@[1])),
    decreases a@, 0nat,
{
    let mut out: Vec<(Value, Value)> = Vec::new();
    let mut i: usize = 0;
    while i < a.len()
        invariant
            i <= a@.len(),
            out@.len() == i,
            forall|k: int|
                0 <= k < i ==> (#[trigger] a@[k] matches Json::Array(p) && p@.len() == 2
                    && valid_wire(p@[0]) && valid_wire(p@[1])),
            forall|k: int|
                0 <= k < i ==> (#[trigger] a@[k] matches Json::Array(p) && p@.len() == 2
                    && encodes(out@[k].0, p@[0]) && encodes(out@[k].1, p@[1])),
        decreases a@.len() - i,
    {
        match &a[i] {
            Json::Array(p) => {
                if p.len() != 2 {
                    return Err(WireError::Marker(String::from_str("#map")));
                }
                let k = value_from_json(&p[0])?;
                let v = value_from_json(&p[1])?;
                out.push((k, v));
            },
            _ => {
                return Err(WireError::Marker(String::from_str("#map")));
            },
        }
        i = i + 1;
    }
    Ok(out)
}

/// Reveals what the marker literals hold.
proof fn lemma_marker_literals()
    ensures
        "#bigint"@ == marker_bigint(),
        "#tup"@ == marker_tup(),
        "#set"@ == marker_set(),
        "#map"@ == marker_map(),
        "#unserializable"@ == marker_unserializable(),
{
    reveal_strlit("#bigint");
    reveal_strlit("#tup");
    reveal_strlit("#set");
    reveal_strlit("#map");
    reveal_strlit("#unserializable");
    assert("#bigint"@ =~= marker_bigint());
    assert("#tup"@ =~= marker_tup());
    assert("#set"@ =~= marker_set());
    assert("#map"@ =~= marker_map());
    assert("#unserializable"@ =~= marker_unserializable());
}

/// Holds when a value can be written in wire form: no record field name, at
/// any depth, begins with `#`.
pub open spec fn wire_ready(v: Value) -> bool
    decreases v,
{
    match v {
        Value::List(l) => forall|i: int| 0 <= i < l@.len() ==> wire_ready(#[trigger] l@[i]),
        Value::Tuple(t) => forall|i: int|
            0 <= i < t.elements@.len() ==> wire_ready(#[trigger] t.elements@[i]),
        Value::ItfSet(s) => forall|i: int|
            0 <= i < s.elements@.len() ==> wire_ready(#[trigger] s.elements@[i]),
        Value::ItfMap(m) => forall|i: int|
            0 <= i < m.entries@.len() ==> wire_ready((#[trigger] m.entries@[i]).0) && wire_ready(
                m.entries@[i].1,
            ),
        Value::Record(r) => forall|i: int|
            0 <= i < r.fields@.len() ==> !is_marked((#[trigger] r.fields@[i]).0@) && wire_ready(
                r.fields@[i].1,
            ),
        _ => true,
    }
}

/// Whether every value of `items` can be written in wire form.
fn all_ready(items: &Vec<Value>) -> (r: bool)
    ensures
        r == forall|i: int| 0 <= i < items@.len() ==> wire_ready(#[trigger] items@[i]),
    decreases items@, 0nat,
{
    let mut i: usize = 0;
    while i < items.len()
        invariant
            i <= items@.len(),
            forall|k: int| 0 <= k < i ==> wire_ready(#[trigger] items@[k]),
        decreases items@.len() - i,
    {
        if !is_wire_ready(&items[i]) {
            return false;
        }
        i = i + 1;
    }
    true
}

/// Whether every pair of `entries` can be written in wire form.
fn pairs_ready(entries: &Vec<(Value, Value)>) -> (r: bool)
    ensures
        r == forall|i: int|
            0 <= i < entries@.len() ==> wire_ready((#[trigger] entries@[i]).0) && wire_ready(
                entries@[i].1,
            ),
    decreases entries@, 0nat,
{
    let mut i: usize = 0;
    while i < entries.len()
        invariant
            i <= entries@.len(),
            forall|k: int|
                0 <= k < i ==> wire_ready((#[trigger] entries@[k]).0) && wire_ready(
                    entries@[k].1,
                ),
        decreases entries@.len() - i,
    {
        if !is_wire_ready(&entries[i].0) || !is_wire_ready(&entries[i].1) {
            return false;
        }
        i = i + 1;
    }
    true
}

/// Whether every field of `fields` can be written in wire form.
fn fields_ready(fields: &Vec<(String, Value)>) -> (r: bool)
    ensures
        r == forall|i: int|
            0 <= i < fields@.len() ==> !is_marked((#[trigger] fields@[i]).0@) && wire_ready(
                fields@[i].1,
            ),
    decreases fields@, 0nat,
{
    let mut i: usize = 0;
    while i < fields.len()
        invariant
            i <= fields@.len(),
            forall|k: int|
                0 <= k < i ==> !is_marked((#[trigger] fields@[k]).0@) && wire_ready(
                    fields@[k].1,
                ),
        decreases fields@.len() - i,
    {
        if is_marked_name(fields[i].0.as_str()) || !is_wire_ready(&fields[i].1) {
            return false;
        }
        i = i + 1;
    }
    true
}

/// Whether a value can be written in wire form: no record field name, at any
/// depth, begins with `#`.
pub fn is_wire_ready(v: &Value) -> (r: bool)
    ensures
        r == wire_ready(*v),
    decreases *v, 1nat,
{
    match v {
        Value::List(l) => all_ready(l),
        Value::Tuple(t) => all_ready(&t.elements),
        Value::ItfSet(s) => all_ready(&s.elements),
        Value::ItfMap(m) => pairs_ready(&m.entries),
        Value::Record(r) => fields_ready(&r.fields),
        _ => true,
    }
}

/// An object with the single member `name`.
fn marker_object(name: &str, content: Json) -> (r: Json)
    ensures
        r matches Json::Object(f) && f@.len() == 1 && f@[0].0@ == name@ && f@[0].1 == content,
{
    let mut f: Vec<(String, Json)> = Vec::new();
    f.push((String::from_str(name), content));
    Json::Object(f)
}

/// The wire forms of the values `items`, in order.
fn json_array(items: &Vec<Value>) -> (r: Vec<Json>)
    requires
        forall|i: int| 0 <= i < items@.len() ==> wire_ready(#[trigger] items@[i]),
    ensures
        r@.len() == items@.len(),
        forall|i: int| 0 <= i < items@.len() ==> encodes(items@[i], #[trigger] r@[i]),
    decreases items@, 0nat,
{
    let mut out: Vec<Json> = Vec::new();
    let mut i: usize = 0;
    while i < items.len()
        invariant
            forall|k: int| 0 <= k < items@.len() ==> wire_ready(#[trigger] items@[k]),
            i <= items@.len(),
            out@.len() == i,
            forall|k: int| 0 <= k < i ==> encodes(items@[k], #[trigger] out@[k]),
        decreases items@.len() - i,
    {
        let j = value_to_json(&items[i]);
        out.push(j);
        i = i + 1;
    }
    out
}

/// The wire forms of the pairs `entries`, each an array of two.
fn json_pairs(entries: &Vec<(Value, Value)>) -> (r: Vec<Json>)
    requires
        forall|i: int|
            0 <= i < entries@.len() ==> wire_ready((#[trigger] entries@[i]).0) && wire_ready(
                entries@[i].1,
            ),
    ensures
        r@.len() == entries@.len(),
        forall|i: int|
            0 <= i < entries@.len() ==> (#[trigger] r@[i] matches Json::Array(p) && p@.len() == 2
                && encodes(entries@[i].0, p@[0]) && encodes(entries@[i].1, p@[1])),
    decreases entries@, 0nat,
{
    let mut out: Vec<Json> = Vec::new();
    let mut i: usize = 0;
    while i < entries.len()
        invariant
            forall|k: int|
                0 <= k < entries@.len() ==> wire_ready((#[trigger] entries@[k]).0) && wire_ready(
                    entries@[k].1,
                ),
            i <= entries@.len(),
            out@.len() == i,
            forall|k: int|
                0 <= k < i ==> (#[trigger] out@[k] matches Json::Array(p) && p@.len() == 2
                    && encodes(entries@[k].0, p@[0]) && encodes(entries@[k].1, p@[1])),
        decreases entries@.len() - i,
    {
        let mut pair: Vec<Json> = Vec::new();
        pair.push(value_to_json(&entries[i].0));
        pair.push(value_to_json(&entries[i].1));
        out.push(Json::Array(pair));
        i = i + 1;
    }
    out
}

/// The members that write the fields `fields`.
fn json_members(fields: &Vec<(String, Value)>) -> (r: Vec<(String, Json)>)
    requires
        forall|i: int|
            0 <= i < fields@.len() ==> !is_marked((#[trigger] fields@[i]).0@) && wire_ready(
                fields@[i].1,
            ),
    ensures
        r@.len() == fields@.len(),
        forall|i: int|
            0 <= i < fields@.len() ==> !is_marked((#[trigger] r@[i]).0@) && r@[i].0@
                == fields@[i].0@ && encodes(fields@[i].1, r@[i].1),
    decreases fields@, 0nat,
{
    let mut out: Vec<(String, Json)> = Vec::new();
    let mut i: usize = 0;
    while i < fields.len()
        invariant
            forall|k: int|
                0 <= k < fields@.len() ==> !is_marked((#[trigger] fields@[k]).0@) && wire_ready(
                    fields@[k].1,
                ),
            i <= fields@.len(),
            out@.len() == i,
            forall|k: int|
                0 <= k < i ==> !is_marked((#[trigger] out@[k]).0@) && out@[k].0@
                    == fields@[k].0@ && encodes(fields@[k].1, out@[k].1),
        decreases fields@.len() - i,
    {
        let j = value_to_json(&fields[i].1);
        out.push((fields[i].0.clone(), j));
        i = i + 1;
    }
    out
}

/// The wire form of a value: the inverse of `value_from_json`.
pub fn value_to_json(v: &Value) -> (r: Json)
    requires
        wire_ready(*v),
    ensures
        encodes(*v, r),
    decreases *v, 1nat,
{
    proof {
        lemma_marker_literals();
    }
    match v {
        Value::Bool(b) => Json::Bool(*b),
        Value::Number(n) => Json::Number(Some(*n)),
        Value::String(s) => Json::String(s.clone()),
        Value::BigInt(b) => {
            let t = b.to_string();
            proof {
                lemma_int_decimal(b@);
            }
            marker_object("#bigint", Json::String(t))
        },
        Value::List(l) => Json::Array(json_array(l)),
        Value::Tuple(t) => marker_object("#tup", Json::Array(json_array(&t.elements))),
        Value::ItfSet(s) => marker_object("#set", Json::Array(json_array(&s.elements))),
        Value::ItfMap(m) => marker_object("#map", Json::Array(json_pairs(&m.entries))),
        Value::Record(r) => {
            let f = json_members(&r.fields);
            proof {
                if f@.len() == 1 {
                    assert(!is_marked(f@[0].0@));
                }
                assert forall|i: int| 0 <= i < f@.len() implies !is_marked(#[trigger] f@[i].0@)
                    && r.fields@[i].0@ == f@[i].0@ && encodes(r.fields@[i].1, f@[i].1) by {
                    assert(!is_marked(f@[i].0@));
                }
                assert(record_encodes(*r, f@));
            }
            Json::Object(f)
        },
        Value::Unserializable(u) => marker_object("#unserializable", Json::String(u.repr.clone())),
    }
}

/// Holds when two values are the same value: equal kinds, equal scalars and
/// texts, equal integers, and the same elements, pairs or fields in order.
pub open spec fn value_same(a: Value, b: Value) -> bool
    decreases a,
{
    match a {
        Value::Bool(x) => b == Value::Bool(x),
        Value::Number(x) => b == Value::Number(x),
        Value::String(x) => b matches Value::String(y) && x@ == y@,
        Value::BigInt(x) => b matches Value::BigInt(y) && x@ == y@,
        Value::List(x) => b matches Value::List(y) && x@.len() == y@.len() && forall|i: int|
            0 <= i < x@.len() ==> value_same(#[trigger] x@[i], y@[i]),
        Value::Tuple(x) => b matches Value::Tuple(y) && x.elements@.len() == y.elements@.len()
            && forall|i: int|
            0 <= i < x.elements@.len() ==> value_same(#[trigger] x.elements@[i], y.elements@[i]),
        Value::ItfSet(x) => b matches Value::ItfSet(y) && x.elements@.len() == y.elements@.len()
            && forall|i: int|
            0 <= i < x.elements@.len() ==> value_same(#[trigger] x.elements@[i], y.elements@[i]),
        Value::ItfMap(x) => b matches Value::ItfMap(y) && x.entries@.len() == y.entries@.len()
            && forall|i: int|
            0 <= i < x.entries@.len() ==> value_same((#[trigger] x.entries@[i]).0, y.entries@[i].0)
                && value_same(x.entries@[i].1, y.entries@[i].1),
        Value::Record(x) => b matches Value::Record(y) && x.fields@.len() == y.fields@.len()
            && forall|i: int|
            0 <= i < x.fields@.len() ==> (#[trigger] x.fields@[i]).0@ == y.fields@[i].0@
                && value_same(x.fields@[i].1, y.fields@[i].1),
        Value::Unserializable(x) => b matches Value::Unserializable(y) && x.repr@ == y.repr@,
    }
}

/// What a record's wire form says of its field `i`.
proof fn lemma_record_member(v: Value, f: Vec<(String, Json)>, i: int)
    requires
        encodes(v, Json::Object(f)),
        !single_member(f@, marker_bigint()),
        !single_member(f@, marker_tup()),
        !single_member(f@, marker_set()),
        !single_member(f@, marker_map()),
        !single_member(f@, marker_unserializable()),
        0 <= i < f@.len(),
    ensures
        v is Record,
        v->Record_0.fields@.len() == f@.len(),
        !is_marked(f@[i].0@),
        encodes(v->Record_0.fields@[i].1, f@[i].1),
{
    assert(record_encodes(v->Record_0, f@));
}

/// Whether two sequences of values hold the same values, in order.
fn same_values(x: &Vec<Value>, y: &Vec<Value>) -> (r: bool)
    ensures
        r == (x@.len() == y@.len() && forall|i: int|
            0 <= i < x@.len() ==> value_same(#[trigger] x@[i], y@[i])),
    decreases x@, 0nat,
{
    if x.len() != y.len() {
        return false;
    }
    let mut i: usize = 0;
    while i < x.len()
        invariant
            x@.len() == y@.len(),
            i <= x@.len(),
            forall|k: int| 0 <= k < i ==> value_same(#[trigger] x@[k], y@[k]),
        decreases x@.len() - i,
    {
        if !same_value(&x[i], &y[i]) {
            return false;
        }
        i = i + 1;
    }
    true
}

/// Whether two sequences of pairs hold the same pairs, in order.
fn same_entries(x: &Vec<(Value, Value)>, y: &Vec<(Value, Value)>) -> (r: bool)
    ensures
        r == (x@.len() == y@.len() && forall|i: int|
            0 <= i < x@.len() ==> value_same((#[trigger] x@[i]).0, y@[i].0) && value_same(
                x@[i].1,
                y@[i].1,
            )),
    decreases x@, 0nat,
{
    if x.len() != y.len() {
        return false;
    }
    let mut i: usize = 0;
    while i < x.len()
        invariant
            x@.len() == y@.len(),
            i <= x@.len(),
            forall|k: int|
                0 <= k < i ==> value_same((#[trigger] x@[k]).0, y@[k].0) && value_same(
                    x@[k].1,
                    y@[k].1,
                ),
        decreases x@.len() - i,
    {
        if !same_value(&x[i].0, &y[i].0) || !same_value(&x[i].1, &y[i].1) {
            return false;
        }
        i = i + 1;
    }
    true
}

/// Whether two sequences of fields hold the same names and values, in order.
fn same_fields(x: &Vec<(String, Value)>, y: &Vec<(String, Value)>) -> (r: bool)
    ensures
        r == (x@.len() == y@.len() && forall|i: int|
            0 <= i < x@.len() ==> (#[trigger] x@[i]).0@ == y@[i].0@ && value_same(
                x@[i].1,
                y@[i].1,
            )),
    decreases x@, 0nat,
{
    if x.len() != y.len() {
        return false;
    }
    let mut i: usize = 0;
    while i < x.len()
        invariant
            x@.len() == y@.len(),
            i <= x@.len(),
            forall|k: int|
                0 <= k < i ==> (#[trigger] x@[k]).0@ == y@[k].0@ && value_same(x@[k].1, y@[k].1),
        decreases x@.len() - i,
    {
        if !(x[i].0 == y[i].0) || !same_value(&x[i].1, &y[i].1) {
            return false;
        }
        i = i + 1;
    }
    true
}

/// Whether two values are the same value (see `value_same`).
pub fn same_value(a: &Value, b: &Value) -> (r: bool)
    ensures
        r == value_same(*a, *b),
    decreases *a, 1nat,
{
    match (a, b) {
        (Value::Bool(x), Value::Bool(y)) => *x == *y,
        (Value::Number(x), Value::Number(y)) => *x == *y,
        (Value::String(x), Value::String(y)) => *x == *y,
        (Value::BigInt(x), Value::BigInt(y)) => x.same(y),
        (Value::List(x), Value::List(y)) => same_values(x, y),
        (Value::Tuple(x), Value::Tuple(y)) => same_values(&x.elements, &y.elements),
        (Value::ItfSet(x), Value::ItfSet(y)) => same_values(&x.elements, &y.elements),
        (Value::ItfMap(x), Value::ItfMap(y)) => same_entries(&x.entries, &y.entries),
        (Value::Record(x), Value::Record(y)) => same_fields(&x.fields, &y.fields),
        (Value::Unserializable(x), Value::Unserializable(y)) => x.repr == y.repr,
        _ => false,
    }
}

proof fn lemma_encodes_valid(v: Value, j: Json)
    requires
        encodes(v, j),
    ensures
        valid_wire(j),
    decreases j,
{
    match j {
        Json::Array(a) => {
            let l = v->List_0;
            assert forall|i: int| 0 <= i < a@.len() implies valid_wire(#[trigger] a@[i]) by {
                lemma_encodes_valid(l@[i], a@[i]);
            }
        },
        Json::Object(f) => {
            if single_member(f@, marker_bigint()) || single_member(f@, marker_unserializable()) {
            } else if single_member(f@, marker_tup()) || single_member(f@, marker_set()) {
                let a = f@[0].1->Array_0;
                let xs = if single_member(f@, marker_tup()) {
                    v->Tuple_0.elements@
                } else {
                    v->ItfSet_0.elements@
                };
                assert forall|i: int| 0 <= i < a@.len() implies valid_wire(#[trigger] a@[i]) by {
                    lemma_encodes_valid(xs[i], a@[i]);
                }
            } else if single_member(f@, marker_map()) {
                let a = f@[0].1->Array_0;
                let m = v->ItfMap_0;
                assert forall|i: int| 0 <= i < a@.len() implies (#[trigger] a@[i] matches Json::Array(
                    p,
                ) && p@.len() == 2 && valid_wire(p@[0]) && valid_wire(p@[1])) by {
                    let p = a@[i]->Array_0;
                    lemma_encodes_valid(m.entries@[i].0, p@[0]);
                    lemma_encodes_valid(m.entries@[i].1, p@[1]);
                }
            } else {
                let r = v->Record_0;
                assert forall|i: int| 0 <= i < f@.len() implies !is_marked(#[trigger] f@[i].0@)
                    && valid_wire(f@[i].1) by {
                    lemma_record_member(v, f, i);
                    lemma_encodes_valid(r.fields@[i].1, f@[i].1);
                }
            }
        },
        _ => {},
    }
}

proof fn lemma_encodes_unique(v: Value, w: Value, j: Json)
    requires
        encodes(v, j),
        encodes(w, j),
    ensures
        value_same(v, w),
    decreases j,
{
    match j {
        Json::Array(a) => {
            let l = v->List_0;
            let m = w->List_0;
            assert forall|i: int| 0 <= i < l@.len() implies value_same(#[trigger] l@[i], m@[i]) by {
                lemma_encodes_unique(l@[i], m@[i], a@[i]);
            }
        },
        Json::Object(f) => {
            if single_member(f@, marker_bigint()) || single_member(f@, marker_unserializable()) {
            } else if single_member(f@, marker_tup()) {
                let a = f@[0].1->Array_0;
                let x = v->Tuple_0;
                let y = w->Tuple_0;
                assert forall|i: int| 0 <= i < x.elements@.len() implies value_same(
                    #[trigger] x.elements@[i],
                    y.elements@[i],
                ) by {
                    lemma_encodes_unique(x.elements@[i], y.elements@[i], a@[i]);
                }
            } else if single_member(f@, marker_set()) {
                let a = f@[0].1->Array_0;
                let x = v->ItfSet_0;
                let y = w->ItfSet_0;
                assert forall|i: int| 0 <= i < x.elements@.len() implies value_same(
                    #[trigger] x.elements@[i],
                    y.elements@[i],
                ) by {
                    lemma_encodes_unique(x.elements@[i], y.elements@[i], a@[i]);
                }
            } else if single_member(f@, marker_map()) {
                let a = f@[0].1->Array_0;
                let x = v->ItfMap_0;
                let y = w->ItfMap_0;
                assert forall|i: int| 0 <= i < x.entries@.len() implies value_same(
                    (#[trigger] x.entries@[i]).0,
                    y.entries@[i].0,
                ) && value_same(x.entries@[i].1, y.entries@[i].1) by {
                    let p = a@[i]->Array_0;
                    lemma_encodes_unique(x.entries@[i].0, y.entries@[i].0, p@[0]);
                    lemma_encodes_unique(x.entries@[i].1, y.entries@[i].1, p@[1]);
                }
            } else {
                let x = v->Record_0;
                let y = w->Record_0;
                assert(record_encodes(x, f@) && record_encodes(y, f@));
                assert forall|i: int| 0 <= i < x.fields@.len() implies (#[trigger] x.fields@[i]).0@
                    == y.fields@[i].0@ && value_same(x.fields@[i].1, y.fields@[i].1) by {
                    lemma_record_member(v, f, i);
                    lemma_record_member(w, f, i);
                    lemma_encodes_unique(x.fields@[i].1, y.fields@[i].1, f@[i].1);
                }
            }
        },
        _ => {},
    }
}

/// Round trip: the wire form of a value is a well-formed document, so reading
/// it back succeeds, and every value that the document writes is the same
/// value as the one written.
pub proof fn lemma_wire_round_trip(v: Value, j: Json)
    requires
        encodes(v, j),
    ensures
        valid_wire(j),
        forall|w: Value| encodes(w, j) ==> value_same(v, w),
{
    lemma_encodes_valid(v, j);
    assert forall|w: Value| encodes(w, j) implies value_same(v, w) by {
        lemma_encodes_unique(v, w, j);
    }
}

} // verus!
