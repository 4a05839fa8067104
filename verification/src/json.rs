//! JSON documents as plain values.
use vstd::prelude::*;
use crate::text::same;

verus! {

/// A JSON value. The members of an object keep the order of the document.
pub enum Json {
    Null,
    Bool(bool),
    /// A number, with its value where it is an integer from 0 to `u64::MAX`.
    Number(Option<u64>),
    Text(String),
    List(Vec<Json>),
    Object(Vec<(String, Json)>),
}

/// What a JSON value holds, free of how it is stored.
pub enum JsonView {
    Null,
    Bool(bool),
    Number(Option<u64>),
    Text(Seq<char>),
    List(Seq<JsonView>),
    Object(Seq<(Seq<char>, JsonView)>),
}

impl View for Json {
    type V = JsonView;

    open spec fn view(&self) -> JsonView {
        json_view(*self)
    }
}

pub open spec fn json_view(j: Json) -> JsonView
    decreases j,
{
    match j {
        Json::Null => JsonView::Null,
        Json::Bool(b) => JsonView::Bool(b),
        Json::Number(n) => JsonView::Number(n),
        Json::Text(s) => JsonView::Text(s@),
        Json::List(v) => JsonView::List(
            Seq::new(
                v@.len(),
                |i: int|
                    if 0 <= i < v@.len() {
                        json_view(v@[i])
                    } else {
                        JsonView::Null
                    },
            ),
        ),
        Json::Object(v) => JsonView::Object(
            Seq::new(
                v@.len(),
                |i: int|
                    if 0 <= i < v@.len() {
                        (v@[i].0@, json_view(v@[i].1))
                    } else {
                        (Seq::empty(), JsonView::Null)
                    },
            ),
        ),
    }
}

/// The member of that name among `v[i..]`.
pub open spec fn member_from(v: Seq<(String, Json)>, key: Seq<char>, i: int) -> Option<Json>
    decreases v.len() - i,
{
    if i < 0 || i >= v.len() {
        None
    } else if v[i].0@ == key {
        Some(v[i].1)
    } else {
        member_from(v, key, i + 1)
    }
}

/// The member of that name, where `j` is an object that has one.
pub open spec fn member(j: Json, key: Seq<char>) -> Option<Json> {
    match j {
        Json::Object(v) => member_from(v@, key, 0),
        _ => None,
    }
}

impl Json {
    /// The member of that name, where this is an object that has one.
    pub fn get(&self, key: &str) -> (r: Option<&Json>)
        ensures
            match r {
                Some(j) => member(*self, key@) == Some(*j),
                None => member(*self, key@) is None,
            },
    {
        match self {
            Json::Object(v) => {
                let mut i: usize = 0;
                while i < v.len()
                    invariant
                        *self == Json::Object(*v),
                        i <= v.len(),
                        member_from(v@, key@, 0) == member_from(v@, key@, i as int),
                    decreases v.len() - i,
                {
                    if same(v[i].0.as_str(), key) {
                        return Some(&v[i].1);
                    }
                    i += 1;
                }
                None
            },
            _ => None,
        }
    }
}

/// `serde_json::Value`, a parsed document of the `serde_json` crate.
#[verifier::external_type_specification]
#[verifier::external_body]
pub struct ExValue(serde_json::Value);

/// `serde_json::Error`, why a document did not parse.
#[verifier::external_type_specification]
#[verifier::external_body]
pub struct ExError(serde_json::Error);

/// What a `serde_json::Value` holds.
pub uninterp spec fn value_view(v: serde_json::Value) -> JsonView;

/// What `serde_json::from_slice` reads from bytes, where they are a document.
pub uninterp spec fn document_view(bytes: Seq<u8>) -> Option<JsonView>;

/// One level of a `serde_json::Value`.
pub enum Layer {
    Null,
    Bool(bool),
    Number(Option<u64>),
    Text(String),
    List(Vec<serde_json::Value>),
    Object(Vec<(String, serde_json::Value)>),
}

pub open spec fn layer_view(l: Layer) -> JsonView {
    match l {
        Layer::Null => JsonView::Null,
        Layer::Bool(b) => JsonView::Bool(b),
        Layer::Number(n) => JsonView::Number(n),
        Layer::Text(s) => JsonView::Text(s@),
        Layer::List(v) => JsonView::List(v@.map_values(|x: serde_json::Value| value_view(x))),
        Layer::Object(v) => JsonView::Object(
            v@.map_values(|x: (String, serde_json::Value)| (x.0@, value_view(x.1))),
        ),
    }
}

/// `serde_json::from_slice` into a `serde_json::Value`: whether the bytes are a
/// document, and what it holds, depends on the bytes alone.
#[verifier::external_body]
fn parse_value(bytes: &[u8]) -> (r: Result<serde_json::Value, serde_json::Error>)
    ensures
        r is Ok <==> document_view(bytes@) is Some,
        r is Ok ==> value_view(r->Ok_0) == document_view(bytes@)->0,
{
    serde_json::from_slice(bytes)
}

/// The variants of `serde_json::Value`, with `Number::as_u64` for a number and
/// the members of a `Map` in its own order: a value holds what its parts hold.
#[verifier::external_body]
fn open_value(v: serde_json::Value) -> (l: Layer)
    ensures
        layer_view(l) == value_view(v),
{
    match v {
        serde_json::Value::Null => Layer::Null,
        serde_json::Value::Bool(b) => Layer::Bool(b),
        serde_json::Value::Number(n) => Layer::Number(n.as_u64()),
        serde_json::Value::String(s) => Layer::Text(s),
        serde_json::Value::Array(a) => Layer::List(a),
        serde_json::Value::Object(m) => Layer::Object(m.into_iter().collect()),
    }
}

/// A `serde_json::Value` as a plain value.
fn to_json(v: serde_json::Value) -> (j: Json)
    ensures
        j@ == value_view(v),
    decreases value_view(v),
{
    match open_value(v) {
        Layer::Null => Json::Null,
        Layer::Bool(b) => Json::Bool(b),
        Layer::Number(n) => Json::Number(n),
        Layer::Text(s) => Json::Text(s),
        Layer::List(items) => {
            let ghost all = items@;
            let mut out: Vec<Json> = Vec::new();
            for x in it: items
                invariant
                    it.seq() == all,
                    value_view(v) == JsonView::List(all.map_values(|x: serde_json::Value| value_view(x))),
                    out.len() == it.index(),
                    forall|k: int| 0 <= k < out.len() ==> (#[trigger] out@[k])@ == value_view(all[k]),
            {
                assert(value_view(v)->List_0[it.index()] == value_view(x));
                out.push(to_json(x));
            }
            let j = Json::List(out);
            assert(j@->List_0 =~= value_view(v)->List_0);
            j
        },
        Layer::Object(items) => {
            let ghost all = items@;
            let mut out: Vec<(String, Json)> = Vec::new();
            for x in it: items
                invariant
                    it.seq() == all,
                    value_view(v) == JsonView::Object(
                        all.map_values(|x: (String, serde_json::Value)| (x.0@, value_view(x.1))),
                    ),
                    out.len() == it.index(),
                    forall|k: int|
                        0 <= k < out.len() ==> (#[trigger] out@[k]).0@ == all[k].0@ && out@[k].1@
                            == value_view(all[k].1),
            {
                proof {
                    let members = value_view(v)->Object_0;
                    let pair = members[it.index()];
                    assert(pair == (x.0@, value_view(x.1)));
                    assert(decreases_to!(value_view(v) => members));
                    assert(decreases_to!(members => pair));
                    assert(decreases_to!(pair => pair.1));
                }
                let (name, member) = x;
                out.push((name, to_json(member)));
            }
            let j = Json::Object(out);
            assert(j@->Object_0 =~= value_view(v)->Object_0);
            j
        },
    }
}

/// Reads a JSON document.
pub fn parse_json(bytes: &[u8]) -> (r: Option<Json>)
    ensures
        match r {
            Some(j) => document_view(bytes@) == Some(j@),
            None => document_view(bytes@) is None,
        },
{
    match parse_value(bytes) {
        Ok(v) => Some(to_json(v)),
        Err(_) => None,
    }
}

proof fn lemma_member_from(v: Seq<(String, Json)>, key: Seq<char>, i: int)
    requires
        0 <= i <= v.len(),
    ensures
        member_from(v, key, i) is None <==> forall|k: int| i <= k < v.len() ==> (#[trigger] v[k]).0@ != key,
        forall|k: int|
            i <= k < v.len() && (#[trigger] v[k]).0@ == key && (forall|m: int|
                i <= m < k ==> (#[trigger] v[m]).0@ != key) ==> member_from(v, key, i) == Some(v[k].1),
    decreases v.len() - i,
{
    if i < v.len() {
        lemma_member_from(v, key, i + 1);
    }
}

/// An object gives the first of its members with a name, and nothing where it
/// has none; nothing else has members.
pub proof fn members_are_found_by_name(j: Json, key: Seq<char>)
    ensures
        !(j is Object) ==> member(j, key) is None,
        j matches Json::Object(v) ==> (member(j, key) is None <==> forall|k: int|
            0 <= k < v@.len() ==> (#[trigger] v@[k]).0@ != key),
        j matches Json::Object(v) ==> forall|k: int|
            0 <= k < v@.len() && (#[trigger] v@[k]).0@ == key && (forall|m: int|
                0 <= m < k ==> (#[trigger] v@[m]).0@ != key) ==> member(j, key) == Some(v@[k].1),
{
    if let Json::Object(v) = j {
        lemma_member_from(v@, key, 0);
    }
}

} // verus!
