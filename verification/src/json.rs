//! A JSON document as plain values.
use vstd::prelude::*;

verus! {

/// A JSON value. Numbers are kept as their text.
#[derive(Debug, PartialEq, Eq)]
pub enum Json {
    Null,
    Bool(bool),
    Number(String),
    Str(String),
    Array(Vec<Json>),
    Object(Vec<JsonMember>),
}

/// One `"key": value` member of a JSON object.
#[derive(Debug, PartialEq, Eq)]
pub struct JsonMember {
    pub key: String,
    pub value: Json,
}

/// The mathematical value of a JSON document.
pub enum JsonView {
    Null,
    Bool(bool),
    Number(Seq<char>),
    Str(Seq<char>),
    Array(Seq<JsonView>),
    Object(Seq<(Seq<char>, JsonView)>),
}

pub open spec fn json_view(j: Json) -> JsonView
    decreases j,
{
    match j {
        Json::Null => JsonView::Null,
        Json::Bool(b) => JsonView::Bool(b),
        Json::Number(n) => JsonView::Number(n@),
        Json::Str(s) => JsonView::Str(s@),
        Json::Array(a) => JsonView::Array(
            Seq::new(
                a@.len(),
                |i: int|
                    if 0 <= i < a@.len() {
                        json_view(a@[i])
                    } else {
                        JsonView::Null
                    },
            ),
        ),
        Json::Object(ms) => JsonView::Object(
            Seq::new(
                ms@.len(),
                |i: int|
                    if 0 <= i < ms@.len() {
                        (ms@[i].key@, json_view(ms@[i].value))
                    } else {
                        (Seq::empty(), JsonView::Null)
                    },
            ),
        ),
    }
}

impl View for Json {
    type V = JsonView;

    open spec fn view(&self) -> JsonView {
        json_view(*self)
    }
}

/// The values of an array's elements.
pub open spec fn array_view(a: Seq<Json>) -> Seq<JsonView> {
    Seq::new(a.len(), |i: int| json_view(a[i]))
}

/// The keys and values of an object's members.
pub open spec fn object_view(ms: Seq<JsonMember>) -> Seq<(Seq<char>, JsonView)> {
    Seq::new(ms.len(), |i: int| (ms[i].key@, json_view(ms[i].value)))
}

pub proof fn lemma_array_view(a: Vec<Json>)
    ensures
        json_view(Json::Array(a)) == JsonView::Array(array_view(a@)),
{
    if let JsonView::Array(items) = json_view(Json::Array(a)) {
        assert(items =~= array_view(a@));
    }
}

pub proof fn lemma_object_view(ms: Vec<JsonMember>)
    ensures
        json_view(Json::Object(ms)) == JsonView::Object(object_view(ms@)),
{
    if let JsonView::Object(items) = json_view(Json::Object(ms)) {
        assert(items =~= object_view(ms@));
    }
}

/// The index of the first member of `ms` with the key `key`.
pub open spec fn member_index(ms: Seq<(Seq<char>, JsonView)>, key: Seq<char>) -> Option<int>
    decreases ms.len(),
{
    if ms.len() == 0 {
        None
    } else if ms[0].0 == key {
        Some(0)
    } else {
        match member_index(ms.drop_first(), key) {
            Some(i) => Some(i + 1),
            None => None,
        }
    }
}

/// `Value::get(key)`: the value of the member `key` of an object.
pub open spec fn jget(v: JsonView, key: Seq<char>) -> Option<JsonView> {
    match v {
        JsonView::Object(ms) => match member_index(ms, key) {
            Some(i) => Some(ms[i].1),
            None => None,
        },
        _ => None,
    }
}

/// `v` with the value of its member `key` replaced by `new` (unchanged when
/// `v` is not an object with such a member).
pub open spec fn jset(v: JsonView, key: Seq<char>, new: JsonView) -> JsonView {
    match v {
        JsonView::Object(ms) => match member_index(ms, key) {
            Some(i) => JsonView::Object(ms.update(i, (ms[i].0, new))),
            None => v,
        },
        _ => v,
    }
}

pub proof fn lemma_member_index(ms: Seq<(Seq<char>, JsonView)>, key: Seq<char>, i: int)
    requires
        0 <= i <= ms.len(),
        forall|k: int| 0 <= k < i ==> ms[k].0 != key,
    ensures
        i < ms.len() && ms[i].0 == key ==> member_index(ms, key) == Some(i),
        i == ms.len() ==> member_index(ms, key) is None,
    decreases i,
{
    if i > 0 {
        lemma_member_index(ms.drop_first(), key, i - 1);
    }
}

pub proof fn lemma_member_index_bounds(ms: Seq<(Seq<char>, JsonView)>, key: Seq<char>)
    ensures
        member_index(ms, key) matches Some(i) ==> 0 <= i < ms.len() && ms[i].0 == key,
    decreases ms.len(),
{
    if ms.len() > 0 {
        lemma_member_index_bounds(ms.drop_first(), key);
    }
}

/// The index of the first member of `ms` whose key is `key`.
pub fn find_member(ms: &Vec<JsonMember>, key: &str) -> (r: Option<usize>)
    ensures
        match r {
            Some(i) => member_index(object_view(ms@), key@) == Some(i as int),
            None => member_index(object_view(ms@), key@) is None,
        },
{
    let k = crate::text::chars_of(key);
    let ghost mv = object_view(ms@);
    let mut i: usize = 0;
    while i < ms.len()
        invariant
            i <= ms.len(),
            k@ == key@,
            mv == object_view(ms@),
            forall|j: int| 0 <= j < i ==> mv[j].0 != key@,
        decreases ms.len() - i,
    {
        if crate::text::str_is(ms[i].key.as_str(), &k) {
            proof {
                lemma_member_index(mv, key@, i as int);
            }
            return Some(i);
        }
        i = i + 1;
    }
    proof {
        lemma_member_index(mv, key@, i as int);
    }
    None
}

/// `Value::get(key)`.
pub fn get_member<'a>(v: &'a Json, key: &str) -> (r: Option<&'a Json>)
    ensures
        match r {
            Some(x) => jget(v@, key@) == Some(x@),
            None => jget(v@, key@) is None,
        },
{
    match v {
        Json::Object(ms) => {
            proof {
                lemma_object_view(*ms);
                lemma_member_index_bounds(object_view(ms@), key@);
            }
            match find_member(ms, key) {
                Some(i) => Some(&ms[i].value),
                None => None,
            }
        },
        _ => None,
    }
}

} // verus!
